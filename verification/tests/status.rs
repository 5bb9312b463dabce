use flgit::status::{
    categorize_path, decode_git_path, parse_branch_line, parse_status, parse_status_z,
    status_text_readable,
    ChangeCategory, RepoStatus,
};

#[test]
fn parses_clean_branch_tracking() {
    let status = parse_status("C:/tmp/project", "## main...origin/main [ahead 2, behind 1]\n");
    assert_eq!(status.branch.as_deref(), Some("main"));
    assert_eq!(status.upstream.as_deref(), Some("origin/main"));
    assert_eq!(status.ahead, 2);
    assert_eq!(status.behind, 1);
    assert!(status.has_remote);
    assert!(status.changes.is_empty());
}

#[test]
fn parses_changes_and_categories() {
    let status = parse_status(
        "C:/tmp/project",
        "## main\n M song.flp\nA  Samples/kick.wav\n?? notes.md\nUU collab.flp\nR  old.flp -> new.flp\n",
    );
    assert_eq!(status.changes.len(), 5);
    assert_eq!(status.changes[0].category, ChangeCategory::Flp);
    assert!(status.changes[0].unstaged);
    assert!(status.changes[1].staged);
    assert_eq!(status.changes[1].category, ChangeCategory::Samples);
    assert_eq!(status.changes[2].category, ChangeCategory::Metadata);
    assert!(status.changes[3].conflicted);
    assert_eq!(status.changes[4].original_path.as_deref(), Some("old.flp"));
}

#[test]
fn parses_quoted_paths_as_samples_and_flps() {
    let status = parse_status(
        "C:/tmp/project",
        "## main\0?? \"!classic rim.wav\"\0?? \"808 30nickk (C) @wintfye.wav\"\0?? \"memories 4.flp\"\0?? \"take the world arsunol 2.mp3\"\0",
    );
    assert_eq!(status.changes.len(), 4);
    assert_eq!(status.changes[0].path, "!classic rim.wav");
    assert_eq!(status.changes[0].category, ChangeCategory::Samples);
    assert_eq!(status.changes[1].category, ChangeCategory::Samples);
    assert_eq!(status.changes[2].category, ChangeCategory::Flp);
    assert_eq!(status.changes[3].category, ChangeCategory::Samples);
}

#[test]
fn parses_status_fields_of_each_change() {
    let status = parse_status("/repo", "## dev\n M a.flp\nA  b.wav\n?? c.zip\nMM d.txt\n");
    assert_eq!(status.repo_root, "/repo");
    assert!(status.is_repo);
    assert_eq!(status.branch.as_deref(), Some("dev"));
    assert_eq!(status.upstream, None);
    assert!(!status.has_remote);
    let c = &status.changes;
    assert_eq!(c[0].status, " M");
    assert!(!c[0].staged && c[0].unstaged && !c[0].conflicted);
    assert_eq!(c[1].status, "A ");
    assert!(c[1].staged && !c[1].unstaged);
    assert_eq!(c[2].status, "??");
    assert!(!c[2].staged && c[2].unstaged);
    assert_eq!(c[2].category, ChangeCategory::Exports);
    assert!(c[3].staged && c[3].unstaged);
    assert_eq!(c[3].category, ChangeCategory::Metadata);
}

#[test]
fn parses_z_rename_with_source_entry() {
    let status = parse_status("/repo", "## main...origin/main\0R  new name.flp\0old name.flp\0 M mix.wav\0");
    assert_eq!(status.changes.len(), 2);
    assert_eq!(status.changes[0].path, "new name.flp");
    assert_eq!(status.changes[0].original_path.as_deref(), Some("old name.flp"));
    assert_eq!(status.changes[0].status, "R ");
    assert_eq!(status.changes[1].path, "mix.wav");
    assert_eq!(status.upstream.as_deref(), Some("origin/main"));
    assert_eq!(status.ahead, 0);
}

#[test]
fn conflict_codes_are_conflicted() {
    for code in ["DD", "AU", "UD", "UA", "DU", "AA", "UU"] {
        let text = format!("{} x.flp\n", code);
        let status = parse_status("/r", &text);
        assert!(status.changes[0].conflicted, "{}", code);
    }
    let status = parse_status("/r", "MM x.flp\n");
    assert!(!status.changes[0].conflicted);
}

#[test]
fn short_lines_are_skipped() {
    let status = parse_status("/r", "## b\nab\n M\n M x\n");
    assert_eq!(status.changes.len(), 1);
    assert_eq!(status.changes[0].path, "x");
}

#[test]
fn branch_line_counts_and_bad_numbers() {
    let mut s = parse_status("/r", "");
    parse_branch_line("feature...origin/feature [behind 7]", &mut s);
    assert_eq!(s.branch.as_deref(), Some("feature"));
    assert_eq!(s.upstream.as_deref(), Some("origin/feature"));
    assert_eq!(s.behind, 7);
    assert_eq!(s.ahead, 0);
    parse_branch_line("feature...origin/feature [ahead x, behind +3]", &mut s);
    assert_eq!(s.ahead, 0);
    assert_eq!(s.behind, 3);
    parse_branch_line("feature...origin/feature [ahead 99999999999]", &mut s);
    assert_eq!(s.ahead, 0);
    parse_branch_line("No commits yet on main", &mut s);
    assert_eq!(s.branch.as_deref(), Some("No commits yet on main"));
    assert_eq!(s.upstream.as_deref(), Some("origin/feature"));
}

#[test]
fn branch_without_upstream_name_has_no_remote() {
    let mut s: RepoStatus = parse_status("/r", "");
    parse_branch_line("main... [ahead 1]", &mut s);
    assert_eq!(s.upstream.as_deref(), Some(""));
    assert!(!s.has_remote);
    assert_eq!(s.ahead, 1);
}

#[test]
fn decodes_quoted_and_escaped_paths() {
    assert_eq!(decode_git_path("  plain.flp "), "plain.flp");
    assert_eq!(decode_git_path("\"a\\tb\\nc\\\\d\\\"e\""), "a\tb\nc\\d\"e");
    assert_eq!(decode_git_path("\"ends\\\""), "ends\\");
    assert_eq!(decode_git_path("\"x\\qy\""), "xqy");
    assert_eq!(decode_git_path("\""), "\"");
    assert_eq!(decode_git_path("\"\""), "");
}

#[test]
fn categorizes_paths_by_extension() {
    assert_eq!(categorize_path("Song.FLP"), ChangeCategory::Flp);
    assert_eq!(categorize_path("drums/Kick.Wav"), ChangeCategory::Samples);
    assert_eq!(categorize_path("melody.midi"), ChangeCategory::Samples);
    assert_eq!(categorize_path("render.mp4"), ChangeCategory::Exports);
    assert_eq!(categorize_path("bundle.7z"), ChangeCategory::Exports);
    assert_eq!(categorize_path("readme.txt"), ChangeCategory::Metadata);
    assert_eq!(categorize_path("x.gitignore"), ChangeCategory::Metadata);
    assert_eq!(categorize_path(".gitignore"), ChangeCategory::Other);
    assert_eq!(categorize_path("plugin.dll"), ChangeCategory::Other);
    assert_eq!(categorize_path("noext"), ChangeCategory::Other);
    assert_eq!(categorize_path("\"quoted song.flp\""), ChangeCategory::Flp);
}

#[test]
fn status_text_readability() {
    assert!(status_text_readable("## main...origin/main [ahead 1]\n M a.flp\n"));
    assert!(status_text_readable("## main...origin/main\0R  new.flp\0old.flp\0"));
    assert!(status_text_readable("M\u{e9} x\n"));
    assert!(status_text_readable(""));
    assert!(!status_text_readable("## main...origin/main ]x[\n"));
    assert!(!status_text_readable("\u{e9}\u{e9} x\n"));
    assert!(!status_text_readable("\u{e9}\u{e9} x\0"));
    assert!(!status_text_readable("## a...b ][\0"));
    assert!(!status_text_readable("## main...origin/fix]x [ahead 1]\n"));
    assert!(status_text_readable("## main...origin/fix [ahead 1]x]\n"));
}

#[test]
fn parse_status_z_lists_new_path_first() {
    let mut r = parse_status("/repo", "");
    parse_status_z("R  new.flp\0old.flp\0", &mut r);
    assert_eq!(r.changes.len(), 1);
    assert_eq!(r.changes[0].path, "new.flp");
    assert_eq!(r.changes[0].original_path.as_deref(), Some("old.flp"));
    assert_eq!(r.changes[0].status, "R ");
    assert!(r.changes[0].staged);
    assert_eq!(r.changes[0].category, ChangeCategory::Flp);
}

#[test]
fn parse_status_z_keeps_earlier_state() {
    let mut r = parse_status("/repo", "## main\n M kick.wav\n");
    r.remote_visibility = Some("private".to_string());
    r.merge_in_progress = true;
    parse_status_z("## dev...origin/dev [behind 3]\0?? notes.md\0", &mut r);
    assert_eq!(r.repo_root, "/repo");
    assert!(r.is_repo && r.merge_in_progress && !r.rebase_in_progress);
    assert_eq!(r.remote_visibility.as_deref(), Some("private"));
    assert_eq!(r.changes.len(), 2);
    assert_eq!(r.changes[0].path, "kick.wav");
    assert_eq!(r.changes[1].path, "notes.md");
    assert!(!r.changes[1].staged && r.changes[1].unstaged);
    assert_eq!(r.branch.as_deref(), Some("dev"));
    assert_eq!(r.behind, 3);
}

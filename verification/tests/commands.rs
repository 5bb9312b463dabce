use flgit::commands::{
    abort_args, commit_args, commit_log_args, compare_surface_pathspecs, conflict_checkout_flag,
    diff_path_args, first_commit_output, initialize_output, list_commits, parent_check_args,
    parse_commit_log, publish_output, required_remote_url, resolve_conflict_output,
    failed_step, revision_diff_args, revision_diff_shortcut, run_git_dynamic, set_remote_args, setup_output, unstage_args,
};
use flgit::git::GitOutput;

fn out(ok: bool, stdout: &str, stderr: &str) -> GitOutput {
    GitOutput { ok, stdout: stdout.to_string(), stderr: stderr.to_string() }
}

#[test]
fn first_commit_revision_diff_message_shape() {
    let output = first_commit_output();
    assert!(output.ok);
    assert_eq!(output.stdout, "This is the first commit");
    assert_eq!(output.stderr, "");
}

#[test]
fn compare_surface_pathspecs_exclude_flps_and_internal_git_files() {
    let pathspecs = compare_surface_pathspecs();
    assert!(pathspecs.contains(&":(exclude)*.flp".to_string()));
    assert!(pathspecs.contains(&":(exclude).gitattributes".to_string()));
    assert!(pathspecs.contains(&":(exclude).gitignore".to_string()));
    assert!(pathspecs.contains(&":(exclude).flgit/**".to_string()));
}

#[test]
fn unstage_uses_cached_rm_before_first_commit() {
    let args = unstage_args(false, vec!["kick.wav".to_string()]);
    assert_eq!(args, vec!["rm", "-r", "--cached", "--", "kick.wav"]);
}

#[test]
fn unstage_uses_restore_when_repo_has_commits() {
    let args = unstage_args(true, vec!["song.flp".to_string()]);
    assert_eq!(args, vec!["restore", "--staged", "--", "song.flp"]);
}

#[test]
fn parses_commit_log() {
    let commits = parse_commit_log(
        "0123456789abcdef\x1f0123456\x1fInitial commit\x1fAdmin\x1f2 minutes ago\nabcdef\x1fabcdef0\x1fUpdate mix\x1fProducer\x1fyesterday",
    );
    assert_eq!(commits.len(), 2);
    assert_eq!(commits[0].short_sha, "0123456");
    assert_eq!(commits[0].subject, "Initial commit");
    assert_eq!(commits[1].author, "Producer");
}

#[test]
fn commit_log_skips_short_lines_and_keeps_five_fields() {
    let commits = parse_commit_log("a\x1fb\x1fc\nsha\x1fs\x1fsub\x1fme\x1fnow\x1fextra\r\n\n");
    assert_eq!(commits.len(), 1);
    assert_eq!(commits[0].sha, "sha");
    assert_eq!(commits[0].relative_time, "now");
    assert_eq!(parse_commit_log("").len(), 0);
    assert_eq!(list_commits(&out(false, "x", "fatal")).err(), Some("fatal".to_string()));
    assert_eq!(list_commits(&out(true, "", "")).map(|v| v.len()), Ok(0));
}

#[test]
fn commit_log_limit_is_clamped() {
    assert_eq!(commit_log_args(None)[1], "-n40");
    assert_eq!(commit_log_args(Some(0))[1], "-n1");
    assert_eq!(commit_log_args(Some(999))[1], "-n200");
    assert_eq!(commit_log_args(Some(17))[1], "-n17");
    assert_eq!(commit_log_args(None)[3], "--pretty=format:%H%x1f%h%x1f%s%x1f%an%x1f%cr");
}

#[test]
fn staging_leaves_out_backup_paths() {
    let args = run_git_dynamic("add", vec!["Backup/a.flp".to_string(), "song.flp".to_string()], true);
    assert_eq!(args, Ok(vec!["add".to_string(), "-f".to_string(), "--".to_string(), "song.flp".to_string()]));
    let args = run_git_dynamic("add", vec!["x/backup/y".to_string()], false);
    assert_eq!(args, Err("No stageable paths selected".to_string()));
    let args = run_git_dynamic("add", vec!["a".to_string()], false);
    assert_eq!(args, Ok(vec!["add".to_string(), "--".to_string(), "a".to_string()]));
}

#[test]
fn commit_and_remote_inputs() {
    assert_eq!(commit_args("  fix mix \n"), Ok(vec!["commit".to_string(), "-m".to_string(), "fix mix".to_string()]));
    assert_eq!(commit_args("   "), Err("Commit message is required".to_string()));
    assert_eq!(required_remote_url(" git@github.com:a/b.git "), Ok("git@github.com:a/b.git".to_string()));
    assert_eq!(required_remote_url(""), Err("Remote URL is required".to_string()));
    assert_eq!(set_remote_args(true, "u"), vec!["remote", "set-url", "origin", "u"]);
    assert_eq!(set_remote_args(false, "u"), vec!["remote", "add", "origin", "u"]);
}

#[test]
fn diff_and_history_arguments() {
    assert_eq!(diff_path_args("a.wav", true), vec!["diff", "--cached", "--", "a.wav"]);
    assert_eq!(diff_path_args("a.wav", false), vec!["diff", "--", "a.wav"]);
    assert_eq!(parent_check_args("abc"), vec!["rev-parse", "--verify", "abc^"]);
    assert_eq!(revision_diff_args("abc", "p"), vec!["diff", "abc~1", "abc", "--", "p"]);
    assert_eq!(abort_args(true), vec!["rebase", "--abort"]);
    assert_eq!(abort_args(false), vec!["merge", "--abort"]);
}

#[test]
fn conflict_resolution() {
    assert_eq!(conflict_checkout_flag("local"), Ok("--ours".to_string()));
    assert_eq!(conflict_checkout_flag("remote"), Ok("--theirs".to_string()));
    assert_eq!(conflict_checkout_flag("theirs"), Err("Conflict choice must be local or remote".to_string()));
    let failed = resolve_conflict_output(&out(false, "o", "e"), &None);
    assert!(!failed.ok && failed.stdout == "o" && failed.stderr == "e");
    let done = resolve_conflict_output(&out(true, "o", "e"), &Some(out(true, "a", "b")));
    assert!(done.ok && done.stdout == "oa" && done.stderr == "eb");
}

#[test]
fn setup_and_publish_outcomes() {
    let r = initialize_output(&out(true, "i", "I"), &out(true, "l", "L"), &out(false, "f", "F"));
    assert!(!r.ok);
    assert_eq!(r.stdout, "iIlLfF");
    assert_eq!(r.stderr, "");
    let r = setup_output("lfs ok\n", &out(true, "set", "warn"));
    assert!(r.ok && r.stdout == "lfs ok\nset" && r.stderr == "warn");
    let r = publish_output(&out(true, "snap", "x"), &out(false, "gh", "denied"));
    assert!(!r.ok && r.stdout == "snapgh" && r.stderr == "denied");
}

#[test]
fn commit_log_round_trip() {
    let rows = [
        ["9f1c2d", "9f1c", "Add hats, tweak kick", "Producer One", "3 hours ago"],
        ["77aa00", "77aa", "", "Admin", "now"],
    ];
    let text = rows
        .iter()
        .map(|r| r.join("\x1f"))
        .collect::<Vec<_>>()
        .join("\n");
    let commits = parse_commit_log(&text);
    assert_eq!(commits.len(), rows.len());
    for (c, r) in commits.iter().zip(rows.iter()) {
        assert_eq!(
            [c.sha.as_str(), c.short_sha.as_str(), c.subject.as_str(), c.author.as_str(), c.relative_time.as_str()],
            *r
        );
    }
}

#[test]
fn early_outcomes_of_sequences() {
    assert!(failed_step(&out(true, "ok", "")).is_none());
    let stopped = failed_step(&out(false, "partial", "fatal: no")).unwrap();
    assert!(!stopped.ok);
    assert_eq!((stopped.stdout.as_str(), stopped.stderr.as_str()), ("partial", "fatal: no"));
    assert!(revision_diff_shortcut(&out(true, "abc\n", "")).is_none());
    let shown = revision_diff_shortcut(&out(false, "", "fatal: bad revision")).unwrap();
    assert!(shown.ok);
    assert_eq!(shown.stdout, "This is the first commit");
    assert_eq!(shown.stderr, "");
}

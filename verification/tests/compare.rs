use flgit::compare::{
    diff_commits, diff_commits_args, flp_temp_names, semantic_diff_paths, semantic_flp_entry,
    semantic_report,
};
use flgit::git::GitOutput;

fn out(ok: bool, stdout: &str, stderr: &str) -> GitOutput {
    GitOutput { ok, stdout: stdout.to_string(), stderr: stderr.to_string() }
}

#[test]
fn comparison_arguments() {
    let (summary, patch, names) = diff_commits_args("a1", "b2");
    assert_eq!(&summary[..5], &["diff", "--stat", "--summary", "a1", "b2"]);
    assert_eq!(summary.len(), 14);
    assert_eq!(&patch[..3], &["diff", "a1", "b2"]);
    assert!(patch.contains(&":(exclude)*.flp".to_string()));
    assert_eq!(names, vec!["diff", "--name-only", "a1", "b2", "--", "*.flp", "*.FLP"]);
}

#[test]
fn comparison_report() {
    let r = diff_commits(
        "0123456789abcdef",
        "fedcba",
        &out(true, " 1 file changed \n", ""),
        &out(true, "\n", "warn"),
        &out(false, "", "  "),
        "Semantic FLP diff:\nx\n",
    );
    assert!(!r.ok);
    assert_eq!(
        r.stdout,
        "Comparing 0123456789ab..fedcba\n\nGit file diff:\n1 file changed\n\nSemantic FLP diff:\nx\n"
    );
    assert_eq!(r.stderr, "warn");
    let r = diff_commits("a", "b", &out(true, "s", "e1"), &out(true, "p", "e2"), &out(true, "", ""), "  ");
    assert!(r.ok);
    assert_eq!(r.stdout, "Comparing a..b\n\nGit file diff:\ns\n\np\n");
    assert_eq!(r.stderr, "e1\ne2");
    let r = diff_commits("a", "b", &out(true, "", ""), &out(true, "", ""), &out(true, "", ""), "");
    assert_eq!(r.stdout, "Comparing a..b\n\nNo surface file changes were returned by Git.\n");
}

#[test]
fn semantic_paths_and_entries() {
    assert_eq!(semantic_diff_paths(" a\\b.flp \n\n c.flp\n"), vec!["a/b.flp", "c.flp"]);
    assert_eq!(semantic_report(&vec![]), "");
    assert_eq!(
        semantic_report(&vec!["\n--- a.flp\nx\n".to_string(), "\n--- b.flp\ny\n".to_string()]),
        "Semantic FLP diff:\n\n--- a.flp\nx\n\n--- b.flp\ny\n"
    );
    assert_eq!(flp_temp_names("a/b c.flp"), ("base-a_b_c.flp".to_string(), "head-a_b_c.flp".to_string()));
    assert_eq!(
        semantic_flp_entry("s.flp", &None, &None, &Some(out(true, " ", ""))),
        "\n--- s.flp\nNo semantic FLP changes reported.\n"
    );
    assert_eq!(
        semantic_flp_entry("s.flp", &None, &None, &Some(out(true, "tempo 140\n", "note\n"))),
        "\n--- s.flp\ntempo 140\nnote\n"
    );
    assert_eq!(
        semantic_flp_entry("s.flp", &Some("x".to_string()), &None, &None),
        "\n--- s.flp\nFLP added in selected range.\n"
    );
    assert_eq!(
        semantic_flp_entry("s.flp", &None, &Some("x".to_string()), &None),
        "\n--- s.flp\nFLP removed in selected range.\n"
    );
    assert_eq!(
        semantic_flp_entry("s.flp", &Some("b".to_string()), &Some("h".to_string()), &None),
        "\n--- s.flp\nCould not extract FLP from either revision.\nbase: b\nhead: h\n"
    );
}

use flgit::git::{
    command_exe, command_version, commit_lock_change, commit_project_snapshot_if_needed,
    detect_remote_visibility, existing_repo_root, git_blob_at_revision, git_user_name,
    is_lfs_pointer, lists_origin_remote, log_git_action, repo_has_commits, require_success,
    run_command, run_git_bytes, trim_command_error, BlobStep, GitOutput, SnapshotStep,
};

fn out(ok: bool, stdout: &str, stderr: &str) -> GitOutput {
    GitOutput { ok, stdout: stdout.to_string(), stderr: stderr.to_string() }
}

#[test]
fn detects_lfs_pointer_blobs() {
    let pointer = b"version https://git-lfs.github.com/spec/v1\noid sha256:abc\nsize 123\n";
    assert!(is_lfs_pointer(pointer));
    assert!(!is_lfs_pointer(b"FLhd real flp bytes"));
}

#[test]
fn lfs_pointer_needs_the_whole_header() {
    assert!(!is_lfs_pointer(b"version https://git-lfs.github.com/spec/v1"));
    assert!(!is_lfs_pointer(b""));
    assert!(is_lfs_pointer(b"version https://git-lfs.github.com/spec/v1\n"));
}

#[test]
fn command_error_prefers_stderr_then_stdout_then_fallback() {
    assert_eq!(trim_command_error(&out(false, " out ", "  err \n"), "fb"), "err");
    assert_eq!(trim_command_error(&out(false, " out ", "  \n"), "fb"), "out");
    assert_eq!(trim_command_error(&out(false, " ", ""), "fb"), "fb");
    assert_eq!(require_success(&out(true, "", ""), "fb"), Ok(()));
    assert_eq!(require_success(&out(false, "", "boom"), "fb"), Err("boom".to_string()));
}

#[test]
fn reads_user_name_root_and_version() {
    assert_eq!(git_user_name(&Ok(out(true, " Producer \n", ""))), Some("Producer".to_string()));
    assert_eq!(git_user_name(&Ok(out(true, "  \n", ""))), None);
    assert_eq!(git_user_name(&Ok(out(false, "x", ""))), None);
    assert_eq!(git_user_name(&Err("no git".to_string())), None);
    assert_eq!(existing_repo_root(&Some(out(true, "/a/b\n", ""))), Some("/a/b".to_string()));
    assert_eq!(existing_repo_root(&Some(out(false, "/a/b\n", ""))), None);
    assert_eq!(existing_repo_root(&None), None);
    assert_eq!(command_version(&Some(out(true, "git version 2.44\n", ""))), Some("git version 2.44".to_string()));
    assert_eq!(command_version(&Some(out(false, "x", ""))), None);
    assert_eq!(command_exe(&None, "gh"), "gh");
    assert_eq!(command_exe(&Some("C:/git.exe".to_string()), "git"), "C:/git.exe");
    assert_eq!(repo_has_commits(Ok(out(false, "", ""))), Ok(false));
    assert_eq!(repo_has_commits(Err("e".to_string())), Err("e".to_string()));
}

#[test]
fn remote_visibility_rules() {
    let remotes = Ok(out(true, "upstream\n origin \n", ""));
    assert!(lists_origin_remote(&remotes));
    assert_eq!(detect_remote_visibility(&remotes, &Some(out(true, " PUBLIC\n", ""))), Some("public".to_string()));
    assert_eq!(detect_remote_visibility(&remotes, &Some(out(false, "", "x"))), Some("remote".to_string()));
    assert_eq!(detect_remote_visibility(&remotes, &Some(out(true, "  ", ""))), Some("remote".to_string()));
    assert_eq!(detect_remote_visibility(&remotes, &None), None);
    let none = Ok(out(true, "upstream\n", ""));
    assert_eq!(detect_remote_visibility(&none, &Some(out(true, "public", ""))), None);
}

#[test]
fn lock_change_combines_outputs() {
    let add = out(true, "a", "A");
    let commit = out(true, "c", "C");
    let r = commit_lock_change(&add, &commit, &Some(Ok(out(true, "p", "P"))));
    assert!(r.ok);
    assert_eq!(r.stdout, "acp");
    assert_eq!(r.stderr, "ACP");
    let r = commit_lock_change(&add, &commit, &Some(Err("spawn".to_string())));
    assert!(!r.ok);
    assert_eq!(r.stderr, "ACPush failed or no upstream is configured");
    let failed = out(false, "nothing", "");
    let r = commit_lock_change(&add, &failed, &None);
    assert!(!r.ok);
    assert_eq!(r.stdout, "anothing");
}

#[test]
fn snapshot_steps() {
    let add = out(true, "a", "");
    match commit_project_snapshot_if_needed(&add, &None, &None) {
        SnapshotStep::CheckStaged => {}
        _ => panic!("expected a staged check"),
    }
    match commit_project_snapshot_if_needed(&add, &Some(out(true, "", "")), &None) {
        SnapshotStep::Done(o) => {
            assert!(o.ok);
            assert_eq!(o.stdout, "a");
        }
        _ => panic!("expected done"),
    }
    match commit_project_snapshot_if_needed(&add, &Some(out(false, "", "")), &None) {
        SnapshotStep::Commit => {}
        _ => panic!("expected a commit"),
    }
    match commit_project_snapshot_if_needed(&add, &Some(out(false, "", "")), &Some(out(true, "c", "e"))) {
        SnapshotStep::Done(o) => {
            assert!(o.ok);
            assert_eq!(o.stdout, "ac");
            assert_eq!(o.stderr, "e");
        }
        _ => panic!("expected done"),
    }
    match commit_project_snapshot_if_needed(&out(false, "x", "y"), &None, &None) {
        SnapshotStep::Done(o) => assert!(!o.ok && o.stdout == "x"),
        _ => panic!("expected done"),
    }
}

#[test]
fn blob_steps_and_byte_outputs() {
    let pointer = b"version https://git-lfs.github.com/spec/v1\noid sha256:abc\n".to_vec();
    match git_blob_at_revision("a/song.flp", Ok(pointer.clone())) {
        BlobStep::Smudge { args, input } => {
            assert_eq!(args, vec!["lfs", "smudge", "--", "a/song.flp"]);
            assert_eq!(input, pointer);
        }
        _ => panic!("expected smudge"),
    }
    match git_blob_at_revision("a", Ok(b"FLhd".to_vec())) {
        BlobStep::Done(Ok(b)) => assert_eq!(b, b"FLhd".to_vec()),
        _ => panic!("expected bytes"),
    }
    let (log, r) = run_git_bytes(true, vec![1, 2, 3], b"");
    assert_eq!(log.stdout, "3 bytes");
    assert!(log.ok);
    assert_eq!(r, Ok(vec![1, 2, 3]));
    let (log, r) = run_git_bytes(false, vec![], b"bad");
    assert_eq!(log.stdout, "0 bytes");
    assert_eq!(log.stderr, "bad");
    assert_eq!(r, Err("bad".to_string()));
}

#[test]
fn git_log_entry_shape() {
    let args = vec!["commit".to_string(), "-m".to_string(), "x".to_string()];
    let entry = log_git_action(42, "/repo", &args, &Ok(out(true, "done \n", "  ")));
    assert_eq!(entry, "time=42 cwd=/repo cmd=git commit -m x\nok=true\nstdout:\ndone\n---\n");
    let entry = log_git_action(7, "/r", &vec![], &Err("no git".to_string()));
    assert_eq!(entry, "time=7 cwd=/r cmd=git \nerror=no git\n---\n");
    let entry = log_git_action(0, "/r", &vec!["push".to_string()], &Ok(out(false, "", "rejected\n")));
    assert_eq!(entry, "time=0 cwd=/r cmd=git push\nok=false\nstderr:\nrejected\n---\n");
}

#[test]
fn command_output_is_read_as_text() {
    let o = run_command(true, "caf\u{e9}\n".as_bytes(), b"");
    assert!(o.ok);
    assert_eq!(o.stdout, "caf\u{e9}\n");
    assert_eq!(o.stderr, "");
    let o = run_command(false, b"", &[b'a', 0xff, b'b']);
    assert!(!o.ok);
    assert_eq!(o.stderr, "a\u{fffd}b");
}

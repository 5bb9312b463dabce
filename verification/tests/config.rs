use flgit::config::{
    bind_project_path, choose_repo_root, clone_args, default_branch_name, flpdiff_driver_config_args,
    flpdiff_exe, flpdiff_info_args, init_args, list_flp_files, new_project_lock,
    prerequisite_status, publish_args, record_initialized_project, repo_candidate,
    reset_project_state_for_close, sanitize_project_name, validate_clone_destination,
    validate_clone_remote_url, visibility_flag, AppConfig, DirEntryInfo, OverlayPlacement,
    SavedWindowGeometry,
};
use flgit::text::trim_str;

fn validate(url: &str) -> Result<String, String> {
    let local = std::path::Path::new(&trim_str(url)).exists();
    validate_clone_remote_url(url, local)
}

#[test]
fn close_reset_clears_project_state_and_preserves_global_preferences() {
    let mut config = AppConfig {
        bound_project_path: Some("C:/Songs/Track/track.flp".to_string()),
        repo_root: Some("C:/Songs/Track".to_string()),
        project_name: Some("Track".to_string()),
        last_selected_branch: Some("main".to_string()),
        overlay_placement: OverlayPlacement::Floating,
        overlay_expanded: false,
        expanded_position: Some(SavedWindowGeometry { x: 10, y: 20, width: 700, height: 500 }),
        flpdiff_path: Some("C:/Tools/flpdiff.exe".to_string()),
        git_path: Some("C:/Tools/git.exe".to_string()),
        git_lfs_path: Some("C:/Tools/git-lfs.exe".to_string()),
    };

    reset_project_state_for_close(&mut config);

    assert!(config.bound_project_path.is_none());
    assert!(config.repo_root.is_none());
    assert!(config.project_name.is_none());
    assert!(config.last_selected_branch.is_none());
    assert!(config.expanded_position.is_none());
    assert!(config.overlay_expanded);
    assert!(matches!(config.overlay_placement, OverlayPlacement::Floating));
    assert_eq!(config.flpdiff_path.as_deref(), Some("C:/Tools/flpdiff.exe"));
    assert_eq!(config.git_path.as_deref(), Some("C:/Tools/git.exe"));
    assert_eq!(config.git_lfs_path.as_deref(), Some("C:/Tools/git-lfs.exe"));
}

#[test]
fn default_config_opens_expanded_without_project_binding() {
    let config = AppConfig::default();
    assert!(config.overlay_expanded);
    assert!(config.bound_project_path.is_none());
    assert!(config.repo_root.is_none());
    assert!(config.expanded_position.is_none());
}

#[test]
fn default_placement_is_right() {
    assert_eq!(AppConfig::default().overlay_placement, OverlayPlacement::Right);
    assert_eq!(OverlayPlacement::default(), OverlayPlacement::Right);
}

#[test]
fn validates_clone_remote_urls() {
    assert!(validate("https://github.com/user/repo.git").is_ok());
    assert!(validate("git@github.com:user/repo.git").is_ok());
    assert!(validate("ssh://git@github.com/user/repo.git").is_ok());
    assert!(validate("").is_err());
    assert!(validate("https://example.com/user/repo.git").is_err());
    assert!(validate("https://github.com/user repo.git").is_err());
}

#[test]
fn clone_remote_errors_and_trimming() {
    assert_eq!(validate_clone_remote_url("  ", false), Err("Remote URL is required".to_string()));
    assert_eq!(validate_clone_remote_url("ssh://a\0b", false), Err("Remote URL contains an invalid character".to_string()));
    assert_eq!(validate_clone_remote_url("ftp://x", false), Err("Enter a GitHub HTTPS or SSH remote URL".to_string()));
    assert_eq!(validate_clone_remote_url("HTTPS://GitHub.com/a b", false), Err("Remote URL cannot contain spaces".to_string()));
    assert_eq!(validate_clone_remote_url(" HTTPS://GitHub.com/a/b ", false), Ok("HTTPS://GitHub.com/a/b".to_string()));
    assert_eq!(validate_clone_remote_url("/tmp/my repo.git", true), Ok("/tmp/my repo.git".to_string()));
    assert_eq!(validate_clone_remote_url("file:///srv/x.git", false), Ok("file:///srv/x.git".to_string()));
}

#[test]
fn validates_clone_destination_shape() {
    assert_eq!(validate_clone_destination(false, true, true, false), Ok(()));
    assert_eq!(validate_clone_destination(false, false, false, false), Ok(()));
    assert_eq!(validate_clone_destination(false, true, true, true), Err("Clone destination must be empty".to_string()));
    assert_eq!(validate_clone_destination(true, true, true, true), Err("Destination already contains a Git repo".to_string()));
    assert_eq!(validate_clone_destination(false, true, false, false), Err("Clone destination must be a folder".to_string()));
    assert_eq!(clone_args("u", "d"), vec!["clone", "u", "d"]);
}

#[test]
fn project_names_are_trimmed_and_checked() {
    assert_eq!(sanitize_project_name("  Track One "), Ok("Track One".to_string()));
    assert_eq!(sanitize_project_name("   "), Err("Project name is required".to_string()));
    assert_eq!(
        sanitize_project_name("a/b"),
        Err("Project name cannot contain Windows path separator characters".to_string())
    );
    assert!(sanitize_project_name("what?").is_err());
    let once = sanitize_project_name(" Beat \t").unwrap();
    assert_eq!(sanitize_project_name(&once), Ok(once.clone()));
}

#[test]
fn binding_records_project() {
    let mut config = AppConfig::default();
    config.git_path = Some("git.exe".to_string());
    let r = bind_project_path(&mut config, "/songs/track/a.flp", "/songs/track", true, vec!["/songs/track/a.flp".to_string()], None);
    assert_eq!(r.project_name.as_deref(), Some("track"));
    assert!(r.is_repo);
    assert_eq!(config.repo_root.as_deref(), Some("/songs/track"));
    assert_eq!(config.bound_project_path.as_deref(), Some("/songs/track/a.flp"));
    assert_eq!(config.project_name.as_deref(), Some("track"));
    assert_eq!(config.git_path.as_deref(), Some("git.exe"));
    let r = bind_project_path(&mut config, "/x", "/x", false, vec![], Some("Named".to_string()));
    assert_eq!(r.project_name.as_deref(), Some("Named"));
    reset_project_state_for_close(&mut config);
    assert!(config.bound_project_path.is_none());
    assert_eq!(config.git_path.as_deref(), Some("git.exe"));
}

#[test]
fn repo_candidate_and_root() {
    assert_eq!(repo_candidate("/songs/track/a.flp", true), Ok("/songs/track".to_string()));
    assert_eq!(repo_candidate("/songs/track", false), Ok("/songs/track".to_string()));
    assert_eq!(repo_candidate("/", true), Err("Selected file has no parent directory".to_string()));
    assert_eq!(choose_repo_root("/a/b", Some("/a".to_string())), "/a");
    assert_eq!(choose_repo_root("/a/b", None), "/a/b");
}

#[test]
fn flp_files_are_listed_sorted_without_backups() {
    let entries = vec![
        DirEntryInfo { path: "/p/zeta.flp".to_string(), is_file: true },
        DirEntryInfo { path: "/p/Backup".to_string(), is_file: false },
        DirEntryInfo { path: "/p/alpha.FLP".to_string(), is_file: true },
        DirEntryInfo { path: "/p/kick.wav".to_string(), is_file: true },
        DirEntryInfo { path: "/p/dir.flp".to_string(), is_file: false },
        DirEntryInfo { path: "/p/Mid.flp".to_string(), is_file: true },
    ];
    assert_eq!(list_flp_files("/p", false, &entries), vec!["/p/Mid.flp", "/p/alpha.FLP", "/p/zeta.flp"]);
    assert_eq!(list_flp_files("/p/song.Flp", true, &entries), vec!["/p/song.Flp"]);
    assert!(list_flp_files("/p/song.wav", true, &entries).is_empty());
}

#[test]
fn setup_values() {
    assert_eq!(default_branch_name(None), "main");
    assert_eq!(default_branch_name(Some("  ".to_string())), "main");
    assert_eq!(default_branch_name(Some("dev".to_string())), "dev");
    assert_eq!(init_args(false, "main"), vec!["init", "--initial-branch", "main"]);
    assert_eq!(init_args(true, "main"), vec!["branch", "-M", "main"]);
    assert_eq!(flpdiff_exe(None, None), "flpdiff");
    assert_eq!(flpdiff_exe(None, Some("/bin/f".to_string())), "/bin/f");
    assert_eq!(flpdiff_exe(Some("g".to_string()), Some("/bin/f".to_string())), "g");
    assert_eq!(flpdiff_info_args("a.flp"), vec!["info", "a.flp", "--format", "json"]);
    assert_eq!(flpdiff_driver_config_args("f"), vec!["config", "--local", "diff.flp.command", "f"]);
    let mut c = AppConfig::default();
    record_initialized_project(&mut c, "/r", "Name");
    assert_eq!(c.repo_root.as_deref(), Some("/r"));
    assert_eq!(c.project_name.as_deref(), Some("Name"));
}

#[test]
fn publishing_and_locks() {
    assert_eq!(visibility_flag(&None), "--private");
    assert_eq!(visibility_flag(&Some("public".to_string())), "--public");
    assert_eq!(visibility_flag(&Some("internal".to_string())), "--internal");
    assert_eq!(visibility_flag(&Some("Public".to_string())), "--private");
    assert_eq!(
        publish_args("Beat", "--public"),
        vec!["repo", "create", "Beat", "--source", ".", "--remote", "origin", "--push", "--public"]
    );
    let lock = new_project_lock(None, 123);
    assert!(lock.active);
    assert_eq!(lock.owner.as_deref(), Some("Unknown collaborator"));
    assert_eq!(lock.created_at_unix, Some(123));
    let lock = new_project_lock(Some("Admin".to_string()), 5);
    assert_eq!(lock.owner.as_deref(), Some("Admin"));
    let p = prerequisite_status(Some("git 2".to_string()), None, None, Some("f 1".to_string()));
    assert!(p.git_available && !p.git_lfs_available && !p.github_cli_available && p.flpdiff_available);
    assert_eq!(p.flpdiff_version.as_deref(), Some("f 1"));
}

#[test]
fn windows_prefixes_are_not_names() {
    assert_eq!(repo_candidate("C:\\Songs\\beat.flp", true), Ok("C:\\Songs".to_string()));
    assert_eq!(repo_candidate("C:\\beat.flp", true), Ok("C:\\".to_string()));
    assert_eq!(repo_candidate("C:beat.flp", true), Ok("C:".to_string()));
    assert_eq!(repo_candidate("C:\\", true), Err("Selected file has no parent directory".to_string()));
    assert_eq!(
        repo_candidate("\\\\server\\share\\repo", true),
        Ok("\\\\server\\share\\".to_string())
    );
    assert_eq!(
        repo_candidate("//server/share", true),
        Err("Selected file has no parent directory".to_string())
    );
    let mut config = AppConfig::default();
    let r = bind_project_path(&mut config, "C:\\", "C:\\", false, vec![], None);
    assert_eq!(r.project_name, None);
    assert_eq!(config.project_name, None);
    let r = bind_project_path(&mut config, "\\\\nas\\music", "\\\\nas\\music", false, vec![], None);
    assert_eq!(r.project_name, None);
    let r = bind_project_path(&mut config, "D:\\Music\\Beat", "D:\\Music\\Beat", true, vec![], None);
    assert_eq!(r.project_name.as_deref(), Some("Beat"));
    assert!(list_flp_files("C:.flp", true, &vec![]).is_empty());
    assert_eq!(list_flp_files("C:a.FLP", true, &vec![]), vec!["C:a.FLP".to_string()]);
}

use flgit::paths::{
    is_backup_path, normalize_windows_verbatim_path, sanitize_temp_file_name,
    should_emit_project_change,
};
use flgit::config::clone_parent;

#[test]
fn project_change_filter_ignores_backups() {
    assert!(!should_emit_project_change("C:/Song/Backup/song_1.flp"));
    assert!(should_emit_project_change("C:/Song/song.flp"));
    assert!(should_emit_project_change("C:/Song/Audio/kick.wav"));
    assert!(should_emit_project_change("C:/Song/.git/index"));
}

#[test]
fn project_change_filter_other_cases() {
    assert!(!should_emit_project_change("C:\\Song\\Backup"));
    assert!(!should_emit_project_change("C:/Song/.git/objects/ab/cdef"));
    assert!(should_emit_project_change("C:/Song/.git/refs/heads/main"));
    assert!(should_emit_project_change("C:/Song/.git/MERGE_HEAD"));
    assert!(should_emit_project_change("C:/Song/.gitignore"));
    assert!(should_emit_project_change("C:/Song/notes.MD"));
    assert!(!should_emit_project_change("C:/Song/render.mp4"));
    assert!(!should_emit_project_change("C:/Song/Makefile"));
}

#[test]
fn detects_backup_paths() {
    assert!(is_backup_path("Backup/song.flp"));
    assert!(is_backup_path("Project/Backup/song.flp"));
    assert!(!is_backup_path("Audio/kick.wav"));
}

#[test]
fn backup_paths_any_case_and_separator() {
    assert!(is_backup_path("backup"));
    assert!(is_backup_path("BACKUP\\x.flp"));
    assert!(!is_backup_path("Backups/x.flp"));
    assert!(!is_backup_path("my-backup.flp"));
}

#[test]
fn normalizes_windows_verbatim_paths_for_git_cli() {
    assert_eq!(
        normalize_windows_verbatim_path(r"\\?\C:\Users\Admin\Downloads\remv2"),
        r"C:\Users\Admin\Downloads\remv2"
    );
    assert_eq!(
        normalize_windows_verbatim_path(r"\\?\UNC\server\share\repo"),
        r"\\server\share\repo"
    );
}

#[test]
fn plain_paths_are_not_changed() {
    assert_eq!(normalize_windows_verbatim_path("C:/Songs/x"), "C:/Songs/x");
}

#[test]
fn temp_file_names_keep_safe_characters() {
    assert_eq!(sanitize_temp_file_name("My Songs/beat-1.flp"), "My_Songs_beat-1.flp");
}

#[test]
fn clone_runs_in_the_parent_folder() {
    assert_eq!(clone_parent("/home/me/clone"), "/home/me");
    assert_eq!(clone_parent("/clone"), "/");
    assert_eq!(clone_parent("clone"), "");
    assert_eq!(clone_parent("C:\\clone"), "C:\\");
    assert_eq!(clone_parent("/home/me/clone/"), "/home/me");
    assert_eq!(clone_parent("/"), ".");
}

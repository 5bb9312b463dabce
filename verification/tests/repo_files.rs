use flgit::repo_files::{flpdiff_driver_attributes, update_gitattributes, update_gitignore};

#[test]
fn updates_gitattributes_without_dropping_existing_rules() {
    let updated = update_gitattributes("*.png filter=lfs diff=lfs merge=lfs -text\n");
    assert!(updated.contains("*.png filter=lfs diff=lfs merge=lfs -text"));
    assert!(updated.contains("*.flp filter=lfs diff=flp merge=lfs -text"));
    assert!(updated.contains("*.wav filter=lfs diff=lfs merge=lfs -text"));
}

#[test]
fn updates_gitignore_for_fl_backup_folder() {
    let updated = update_gitignore(".env\n");
    assert!(updated.contains(".env"));
    assert!(updated.contains("Backup/"));
    assert!(updated.contains("Backup/**"));
}

#[test]
fn gitignore_is_sorted_set_with_final_newline() {
    assert_eq!(
        update_gitignore("zeta\n*.tmp\r\n.env\n\n"),
        "\n*.bak\n*.tmp\n.env\n.flgit/logs/\nBackup/\nBackup/**\nzeta\n"
    );
    assert_eq!(update_gitignore(""), "*.bak\n*.tmp\n.flgit/logs/\nBackup/\nBackup/**\n");
}

#[test]
fn line_set_files_are_idempotent() {
    let once = update_gitattributes("b\na\n*.flp filter=lfs diff=flp merge=lfs -text");
    assert_eq!(update_gitattributes(&once), once);
    assert_eq!(once.lines().count(), 20);
    let once = update_gitignore("x\r\ny");
    assert_eq!(update_gitignore(&once), once);
}

#[test]
fn local_flpdiff_setup_does_not_create_tracked_attributes() {
    assert_eq!(flpdiff_driver_attributes(""), "*.FLP diff=flp\n*.flp diff=flp\n");
    assert_eq!(
        flpdiff_driver_attributes("*.flp diff=flp\n*.wav -text\n"),
        "*.FLP diff=flp\n*.flp diff=flp\n*.wav -text\n"
    );
}

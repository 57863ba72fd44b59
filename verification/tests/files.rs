use lux::image::{file_uri, is_image_path};
use lux::paths::{path_extension, path_file_name, path_join, path_starts_with, paths_equal, same_parent};
use lux::workspace::{is_rename_target, unused_child};

#[test]
fn image_extensions_are_recognized_case_insensitively() {
    assert!(is_image_path("/ws/photo.PNG"));
    assert!(is_image_path("/ws/photo.jpg"));
    assert!(is_image_path("/ws/photo.Jpeg"));
    assert!(is_image_path("/ws/anim.gif"));
    assert!(is_image_path("/ws/pic.webp"));
    assert!(is_image_path("/ws/pic.bmp"));
    assert!(is_image_path("/ws/pic.ico"));
    assert!(!is_image_path("/ws/code.rs"));
    assert!(!is_image_path("/ws/notes"));
    assert!(!is_image_path("/ws/archive.zip"));
}

#[test]
fn hidden_files_and_folders_are_not_pictures() {
    assert!(!is_image_path("/ws/.png"));
    assert!(is_image_path("/ws/pictures.png/"));
    assert!(is_image_path("/ws/pictures.png/x.gif"));
}

#[test]
fn file_uri_prefixes_the_path() {
    assert_eq!(file_uri("/ws/photo.png"), "file:///ws/photo.png");
    assert_eq!(file_uri(""), "file://");
}

fn names(list: &[&str]) -> Vec<String> {
    list.iter().map(|s| s.to_string()).collect()
}

#[test]
fn new_entries_never_take_a_name_that_exists() {
    let root = "/tmp/root";
    assert_eq!(unused_child(root, "new_file.txt", &names(&[])), "/tmp/root/new_file.txt");
    assert_eq!(
        unused_child(root, "new_file.txt", &names(&["new_file.txt"])),
        "/tmp/root/new_file_2.txt"
    );
    assert_eq!(
        unused_child(root, "new_file.txt", &names(&["new_file.txt", "new_file_2.txt"])),
        "/tmp/root/new_file_3.txt"
    );
    assert_eq!(
        unused_child(root, "new_folder", &names(&["new_file.txt", "new_file_2.txt", "new_folder"])),
        "/tmp/root/new_folder_2"
    );
}

#[test]
fn rename_targets_must_be_plain_free_names_in_the_same_folder() {
    let old = "/tmp/d/src/a.rs";
    assert!(is_rename_target(old, "/tmp/d/src/b.rs", false));
    assert!(!is_rename_target(old, "/tmp/d/src/taken.rs", true));
    assert!(!is_rename_target(old, "/tmp/d/src/nested/b.rs", false));
    assert!(!is_rename_target(old, "/tmp/d/b.rs", false));
    assert!(!is_rename_target(old, "/tmp/d/src/..", false));
}

#[test]
fn dotfiles_number_after_the_whole_name() {
    assert_eq!(unused_child("/r", ".env", &names(&[".env"])), "/r/.env_2");
    assert_eq!(unused_child("/r", "a.tar.gz", &names(&["a.tar.gz"])), "/r/a.tar_2.gz");
    assert_eq!(unused_child("/r/", "x", &names(&[])), "/r/x");
}

#[test]
fn paths_compare_and_split_by_component() {
    assert!(paths_equal("/a/b", "/a//b/"));
    assert!(paths_equal("/a/./b", "/a/b"));
    assert!(!paths_equal("/a/b", "a/b"));
    assert!(!paths_equal("/a/../b", "/b"));
    assert!(path_starts_with("/ws/src/a.rs", "/ws"));
    assert!(path_starts_with("/ws", "/ws/"));
    assert!(!path_starts_with("/wsx/a", "/ws"));
    assert_eq!(path_file_name("/ws/a.rs"), Some("a.rs".to_string()));
    assert_eq!(path_file_name("/ws/src/"), Some("src".to_string()));
    assert_eq!(path_file_name("/"), None);
    assert_eq!(path_file_name("/ws/.."), None);
    assert_eq!(path_extension("/ws/a.tar.gz"), Some("gz".to_string()));
    assert_eq!(path_extension("/ws/.bashrc"), None);
    assert_eq!(path_extension("/ws/Makefile"), None);
    assert!(same_parent("/ws/a", "/ws/b"));
    assert!(!same_parent("/ws/a", "/wx/a"));
    assert_eq!(path_join("/ws", "a.rs"), "/ws/a.rs");
}

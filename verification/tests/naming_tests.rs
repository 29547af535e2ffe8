use sortery::naming::{pick_fresh_name, split_extension};

#[test]
fn split_plain_name() {
    let (stem, ext) = split_extension("photo.jpg");
    assert_eq!(stem, "photo");
    assert_eq!(ext, "jpg");
}

#[test]
fn split_hidden_file_has_no_extension() {
    let (stem, ext) = split_extension(".bashrc");
    assert_eq!(stem, ".bashrc");
    assert_eq!(ext, "");
}

#[test]
fn split_takes_last_dot() {
    let (stem, ext) = split_extension("archive.tar.gz");
    assert_eq!(stem, "archive.tar");
    assert_eq!(ext, "gz");
}

#[test]
fn split_without_dot() {
    let (stem, ext) = split_extension("README");
    assert_eq!(stem, "README");
    assert_eq!(ext, "");
}

#[test]
fn split_trailing_dot_gives_empty_extension() {
    let (stem, ext) = split_extension("file.");
    assert_eq!(stem, "file");
    assert_eq!(ext, "");
}

#[test]
fn fresh_name_without_collision_is_plain() {
    let used: Vec<String> = Vec::new();
    assert_eq!(pick_fresh_name("base", "jpg", &used), Some("base.jpg".to_string()));
}

#[test]
fn fresh_name_counts_up_on_collision() {
    let used = vec!["base.jpg".to_string()];
    assert_eq!(pick_fresh_name("base", "jpg", &used), Some("base (1).jpg".to_string()));
    let used2 = vec!["base.jpg".to_string(), "base (1).jpg".to_string()];
    assert_eq!(pick_fresh_name("base", "jpg", &used2), Some("base (2).jpg".to_string()));
}

#[test]
fn fresh_name_without_extension() {
    let used = vec!["2024-01-01".to_string()];
    assert_eq!(pick_fresh_name("2024-01-01", "", &used), Some("2024-01-01 (1)".to_string()));
}

#[test]
fn fresh_name_gives_up_after_budget() {
    let mut used = vec!["b.jpg".to_string()];
    for n in 1..1000 {
        used.push(format!("b ({}).jpg", n));
    }
    assert_eq!(pick_fresh_name("b", "jpg", &used), None);
}

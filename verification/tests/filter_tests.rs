use sortery::config::{DateType, SortConfig};
use sortery::filter::should_process;

fn config_with(exclude: &str, only: &str) -> SortConfig {
    SortConfig::new(
        "source".to_string(),
        "target".to_string(),
        "%Y-%m-%d".to_string(),
        DateType::Modified,
        false,
        exclude,
        only,
    )
}

#[test]
fn only_type_decides_when_non_empty() {
    let cfg = config_with("png,jpg", "png");
    assert!(should_process("png", &cfg));
    assert!(!should_process("jpg", &cfg));
    assert!(!should_process("txt", &cfg));
}

#[test]
fn only_type_ignores_exclude_contents() {
    let a = config_with("png", "png");
    let b = config_with("", "png");
    for ext in ["png", "jpg", "txt", ""] {
        assert_eq!(should_process(ext, &a), should_process(ext, &b));
    }
}

#[test]
fn exclude_governs_when_only_empty() {
    let cfg = config_with("txt", "");
    assert!(!should_process("txt", &cfg));
    assert!(should_process("jpg", &cfg));
    assert!(should_process("", &cfg));
}

#[test]
fn candidate_extension_is_normalized_before_lookup() {
    let cfg = config_with("jpg", "");
    assert!(!should_process(".JPG ", &cfg));
    let cfg2 = config_with("", "jpg");
    assert!(should_process(".JPG ", &cfg2));
}

#[test]
fn empty_lists_let_everything_through() {
    let cfg = config_with("", "");
    assert!(should_process("anything", &cfg));
    assert!(should_process("", &cfg));
}

use sortery::text::{contains_token, normalize_extension, parse_type_list, render_dec};

#[test]
fn normalize_strips_dot_case_and_space() {
    assert_eq!(normalize_extension(" .JPG "), "jpg");
    assert_eq!(normalize_extension("png"), "png");
    assert_eq!(normalize_extension("..TXT"), "txt");
    assert_eq!(normalize_extension("\tTar.Gz\n"), "tar.gz");
    assert_eq!(normalize_extension(""), "");
    assert_eq!(normalize_extension(" . "), "");
}

#[test]
fn normalize_removes_all_unicode_whitespace() {
    assert_eq!(normalize_extension("\u{000B}jpg\u{000C}"), "jpg");
    assert_eq!(normalize_extension("\u{00A0}.PNG\u{2003}"), "png");
    assert_eq!(normalize_extension("\u{3000}t\u{2028}x\u{0085}t\u{205F}"), "txt");
}

#[test]
fn normalize_is_idempotent_on_samples() {
    for raw in [" .JPG ", "..TXT", "png", "", "A b C", ". . ."] {
        let once = normalize_extension(raw);
        let twice = normalize_extension(once.as_str());
        assert_eq!(once, twice);
    }
}

#[test]
fn parse_list_splits_trims_and_drops_empties() {
    let toks = parse_type_list("jpg, PNG,,  .txt ,");
    assert_eq!(toks, vec!["jpg".to_string(), "png".to_string(), "txt".to_string()]);
}

#[test]
fn parse_list_of_empty_text_is_empty() {
    assert_eq!(parse_type_list(""), Vec::<String>::new());
    assert_eq!(parse_type_list(" , ,"), Vec::<String>::new());
}

#[test]
fn render_dec_gives_plain_decimal() {
    assert_eq!(render_dec(0), "0");
    assert_eq!(render_dec(7), "7");
    assert_eq!(render_dec(42), "42");
    assert_eq!(render_dec(1000), "1000");
}

#[test]
fn contains_token_finds_exact_member() {
    let v = vec!["jpg".to_string(), "png".to_string()];
    assert!(contains_token(&v, &"png".to_string()));
    assert!(!contains_token(&v, &"txt".to_string()));
}

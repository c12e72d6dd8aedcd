use mdbook_classy::Classy;

#[test]
fn preprocessor_is_named_classy() {
    let pre = Classy::new();
    assert_eq!(pre.name(), "classy");
}

#[test]
fn supports_only_html_renderer() {
    let pre = Classy::new();
    assert!(pre.supports_renderer("html"));
    assert!(!pre.supports_renderer("markdown"));
    assert!(!pre.supports_renderer(""));
    assert!(!pre.supports_renderer("html5"));
}

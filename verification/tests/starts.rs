use anypath::remove_abs_start;
use anypath::Os;
use anypath::Start;

#[test]
fn start_form_detection() {
    assert!(matches!(Start::from("~"), Start::Home));
    assert!(matches!(Start::from("~/x"), Start::Home));
    assert!(matches!(Start::from("~\\x"), Start::Home));
    assert!(matches!(Start::from("."), Start::Current));
    assert!(matches!(Start::from("./x"), Start::Current));
    assert!(matches!(Start::from(".\\x"), Start::Current));
    assert!(matches!(Start::from("~x"), Start::NoPrefix));
    assert!(matches!(Start::from(".x"), Start::NoPrefix));
    assert!(matches!(Start::from("/x"), Start::NoPrefix));
    assert!(matches!(Start::from(""), Start::NoPrefix));
}

#[test]
fn remove_abs_start_consumes_one_trailing_separator() {
    assert_eq!(
        remove_abs_start("/home/u/docs", "/home/u", Os::Unix),
        Some("docs".to_string())
    );
    assert_eq!(remove_abs_start("/home/u", "/home/u", Os::Unix), Some("".to_string()));
    assert_eq!(remove_abs_start("/other", "/home/u", Os::Unix), None);
    // only the native separator is consumed after the matched prefix
    assert_eq!(
        remove_abs_start("/h\\x", "/h", Os::Unix),
        Some("\\x".to_string())
    );
    assert_eq!(remove_abs_start("/h\\x", "/h", Os::Windows), Some("x".to_string()));
}

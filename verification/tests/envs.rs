use anypath::contract_envs;
use anypath::expand_envs;
use anypath::Os;
use anypath::PathError;
use anypath::ResolutionContext;

fn ctx() -> ResolutionContext {
    let mut c = ResolutionContext::new("/home/u".to_string(), "/home/u/proj".to_string());
    c.set_var("MYVAR".to_string(), "v".to_string());
    c
}

#[test]
fn curly_reference_is_substituted() {
    let r = expand_envs("${MYVAR}/x", &ctx(), Os::Unix).unwrap();
    assert_eq!(r, "v/x");
}

#[test]
fn percent_reference_is_substituted() {
    let r = expand_envs("%MYVAR%/x", &ctx(), Os::Unix).unwrap();
    assert_eq!(r, "v/x");
    assert_eq!(expand_envs("/dir/%MYVAR%", &ctx(), Os::Unix).unwrap(), "/dir/v");
}

#[test]
fn undefined_variable_is_an_error() {
    let e = expand_envs("${OTHER}", &ctx(), Os::Unix).unwrap_err();
    match e {
        PathError::UndefinedEnvVar { name } => assert_eq!(name, "OTHER"),
        other => panic!("unexpected error: {:?}", other),
    }
}

#[test]
fn empty_key_is_an_error() {
    let e = expand_envs("${}", &ctx(), Os::Unix).unwrap_err();
    match e {
        PathError::EmptyEnvVar { path } => assert_eq!(path, "${}"),
        other => panic!("unexpected error: {:?}", other),
    }
    assert!(matches!(
        expand_envs("%%", &ctx(), Os::Unix),
        Err(PathError::EmptyEnvVar { .. })
    ));
}

#[test]
fn reference_not_at_segment_start_stays_literal() {
    assert_eq!(expand_envs("hi${MYVAR}", &ctx(), Os::Unix).unwrap(), "hi${MYVAR}");
}

#[test]
fn reference_with_trailing_text_stays_literal() {
    assert_eq!(expand_envs("${MYVAR}hi", &ctx(), Os::Unix).unwrap(), "${MYVAR}hi");
}

#[test]
fn illegal_name_character_aborts_accumulation() {
    assert_eq!(expand_envs("${MY-VAR}", &ctx(), Os::Unix).unwrap(), "${MY-VAR}");
    assert_eq!(expand_envs("%MY-VAR%", &ctx(), Os::Unix).unwrap(), "%MY-VAR%");
}

#[test]
fn unclosed_reference_stays_literal() {
    assert_eq!(expand_envs("${MYVAR", &ctx(), Os::Unix).unwrap(), "${MYVAR");
    assert_eq!(expand_envs("%MYVAR", &ctx(), Os::Unix).unwrap(), "%MYVAR");
}

#[test]
fn dollar_without_brace_stays_literal() {
    assert_eq!(expand_envs("$MYVAR", &ctx(), Os::Unix).unwrap(), "$MYVAR");
}

#[test]
fn current_dir_prefix_is_expanded() {
    assert_eq!(expand_envs("./x", &ctx(), Os::Unix).unwrap(), "/home/u/proj/x");
    assert_eq!(expand_envs(".", &ctx(), Os::Unix).unwrap(), "/home/u/proj/");
}

#[test]
fn home_dir_prefix_is_expanded() {
    assert_eq!(expand_envs("~/x", &ctx(), Os::Unix).unwrap(), "/home/u/x");
    assert_eq!(expand_envs("~", &ctx(), Os::Unix).unwrap(), "/home/u/");
}

#[test]
fn prefix_join_separator_rules() {
    // the remainder already starts with a separator: none is inserted
    let c = ResolutionContext::new("/h".to_string(), "/c".to_string());
    assert_eq!(expand_envs("~/x", &c, Os::Unix).unwrap(), "/h/x");
    assert_eq!(expand_envs("~\\x", &c, Os::Unix).unwrap(), "/h\\x");
    // the prefix already ends with one: none is inserted either, and both
    // separators survive until normalization drops the empty piece
    let c2 = ResolutionContext::new("/h/".to_string(), "/c/".to_string());
    assert_eq!(expand_envs("~", &c2, Os::Unix).unwrap(), "/h/");
    assert_eq!(expand_envs("~/x", &c2, Os::Unix).unwrap(), "/h//x");
}

#[test]
fn contraction_prefers_shorter_remainder() {
    let c = ctx();
    assert_eq!(
        contract_envs("/home/u/proj/x", &c, Os::Unix),
        (Some('.'), "x".to_string())
    );
    assert_eq!(
        contract_envs("/home/u/other", &c, Os::Unix),
        (Some('~'), "other".to_string())
    );
}

#[test]
fn contraction_tie_favors_cwd() {
    let c = ResolutionContext::new("/same".to_string(), "/same".to_string());
    assert_eq!(contract_envs("/same/x", &c, Os::Unix), (Some('.'), "x".to_string()));
}

#[test]
fn contraction_without_match_returns_path_unchanged() {
    let c = ctx();
    assert_eq!(contract_envs("/other/x", &c, Os::Unix), (None, "/other/x".to_string()));
}

#[test]
fn error_messages_embed_offending_text() {
    let e = expand_envs("${OTHER}", &ctx(), Os::Unix).unwrap_err();
    assert_eq!(e.message(), "environment variable is not defined: OTHER");
    let e2 = expand_envs("${}", &ctx(), Os::Unix).unwrap_err();
    assert_eq!(e2.message(), "empty environment variable in path: ${}");
}

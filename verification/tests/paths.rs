use anypath::str_ci_eq;
use anypath::AnyDir;
use anypath::Marker;
use anypath::Os;
use anypath::OsProfile;
use anypath::PathError;
use anypath::PathInner;
use anypath::ResolutionContext;
use anypath::StrValues;

fn ctx() -> ResolutionContext {
    ResolutionContext::new("/home/u".to_string(), "/home/u/proj".to_string())
}

fn seg_texts(p: &PathInner) -> Vec<String> {
    let mut out = Vec::new();
    let mut i = 0;
    while i < p.segment_count() {
        out.push(p.segment_at(i).to_string());
        i += 1;
    }
    out
}

#[test]
fn rooted_path_keeps_segments() {
    let p = PathInner::new("/dir1/dir2", &ctx(), OsProfile::unix()).unwrap();
    assert!(matches!(p.marker(), Marker::Rooted));
    assert_eq!(seg_texts(&p), vec!["dir1", "dir2"]);
    assert_eq!(p.native_string(), "/dir1/dir2");
    assert_eq!(p.debug_string(), "\"/dir1/dir2\"");
}

#[test]
fn relative_path_has_no_marker() {
    let p = PathInner::new("dir1//./dir2/", &ctx(), OsProfile::unix()).unwrap();
    assert!(matches!(p.marker(), Marker::NoMarker));
    assert_eq!(seg_texts(&p), vec!["dir1", "dir2"]);
    assert_eq!(p.native_string(), "dir1/dir2");
}

#[test]
fn home_prefix_resolves_to_absolute() {
    let p = PathInner::new("~/docs", &ctx(), OsProfile::unix()).unwrap();
    assert!(matches!(p.marker(), Marker::Rooted));
    assert_eq!(p.native_string(), "/home/u/docs");
}

#[test]
fn drive_letter_is_lowercased_and_kept_on_windows() {
    let p = PathInner::new("C:\\Tmp\\x", &ctx(), OsProfile::windows()).unwrap();
    assert!(matches!(p.marker(), Marker::Drive('c')));
    assert_eq!(p.native_string(), "c:\\Tmp\\x");
    assert_eq!(p.debug_string(), "\"c:/Tmp/x\"");
}

#[test]
fn drive_letter_is_dropped_on_unix() {
    let p = PathInner::new("c:/tmp/x", &ctx(), OsProfile::unix()).unwrap();
    assert!(matches!(p.marker(), Marker::Drive('c')));
    assert_eq!(p.native_string(), "/tmp/x");
}

#[test]
fn nul_and_colon_are_always_forbidden() {
    let e = PathInner::new("a\u{0}b", &ctx(), OsProfile::unix()).unwrap_err();
    assert!(matches!(e, PathError::ForbiddenChar { .. }));
    let e2 = PathInner::new("x/a:b", &ctx(), OsProfile::unix()).unwrap_err();
    match e2 {
        PathError::ForbiddenChar { component, ch } => {
            assert_eq!(component, "a:b");
            assert_eq!(ch, ':');
        }
        other => panic!("unexpected error: {:?}", other),
    }
}

#[test]
fn restricted_characters_allowed_on_plain_unix() {
    let p = PathInner::new("a?b/c<d", &ctx(), OsProfile::unix()).unwrap();
    assert_eq!(p.native_string(), "a?b/c<d");
}

#[test]
fn restricted_characters_rejected_in_strict_mode() {
    let strict = OsProfile { os: Os::Unix, strict: true };
    let e = PathInner::new("a?b", &ctx(), strict).unwrap_err();
    assert!(matches!(e, PathError::ForbiddenChar { .. }));
}

#[test]
fn reserved_names_rejected_on_windows() {
    let win = OsProfile::windows();
    for bad in ["CON", "con.txt", "Aux", "COM5", "lpt9.log", "NUL.a.b"] {
        let e = PathInner::new(bad, &ctx(), win).unwrap_err();
        assert!(matches!(e, PathError::ReservedName { .. }), "{bad}");
    }
    assert!(PathInner::new("CONS", &ctx(), win).is_ok());
    assert!(PathInner::new("COM", &ctx(), win).is_ok());
    assert!(PathInner::new("CON", &ctx(), OsProfile::unix()).is_ok());
}

#[test]
fn component_longer_than_255_is_rejected() {
    let long = "a".repeat(256);
    let e = PathInner::new(&long, &ctx(), OsProfile::unix()).unwrap_err();
    assert!(matches!(e, PathError::ComponentTooLong { .. }));
    let ok = "a".repeat(255);
    assert!(PathInner::new(&ok, &ctx(), OsProfile::unix()).is_ok());
}

#[test]
fn equality_is_case_insensitive_and_rendering_preserves_case() {
    let p1 = PathInner::new("/Dir/File", &ctx(), OsProfile::unix()).unwrap();
    let p2 = PathInner::new("/dir/file", &ctx(), OsProfile::unix()).unwrap();
    assert!(p1 == p2);
    let r1 = p1.native_string();
    let r2 = p2.native_string();
    assert_ne!(r1, r2);
    assert!(str_ci_eq(&r1, &r2));
}

#[test]
fn comparison_key_pairs_with_case_insensitive_equality() {
    let p1 = PathInner::new("/Dir/File", &ctx(), OsProfile::unix()).unwrap();
    let p2 = PathInner::new("/dir/file", &ctx(), OsProfile::unix()).unwrap();
    assert_eq!(p1.comparison_key(), p2.comparison_key());
    assert_eq!(p1.comparison_key(), "/dir/file");
    let p3 = PathInner::new("/dir/other", &ctx(), OsProfile::unix()).unwrap();
    assert_ne!(p1.comparison_key(), p3.comparison_key());
}

#[test]
fn different_paths_compare_unequal() {
    let p1 = PathInner::new("/a/b", &ctx(), OsProfile::unix()).unwrap();
    let p2 = PathInner::new("/a/c", &ctx(), OsProfile::unix()).unwrap();
    assert!(!(p1 == p2));
}

#[test]
fn shorthand_display_contracts_against_context() {
    let p = PathInner::new("/home/u/docs", &ctx(), OsProfile::unix()).unwrap();
    assert_eq!(p.shorthand_string(&ctx()), "~/docs");
    let q = PathInner::new("/home/u/proj/x", &ctx(), OsProfile::unix()).unwrap();
    assert_eq!(q.shorthand_string(&ctx()), "./x");
    let far = PathInner::new("/other/x", &ctx(), OsProfile::unix()).unwrap();
    assert_eq!(far.shorthand_string(&ctx()), "/other/x");
}

#[test]
fn round_trip_reproduces_marker_free_path() {
    let p = PathInner::new("dir1/dir2/dir3", &ctx(), OsProfile::unix()).unwrap();
    let rendered = p.native_string();
    let again = PathInner::new(&rendered, &ctx(), OsProfile::unix()).unwrap();
    assert!(matches!(again.marker(), Marker::NoMarker));
    assert_eq!(seg_texts(&p), seg_texts(&again));
    assert!(p == again);
}

#[test]
fn any_dir_accepts_any_canonical_path() {
    let d = AnyDir::new("./sub", &ctx(), OsProfile::unix()).unwrap();
    assert_eq!(d.0.native_string(), "/home/u/proj/sub");
    let e = AnyDir::new("${MISSING}", &ctx(), OsProfile::unix()).unwrap_err();
    assert!(matches!(e, PathError::UndefinedEnvVar { .. }));
}

#[test]
fn str_values_joins_and_counts() {
    let v: Vec<String> = vec!["a".to_string(), "b".to_string(), "c".to_string()];
    assert_eq!(v.string_count(), 3);
    assert_eq!(v.string_at(1), "b");
    assert_eq!(v.join_strings("/"), "a/b/c");

    let one = "hello".to_string();
    assert_eq!(one.string_count(), 1);
    assert_eq!(one.string_at(0), "hello");
    assert_eq!(one.join_strings("/"), "hello");

    let empty = String::new();
    assert_eq!(empty.string_count(), 0);
    assert_eq!(Vec::<String>::new().join_strings("/"), "");

    let s: &str = "x";
    assert_eq!(s.string_count(), 1);
    assert_eq!(s.string_at(0), "x");
    assert_eq!(s.join_strings("/"), "x");
    let e: &str = "";
    assert_eq!(e.string_count(), 0);
}

#[test]
fn validation_error_messages_embed_component() {
    let e = PathInner::new("x/a:b", &ctx(), OsProfile::unix()).unwrap_err();
    assert_eq!(e.message(), "forbidden character in path component: a:b");
    let e2 = PathInner::new("CON", &ctx(), OsProfile::windows()).unwrap_err();
    assert_eq!(e2.message(), "reserved file name in path component: CON");
}

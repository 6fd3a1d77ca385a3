use anypath::segs;
use anypath::InnerSegmentIter;

#[test]
fn test_path_iter() {
    assert_eq!(segs("./dir1//dir2/"), vec![".", "dir1", "dir2"]);
    assert_eq!(segs("./dir1/../dir2/"), vec![".", "dir2"]);
    assert_eq!(segs("./dir1/../../dir2/"), vec![".", "..", "dir2"]);
    assert_eq!(segs("./dir1/.."), vec!["."]);
    assert_eq!(segs(""), Vec::<&str>::new());
    assert_eq!(segs("s"), vec!["s"]);

    assert_eq!(segs(".\\"), vec!["."]);

    assert_eq!(segs("~/"), vec!["~"]);
}

#[test]
fn iterator_yields_has_more_flags() {
    let mut it = InnerSegmentIter::new("a/b/");
    assert_eq!(it.next(), Some(("a".to_string(), true)));
    assert_eq!(it.next(), Some(("b".to_string(), false)));
    assert_eq!(it.next(), None);
}

#[test]
fn iterator_cancels_adjacent_parent() {
    let mut it = InnerSegmentIter::new("a/b/..");
    assert_eq!(it.next(), Some(("a".to_string(), true)));
    assert_eq!(it.next(), None);
}

#[test]
fn unmatched_parent_survives() {
    assert_eq!(segs("../.."), vec!["..", ".."]);
    assert_eq!(segs("a/../.."), vec![".."]);
}

#[test]
fn empty_pieces_never_block_cancellation() {
    assert_eq!(segs("a//.."), Vec::<&str>::new());
    assert_eq!(segs("a//../b"), vec!["b"]);
    assert_eq!(segs("a/..//b"), vec!["b"]);
}

#[test]
fn exhausted_iterator_stays_exhausted() {
    let mut it = InnerSegmentIter::new("a/..");
    assert_eq!(it.next(), None);
    assert_eq!(it.next(), None);
}

#[test]
fn backslash_and_slash_both_split() {
    assert_eq!(segs("a\\b/c"), vec!["a", "b", "c"]);
}

#[test]
fn normalize_is_idempotent_on_normalized_input() {
    let first = segs("./dir1//dir2/../dir3");
    let joined = first.join("/");
    let second = segs(&joined);
    assert_eq!(first, second);
}

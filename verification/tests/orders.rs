use ebar::{Field, FieldBuf, SegmentBuf, ViewPathBuf};
use std::cmp::Ordering;

fn names() -> Vec<&'static str> {
    vec!["", "a", "A", "a b", "ab", "b", "_", "0a", "\u{e9}", "z\u{e9}", "\u{1F600}", "\u{7ff}", "\u{800}", "~", "\"a\"", "\"\""]
}

fn fields() -> Vec<FieldBuf> {
    let mut all = Vec::new();
    for name in names() {
        all.push(FieldBuf { name: name.to_string(), requires_quoting: false });
        all.push(FieldBuf { name: name.to_string(), requires_quoting: true });
    }
    all
}

fn segments() -> Vec<SegmentBuf> {
    let mut all = Vec::new();
    for field in fields().into_iter().take(8) {
        all.push(SegmentBuf::Field(field));
    }
    for index in [isize::MIN, -2, -1, 0, 1, 2, 10, isize::MAX] {
        all.push(SegmentBuf::Index(index));
    }
    all.push(SegmentBuf::Coalesce(vec![]));
    all.push(SegmentBuf::Coalesce(vec![FieldBuf::from("a")]));
    all.push(SegmentBuf::Coalesce(vec![FieldBuf::from("a"), FieldBuf::from("b")]));
    all.push(SegmentBuf::Coalesce(vec![FieldBuf::from("a"), FieldBuf::from("a b")]));
    all.push(SegmentBuf::Coalesce(vec![FieldBuf::from("b")]));
    all
}

fn paths() -> Vec<ViewPathBuf> {
    let mut all = vec![ViewPathBuf::root()];
    for text in ["a", "a.b", "a.b.c", "a[0]", "a[1]", "a[-1]", "[0]", "[0].a", "(a | b)", "(a | b).c", "(a)", "b", "\"a\"", "a.\"b\""] {
        all.push(ViewPathBuf::parse_str(text).unwrap());
    }
    all
}

#[test]
fn fields_are_ordered_by_name_and_then_by_flag() {
    let all = fields();
    for a in &all {
        for b in &all {
            let expected = a.name.cmp(&b.name).then(a.requires_quoting.cmp(&b.requires_quoting));
            assert_eq!(a.partial_cmp(b), Some(expected), "{:?} {:?}", a, b);
            assert_eq!(a.cmp(b), expected);
            assert_eq!(a.as_field().partial_cmp(&b.as_field()), Some(expected));
            assert_eq!(a.as_field().cmp(&b.as_field()), expected);
            assert_eq!(a == b, expected == Ordering::Equal);
            assert_eq!(a < b, expected == Ordering::Less);
        }
    }
    assert!(Field::from("a") < Field::from("b"));
    assert!(Field::from("a") < Field::from("\"a\""));
    assert!(Field::from("ab") > Field::from("a"));
}

#[test]
fn segments_are_ordered_by_kind_and_then_by_what_they_hold() {
    let all = segments();
    for a in &all {
        for b in &all {
            assert_eq!(a.partial_cmp(b), Some(a.cmp(b)), "{:?} {:?}", a, b);
            assert_eq!(a.as_segment().partial_cmp(&b.as_segment()), Some(a.cmp(b)));
            assert_eq!(a.as_segment().cmp(&b.as_segment()), a.cmp(b));
            assert_eq!(a == b, a.cmp(b) == Ordering::Equal);
        }
    }
    assert!(SegmentBuf::from("z") < SegmentBuf::Index(isize::MIN));
    assert!(SegmentBuf::Index(isize::MAX) < SegmentBuf::Coalesce(vec![]));
    assert!(SegmentBuf::Index(-1) < SegmentBuf::Index(0));
    assert!(SegmentBuf::Coalesce(vec![FieldBuf::from("a")])
        < SegmentBuf::Coalesce(vec![FieldBuf::from("a"), FieldBuf::from("a")]));
}

#[test]
fn paths_are_ordered_segment_by_segment() {
    let all = paths();
    for a in &all {
        for b in &all {
            assert_eq!(a.partial_cmp(b), Some(a.cmp(b)), "{} {}", a.to_string(), b.to_string());
            assert_eq!(a.as_view_path().partial_cmp(&b.as_view_path()), Some(a.cmp(b)));
            assert_eq!(a.as_view_path().cmp(&b.as_view_path()), a.cmp(b));
            assert_eq!(a == b, a.cmp(b) == Ordering::Equal);
        }
    }
    assert!(ViewPathBuf::root() < ViewPathBuf::from("a"));
    assert!(ViewPathBuf::parse_str("a").unwrap() < ViewPathBuf::parse_str("a.b").unwrap());
    assert!(ViewPathBuf::parse_str("a.b").unwrap() < ViewPathBuf::parse_str("a[0]").unwrap());
    assert!(ViewPathBuf::parse_str("a[0]").unwrap() < ViewPathBuf::parse_str("a.(b)").unwrap());
}

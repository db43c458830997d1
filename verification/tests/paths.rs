use ebar::field::is_valid_field_name;
use ebar::parser::{parse_segments, parse_view_path};
use ebar::syntax::SyntaxFault;
use ebar::{Error, Field, FieldBuf, Segment, SegmentBuf, ViewPath, ViewPathBuf};
use std::collections::VecDeque;

fn field(name: &str) -> Segment<'_> {
    Segment::Field(Field { name, requires_quoting: false })
}

fn segments_of(path: &ViewPathBuf) -> Vec<SegmentBuf> {
    path.iter().cloned().collect()
}

fn fault_of(text: &str) -> String {
    match ViewPathBuf::parse_str(text) {
        Ok(path) => panic!("{} is read as {:?}", text, path),
        Err(Error::InvalidPath(reason)) => reason,
    }
}

#[test]
fn test_parse_str() {
    let mut view_path = ViewPathBuf::parse_str("a.b.c.d[0]").unwrap();
    let a = view_path.pop_front().unwrap();
    assert_eq!(a.to_string(), "a".to_string());
    let b = view_path.pop_front().unwrap();
    assert_eq!(b.to_string(), "b".to_string());
    let c = view_path.pop_front().unwrap();
    assert_eq!(c.to_string(), "c".to_string());
    let d = view_path.pop_front().unwrap();
    assert_eq!(d.to_string(), "d".to_string());
    let e = view_path.pop_front().unwrap();
    assert_eq!(true, e.is_index());
}

#[test]
fn fields_and_indexes_parse_and_print_alike() {
    let path = ViewPath::parse_str("a.b[0].c").unwrap();
    let mut expected = ViewPath::root();
    expected.push_back(field("a"));
    expected.push_back(field("b"));
    expected.push_back(Segment::Index(0));
    expected.push_back(field("c"));
    assert_eq!(path, expected);
    assert_eq!(path.to_string(), "a.b[0].c");
}

#[test]
fn alternatives_parse_with_and_without_spaces() {
    let path = ViewPathBuf::parse_str("(a|b).c").unwrap();
    let expected = vec![
        SegmentBuf::Coalesce(vec![FieldBuf::from("a"), FieldBuf::from("b")]),
        SegmentBuf::Field(FieldBuf::from("c")),
    ];
    assert_eq!(segments_of(&path), expected);
    assert_eq!(path.to_string(), "(a | b).c");
    assert_eq!(ViewPathBuf::parse_str("(a | b).c").unwrap(), path);
    assert_eq!(ViewPathBuf::parse_str("(  a  |b  ).c").unwrap(), path);
    let one = ViewPathBuf::parse_str("(a)").unwrap();
    assert_eq!(segments_of(&one), vec![SegmentBuf::Coalesce(vec![FieldBuf::from("a")])]);
    assert_eq!(one.to_string(), "(a)");
}

#[test]
fn printing_follows_the_next_segment() {
    for text in [
        "",
        "a",
        "a.b",
        "a[0][1]",
        "[0]",
        "[0].a",
        "[-12][7]",
        "(a | b).c",
        "(a | \"b c\" | d)[3].e",
        "\"a b\".c",
        "a.\"b.c\"[1]",
        "\"\"",
        "\"a\\\"b\".c",
        "1a._b.c2",
    ] {
        let path = ViewPathBuf::parse_str(text).unwrap();
        assert_eq!(path.to_string(), text);
        assert_eq!(path.as_view_path().to_string(), text);
        assert_eq!(ViewPathBuf::parse_str(&path.to_string()).unwrap(), path);
    }
}

#[test]
fn freer_texts_print_in_the_one_form() {
    for (text, printed) in [
        (".a", "a"),
        ("a\"b\"", "a.\"b\""),
        ("a(b|c)", "a.(b | c)"),
        ("(a)(b)", "(a).(b)"),
        ("[007]", "[7]"),
        ("[-0]", "[0]"),
        ("a.[0]x", ""),
    ] {
        match ViewPathBuf::parse_str(text) {
            Ok(path) => {
                assert_eq!(path.to_string(), printed);
                assert_eq!(ViewPathBuf::parse_str(printed).unwrap(), path);
            }
            Err(_) => assert_eq!(printed, ""),
        }
    }
}

#[test]
fn quoted_names_keep_what_lies_between_the_quotes() {
    let path = ViewPath::parse_str("\"a.b\".\"c[0]\"").unwrap();
    assert_eq!(path.get(0).unwrap().to_string(), "\"a.b\"");
    match path.get(1).unwrap() {
        Segment::Field(field) => {
            assert_eq!(field.name, "c[0]");
            assert!(field.requires_quoting);
        }
        other => panic!("{:?}", other),
    }
    assert!(path.get(2).is_none());
}

#[test]
fn each_fault_has_its_message() {
    assert_eq!(fault_of("a..b"), "malformed field name");
    assert_eq!(fault_of("a."), "malformed field name");
    assert_eq!(fault_of("123"), "malformed field name");
    assert_eq!(fault_of("a b"), "malformed field name");
    assert_eq!(fault_of("a.[0]"), "malformed field name");
    assert_eq!(fault_of("()"), "malformed field name");
    assert_eq!(fault_of("\"abc"), "unterminated quote");
    assert_eq!(fault_of("\"abc\\\""), "unterminated quote");
    assert_eq!(fault_of("a[0"), "unterminated bracket");
    assert_eq!(fault_of("a[]"), "invalid index");
    assert_eq!(fault_of("a[x]"), "invalid index");
    assert_eq!(fault_of("a[+1]"), "invalid index");
    assert_eq!(fault_of("a[ 1]"), "invalid index");
    assert_eq!(fault_of("a[-]"), "invalid index");
    assert_eq!(fault_of("a[99999999999999999999999999999999]"), "invalid index");
    assert_eq!(fault_of("(a b)"), "malformed coalesce");
    assert_eq!(fault_of("(a"), "unterminated coalesce");
    assert_eq!(fault_of("(a|"), "unterminated coalesce");
    assert_eq!(fault_of("("), "unterminated coalesce");
    assert_eq!(
        ViewPath::parse_str("a..b").unwrap_err().to_string(),
        "invalid path malformed field name"
    );
    assert_eq!(parse_view_path("a[0").unwrap_err(), "unterminated bracket");
    let parsed: Result<ViewPathBuf, Error> = "a[0".parse();
    assert!(parsed.is_err());
}

#[test]
fn the_widest_indexes_are_read() {
    let most = format!("[{}]", isize::MAX);
    let least = format!("[{}]", isize::MIN);
    let path = ViewPathBuf::parse_str(&most).unwrap();
    assert_eq!(segments_of(&path), vec![SegmentBuf::Index(isize::MAX)]);
    assert_eq!(path.to_string(), most);
    let path = ViewPathBuf::parse_str(&least).unwrap();
    assert_eq!(segments_of(&path), vec![SegmentBuf::Index(isize::MIN)]);
    assert_eq!(path.to_string(), least);
    let beyond = format!("[{}0]", isize::MAX);
    assert_eq!(fault_of(&beyond), "invalid index");
    let one_more = format!("[{}]", (isize::MAX as u128) + 1);
    assert_eq!(fault_of(&one_more), "invalid index");
    let one_less = format!("[-{}]", (isize::MAX as u128) + 2);
    assert_eq!(fault_of(&one_less), "invalid index");
    assert_eq!(SegmentBuf::Index(-120).to_string(), "-120");
    assert_eq!(Segment::Index(0).to_string(), "0");
    assert_eq!(Segment::Index(1005).to_string(), "1005");
}

#[test]
fn a_path_is_a_deque() {
    let mut path = ViewPath::root();
    assert!(path.is_root());
    assert_eq!(path.to_string(), "");
    assert_eq!(path.pop_back(), None);
    assert_eq!(path.pop_front(), None);
    path.push_back(field("b"));
    path.push_front(field("a"));
    path.push_back(Segment::Index(3));
    assert!(!path.is_root());
    assert_eq!(path.len(), 3);
    assert_eq!(path.to_string(), "a.b[3]");
    let mut more = ViewPath::root();
    more.push_back(Segment::Coalesce(vec![Field::from("x"), Field::from("y z")]));
    more.push_back(Segment::Index(-1));
    path.extend(more);
    assert_eq!(path.to_string(), "a.b[3].(x | \"y z\")[-1]");
    assert_eq!(path.pop_back(), Some(Segment::Index(-1)));
    assert_eq!(path.pop_front(), Some(field("a")));
    assert_eq!(path.to_string(), "b[3].(x | \"y z\")");
    assert_eq!(path.get(1), Some(&Segment::Index(3)));
    assert_eq!(path.get(3), None);
    let shown: Vec<String> = path.iter().map(|segment| segment.to_string()).collect();
    assert_eq!(shown, vec!["b", "3", "(x | \"y z\")"]);
}

#[test]
fn a_segment_is_changed_in_place() {
    let mut path = ViewPathBuf::parse_str("a.b.c").unwrap();
    *path.get_mut(1).unwrap() = SegmentBuf::Index(4);
    assert_eq!(path.to_string(), "a[4].c");
    assert!(path.get_mut(3).is_none());
    assert_eq!(path.to_string(), "a[4].c");
    let mut borrowed = ViewPath::parse_str("a.b").unwrap();
    *borrowed.get_mut(0).unwrap() = Segment::from("x y");
    assert_eq!(borrowed.to_string(), "\"x y\".b");
    assert!(borrowed.get_mut(2).is_none());
}

#[test]
fn starts_with_asks_for_every_segment_of_the_needle() {
    let path = ViewPathBuf::parse_str("a.b[1]").unwrap();
    assert!(path.starts_with(&ViewPathBuf::root()));
    assert!(path.starts_with(&ViewPathBuf::parse_str("a").unwrap()));
    assert!(path.starts_with(&ViewPathBuf::parse_str("a.b").unwrap()));
    assert!(path.starts_with(&path));
    assert!(!path.starts_with(&ViewPathBuf::parse_str("b").unwrap()));
    assert!(!path.starts_with(&ViewPathBuf::parse_str("a.b[2]").unwrap()));
    assert!(!path.starts_with(&ViewPathBuf::parse_str("a.\"b\"").unwrap()));
    assert!(!path.starts_with(&ViewPathBuf::parse_str("a.b[1].c").unwrap()));
    assert!(!path.starts_with(&ViewPathBuf::parse_str("a.b[1][0]").unwrap()));
    assert!(ViewPathBuf::root().starts_with(&ViewPathBuf::root()));
    assert!(!ViewPathBuf::root().starts_with(&ViewPathBuf::parse_str("a").unwrap()));
    let short = ViewPath::parse_str("a").unwrap();
    let needle = ViewPath::parse_str("a.b").unwrap();
    assert!(!short.starts_with(&needle));
    assert!(needle.starts_with(&short));
    let borrowed = path.as_view_path();
    assert!(borrowed.starts_with(&ViewPath::parse_str("a.b").unwrap()));
    assert!(!borrowed.starts_with(&ViewPath::parse_str("a.c").unwrap()));
    assert!(!borrowed.starts_with(&ViewPath::parse_str("a.b[1].c").unwrap()));
    assert!(!borrowed.starts_with(&ViewPath::parse_str("(a).b").unwrap()));
}

#[test]
fn segments_say_what_they_are() {
    let f = Segment::field(Field::from("a"));
    let i = Segment::index(2);
    let c = Segment::coalesce(vec![Field::from("a")]);
    assert!(f.is_field() && !f.is_index() && !f.is_coalesce());
    assert!(!i.is_field() && i.is_index() && !i.is_coalesce());
    assert!(!c.is_field() && !c.is_index() && c.is_coalesce());
    let f = SegmentBuf::field(FieldBuf::from("a"));
    let i = SegmentBuf::index(2);
    let c = SegmentBuf::coalesce(vec![FieldBuf::from("a")]);
    assert!(f.is_field() && !f.is_index() && !f.is_coalesce());
    assert!(!i.is_field() && i.is_index() && !i.is_coalesce());
    assert!(!c.is_field() && !c.is_index() && c.is_coalesce());
    assert_eq!(c.to_string(), "(a)");
    assert_eq!(c.as_segment().to_segment_buf(), c);
    assert_eq!(SegmentBuf::from(Segment::from(7)), SegmentBuf::Index(7));
    assert_eq!(i.as_segment().to_segment_buf(), i);
    assert_eq!(Segment::from(&f), Segment::from("a"));
    assert_eq!(SegmentBuf::from(String::from("a b")).to_string(), "\"a b\"");
    assert_eq!(Segment::from(vec![Field::from("x")]).to_string(), "(x)");
    assert_eq!(SegmentBuf::from(vec![FieldBuf::from("x"), FieldBuf::from("y")]).to_string(), "(x | y)");
}

#[test]
fn paths_are_made_from_their_parts() {
    assert_eq!(ViewPath::from("a").to_string(), "a");
    assert_eq!(ViewPath::from("a b").to_string(), "\"a b\"");
    assert_eq!(ViewPath::from(3).to_string(), "[3]");
    let text = String::from("x");
    assert_eq!(ViewPath::from(&text).to_string(), "x");
    assert_eq!(ViewPath::from(Segment::Index(1)).to_string(), "[1]");
    assert_eq!(ViewPath::from(Field::from("q")).to_string(), "q");
    let mut deque = VecDeque::new();
    deque.push_back(Segment::from("a"));
    deque.push_back(Segment::from(1));
    assert_eq!(ViewPath::from(deque).to_string(), "a[1]");
    let owned = ViewPathBuf::parse_str("a.(b | c)[2]").unwrap();
    assert_eq!(ViewPath::from(&owned).to_string(), "a.(b | c)[2]");
    assert_eq!(ViewPath::from(&owned).into_buf(), owned);
    let parts = vec![SegmentBuf::from("a"), SegmentBuf::from(2)];
    assert_eq!(ViewPath::from(parts.as_slice()).to_string(), "a[2]");
    let parts: VecDeque<SegmentBuf> = parts.into_iter().collect();
    assert_eq!(ViewPath::from(&parts).to_string(), "a[2]");
    assert_eq!(ViewPathBuf::from(parts).to_string(), "a[2]");
    assert_eq!(ViewPathBuf::from(String::from("a")).to_string(), "a");
    assert_eq!(ViewPathBuf::from("\"a\"").to_string(), "\"a\"");
    assert_eq!(ViewPathBuf::from(std::borrow::Cow::Borrowed("a.b")).to_string(), "\"a.b\"");
    assert_eq!(ViewPathBuf::from(SegmentBuf::Index(5)).to_string(), "[5]");
    assert_eq!(ViewPathBuf::from(-5).to_string(), "[-5]");
    assert_eq!(ViewPathBuf::from(FieldBuf::from("f")).to_string(), "f");
    assert_eq!(ViewPathBuf::from(ViewPath::parse_str("a[0]").unwrap()).to_string(), "a[0]");
}

#[test]
fn a_path_is_indexed_and_copied() {
    let path = ViewPathBuf::parse_str("a[3].(b | c)").unwrap();
    assert_eq!(path[0], SegmentBuf::from("a"));
    assert_eq!(path[1], SegmentBuf::Index(3));
    assert!(path[2].is_coalesce());
    let copy = path.clone();
    assert_eq!(copy, path);
    assert_eq!(copy.to_string(), "a[3].(b | c)");
    let borrowed = path.as_view_path();
    assert_eq!(borrowed[1], Segment::Index(3));
    assert_eq!(borrowed.clone(), borrowed);
    assert_eq!(borrowed.as_ref(), &borrowed);
    assert_eq!(path[2].clone(), path[2]);
    assert_ne!(path[0], path[1]);
    assert_ne!(ViewPathBuf::parse_str("a").unwrap(), ViewPathBuf::parse_str("a.b").unwrap());
    assert_ne!(ViewPathBuf::parse_str("a.c").unwrap(), ViewPathBuf::parse_str("a.b").unwrap());
    assert_ne!(ViewPathBuf::parse_str("(a|c)").unwrap(), ViewPathBuf::parse_str("(a|b)").unwrap());
    assert_ne!(ViewPathBuf::parse_str("(a)").unwrap(), ViewPathBuf::parse_str("(a|b)").unwrap());
    assert_ne!(ViewPathBuf::parse_str("a").unwrap(), ViewPathBuf::parse_str("\"a\"").unwrap());
}

#[test]
fn faults_are_told_apart() {
    assert_eq!(parse_segments("a.").unwrap_err(), SyntaxFault::MalformedField);
    assert_eq!(parse_segments("\"a").unwrap_err(), SyntaxFault::UnterminatedQuote);
    assert_eq!(parse_segments("[1").unwrap_err(), SyntaxFault::UnterminatedBracket);
    assert_eq!(parse_segments("[a]").unwrap_err(), SyntaxFault::InvalidIndex);
    assert_eq!(parse_segments("(a.b)").unwrap_err(), SyntaxFault::MalformedCoalesce);
    assert_eq!(parse_segments("(a |").unwrap_err(), SyntaxFault::UnterminatedCoalesce);
    assert_eq!(parse_segments("(\"a").unwrap_err(), SyntaxFault::UnterminatedQuote);
    assert_eq!(parse_segments("a.b[0]x y").unwrap_err(), SyntaxFault::MalformedField);
    assert!(parse_segments("").unwrap().is_root());
    assert_eq!(
        Error::InvalidPath("unterminated quote".to_string()).to_string(),
        "invalid path unterminated quote"
    );
}

#[test]
fn names_that_can_stand_bare() {
    for name in ["a", "_", "a1", "1a", "007_x", "Z", "a_b_c", "__", "9z9"] {
        assert!(is_valid_field_name(name), "{}", name);
    }
    for name in ["", "1", "0123", "a b", "a-b", "a.b", "\"a\"", "\u{e9}", "a\u{e9}", " a", "a "] {
        assert!(!is_valid_field_name(name), "{}", name);
    }
}

#[test]
fn a_path_hands_its_segments_out() {
    let path = ViewPathBuf::parse_str("a[1].b").unwrap();
    let shown: Vec<String> = path.clone().into_iter().map(|segment| segment.to_string()).collect();
    assert_eq!(shown, vec!["a", "1", "b"]);
    let mut count = 0;
    for segment in path.as_view_path() {
        assert_eq!(segment, path[count].as_segment());
        count += 1;
    }
    assert_eq!(count, 3);
    assert_eq!(ViewPathBuf::root().into_iter().count(), 0);
}

#[test]
fn a_segment_is_assigned_by_position() {
    let mut path = ViewPathBuf::parse_str("a.b.c").unwrap();
    path[1] = SegmentBuf::Index(4);
    assert_eq!(path.to_string(), "a[4].c");
    path[0] = SegmentBuf::from("x y");
    path[2] = SegmentBuf::coalesce(vec![FieldBuf::from("p"), FieldBuf::from("q")]);
    assert_eq!(path.to_string(), "\"x y\"[4].(p | q)");
    assert_eq!(path.len(), 3);
    let mut borrowed = ViewPath::parse_str("a[0]").unwrap();
    borrowed[1] = Segment::from("b");
    assert_eq!(borrowed.to_string(), "a.b");
    assert_eq!(borrowed[0], Segment::from("a"));
}

use ebar::{
    nest_find_by, nest_find_regex, nest_find_value, search_path, search_segment, Field, Segment,
    Value, ViewPath, ViewPathBuf,
};
use regex::Regex;
use std::collections::BTreeSet;

fn number(text: &str) -> Value {
    Value::Number(text.to_string())
}

fn string(text: &str) -> Value {
    Value::String(text.to_string())
}

fn object(members: Vec<(&str, Value)>) -> Value {
    Value::Object(members.into_iter().map(|(name, value)| (name.to_string(), value)).collect())
}

fn resolve<'a>(document: &'a Value, path: &'a str) -> Option<&'a Value> {
    search_path(document, ViewPath::parse_str(path).unwrap())
}

fn printed(paths: &[ViewPathBuf]) -> Vec<String> {
    paths.iter().map(|path| path.to_string()).collect()
}

#[test]
fn a_path_leads_to_its_value() {
    let document = object(vec![(
        "a",
        object(vec![("b", Value::Array(vec![number("1"), number("2"), number("3")]))]),
    )]);
    assert_eq!(resolve(&document, "a.b[1]"), Some(&number("2")));
    assert_eq!(resolve(&document, "a.b[0]"), Some(&number("1")));
    assert_eq!(resolve(&document, "a.b[2]"), Some(&number("3")));
    assert_eq!(resolve(&document, "a.b[3]"), None);
    assert_eq!(resolve(&document, "a.b[5]"), None);
    assert_eq!(resolve(&document, "a.x"), None);
    assert_eq!(resolve(&document, "a.b.c"), None);
    assert_eq!(resolve(&document, "a[0]"), None);
    assert_eq!(resolve(&document, "[0]"), None);
    assert_eq!(resolve(&document, ""), Some(&document));
    assert_eq!(resolve(&document, "a.b[1].c"), None);
    assert_eq!(resolve(&document, "a.b[1][0]"), None);
}

#[test]
fn the_first_alternative_that_is_there_wins() {
    let only_y = object(vec![("y", number("7"))]);
    assert_eq!(resolve(&only_y, "(x|y)"), Some(&number("7")));
    let both = object(vec![("x", number("1")), ("y", number("2"))]);
    assert_eq!(resolve(&both, "(x|y)"), Some(&number("1")));
    assert_eq!(resolve(&both, "(y|x)"), Some(&number("2")));
    assert_eq!(resolve(&both, "(a|b)"), None);
    assert_eq!(resolve(&Value::Array(vec![number("1")]), "(x|y)"), None);
    assert_eq!(resolve(&number("1"), "(x|y)"), None);
}

#[test]
fn an_index_below_zero_leads_nowhere() {
    let document = object(vec![("a", Value::Array(vec![number("1"), number("2")]))]);
    assert!(ViewPath::parse_str("a[-1]").is_ok());
    assert_eq!(resolve(&document, "a[-1]"), None);
    assert_eq!(resolve(&document, "a[-2]"), None);
    let array = Value::Array(vec![number("1"), number("2")]);
    assert_eq!(search_segment(&array, Segment::Index(-1)), None);
    assert_eq!(search_segment(&array, Segment::Index(isize::MIN)), None);
    assert_eq!(search_segment(&array, Segment::Index(1)), Some(&number("2")));
    assert_eq!(search_segment(&array, Segment::Index(2)), None);
    assert_eq!(search_segment(&array, Segment::Index(isize::MAX)), None);
    assert_eq!(search_segment(&Value::Array(vec![]), Segment::Index(0)), None);
}

#[test]
fn quoted_names_find_members_by_what_lies_between_the_quotes() {
    let document = object(vec![("a b", number("1")), ("c", Value::Null)]);
    assert_eq!(resolve(&document, "\"a b\""), Some(&number("1")));
    assert_eq!(resolve(&document, "\"c\""), Some(&Value::Null));
    assert_eq!(resolve(&document, "c"), Some(&Value::Null));
    assert_eq!(search_segment(&document, Segment::Field(Field::from("a b"))), Some(&number("1")));
    assert_eq!(search_segment(&document, Segment::Field(Field::from("a"))), None);
    assert_eq!(search_segment(&string("a"), Segment::Field(Field::from("a"))), None);
}

#[test]
fn the_first_member_of_a_name_is_the_one_found() {
    let document = object(vec![("a", number("1")), ("a", number("2"))]);
    assert_eq!(resolve(&document, "a"), Some(&number("1")));
}

#[test]
fn values_are_found_by_their_text() {
    let document = object(vec![(
        "a",
        Value::Array(vec![number("1"), object(vec![("b", number("1"))])]),
    )]);
    let found = nest_find_value(&document, "1").unwrap();
    let paths: BTreeSet<String> = printed(&found).into_iter().collect();
    let expected: BTreeSet<String> =
        ["a[0]", "a[1].b"].iter().map(|path| path.to_string()).collect();
    assert_eq!(paths, expected);
    assert_eq!(printed(&found), vec!["a[0]", "a[1].b"]);
    for path in &found {
        assert_eq!(search_path(&document, path.as_view_path()), Some(&number("1")));
    }
    assert_eq!(nest_find_value(&document, "2"), None);
    assert_eq!(nest_find_value(&document, ""), None);
}

#[test]
fn scalars_match_by_their_canonical_text() {
    let document = Value::Array(vec![
        Value::Bool(true),
        Value::Bool(false),
        string("true"),
        number("1.5"),
        string("1.5"),
        Value::Null,
        string("null"),
        string(""),
        Value::Array(vec![]),
        object(vec![]),
    ]);
    assert_eq!(printed(&nest_find_value(&document, "true").unwrap()), vec!["[0]", "[2]"]);
    assert_eq!(printed(&nest_find_value(&document, "false").unwrap()), vec!["[1]"]);
    assert_eq!(printed(&nest_find_value(&document, "1.5").unwrap()), vec!["[3]", "[4]"]);
    assert_eq!(printed(&nest_find_value(&document, "null").unwrap()), vec!["[6]"]);
    assert_eq!(printed(&nest_find_value(&document, "").unwrap()), vec!["[7]"]);
    assert_eq!(nest_find_value(&document, "\"true\""), None);
    assert_eq!(nest_find_value(&Value::Null, "null"), None);
    assert_eq!(printed(&nest_find_value(&string("x"), "x").unwrap()), vec![""]);
    assert_eq!(nest_find_value(&Value::Array(vec![]), "x"), None);
    assert_eq!(nest_find_value(&object(vec![]), "x"), None);
}

#[test]
fn patterns_match_anywhere_in_the_text() {
    let document = object(vec![("a", string("hello")), ("b", string("yellow"))]);
    let found = nest_find_regex(&document, Regex::new("l+o").unwrap()).unwrap();
    let paths: Vec<String> = found.iter().map(|(path, _)| path.to_string()).collect();
    assert_eq!(paths, vec!["a", "b"]);
    assert_eq!(found[0].1, &string("hello"));
    assert_eq!(found[1].1, &string("yellow"));
    let found = nest_find_regex(&document, Regex::new("^h").unwrap()).unwrap();
    assert_eq!(found.len(), 1);
    assert_eq!(found[0].0.to_string(), "a");
    assert_eq!(found[0].1, &string("hello"));
    assert!(nest_find_regex(&document, Regex::new("^l+o$").unwrap()).is_none());
    assert!(nest_find_regex(&document, Regex::new("z").unwrap()).is_none());
}

#[test]
fn patterns_see_booleans_and_numbers_as_text() {
    let document = object(vec![
        ("flag", Value::Bool(true)),
        ("count", number("120")),
        ("none", Value::Null),
        ("list", Value::Array(vec![number("12"), number("3"), Value::Bool(false)])),
    ]);
    let found = nest_find_regex(&document, Regex::new("^12").unwrap()).unwrap();
    let paths: Vec<String> = found.iter().map(|(path, _)| path.to_string()).collect();
    assert_eq!(paths, vec!["count", "list[0]"]);
    let found = nest_find_regex(&document, Regex::new("^(tru|fals)e$").unwrap()).unwrap();
    let paths: Vec<String> = found.iter().map(|(path, _)| path.to_string()).collect();
    assert_eq!(paths, vec!["flag", "list[2]"]);
    assert!(nest_find_regex(&document, Regex::new("null").unwrap()).is_none());
}

#[test]
fn a_predicate_picks_the_scalars() {
    let document = object(vec![
        ("a", Value::Array(vec![string("x"), Value::Array(vec![string("y"), Value::Null])])),
        ("b c", object(vec![("d", Value::Bool(true))])),
        ("\"q\"", string("z")),
    ]);
    let all = nest_find_by(&document, |_| true).unwrap();
    let paths: Vec<String> = all.iter().map(|(path, _)| path.to_string()).collect();
    assert_eq!(paths, vec!["a[0]", "a[1][0]", "\"b c\".d", "\"q\""]);
    assert_eq!(all[2].1, &Value::Bool(true));
    assert!(nest_find_by(&document, |_| false).is_none());
    let strings = nest_find_by(&document, |value| matches!(value, Value::String(_))).unwrap();
    assert_eq!(strings.len(), 3);
    let seen = std::cell::Cell::new(0);
    let counted = nest_find_by(&document, |_| {
        seen.set(seen.get() + 1);
        false
    });
    assert!(counted.is_none());
    assert_eq!(seen.get(), 4);
    assert_eq!(nest_find_by(&Value::Null, |_| true), None);
    let root = nest_find_by(&Value::Bool(false), |_| true).unwrap();
    assert_eq!(root.len(), 1);
    assert!(root[0].0.is_root());
}

#[test]
fn documents_are_compared_and_copied_by_what_they_hold() {
    let document = object(vec![
        ("a", Value::Array(vec![number("1"), Value::Null, Value::Bool(true)])),
        ("b", object(vec![("c", string("x"))])),
    ]);
    let copy = document.clone();
    assert_eq!(copy, document);
    assert_ne!(document, Value::Null);
    assert_ne!(number("1"), string("1"));
    assert_ne!(number("1"), number("2"));
    assert_ne!(Value::Bool(true), Value::Bool(false));
    assert_ne!(Value::Array(vec![number("1")]), Value::Array(vec![number("1"), number("1")]));
    assert_ne!(Value::Array(vec![number("1")]), Value::Array(vec![number("2")]));
    assert_ne!(object(vec![("a", number("1"))]), object(vec![("b", number("1"))]));
    assert_ne!(object(vec![("a", number("1"))]), object(vec![("a", number("2"))]));
    assert_ne!(object(vec![]), Value::Array(vec![]));
    assert_eq!(Value::Bool(true).text(), Some("true"));
    assert_eq!(Value::Bool(false).text(), Some("false"));
    assert_eq!(number("-1.5e3").text(), Some("-1.5e3"));
    assert_eq!(string("").text(), Some(""));
    assert_eq!(Value::Null.text(), None);
    assert_eq!(Value::Array(vec![]).text(), None);
    assert_eq!(object(vec![]).text(), None);
}

#[test]
fn what_is_found_is_where_its_path_leads() {
    let document = object(vec![
        ("a", Value::Array(vec![string("x"), Value::Array(vec![string("y"), Value::Null])])),
        ("b c", object(vec![("d", Value::Bool(true)), ("e", number("2"))])),
    ]);
    let all = nest_find_by(&document, |_| true).unwrap();
    assert_eq!(all.len(), 4);
    for (path, value) in &all {
        assert_eq!(search_path(&document, path.as_view_path()), Some(*value));
        let again = ViewPathBuf::parse_str(&path.to_string()).unwrap();
        assert_eq!(&again, path);
    }
}

#[test]
fn a_document_is_well_formed_where_no_object_repeats_a_name() {
    assert!(Value::Null.is_well_formed());
    assert!(number("1").is_well_formed());
    assert!(object(vec![]).is_well_formed());
    assert!(Value::Array(vec![]).is_well_formed());
    let good = object(vec![
        ("a", Value::Array(vec![object(vec![("a", number("1")), ("b", number("2"))])])),
        ("b", object(vec![("a", Value::Null)])),
        ("A", string("a")),
    ]);
    assert!(good.is_well_formed());
    assert!(!object(vec![("a", number("1")), ("a", number("1"))]).is_well_formed());
    assert!(!object(vec![("a", number("1")), ("b", Value::Null), ("a", number("2"))]).is_well_formed());
    let deep = object(vec![(
        "x",
        Value::Array(vec![number("1"), object(vec![("k", Value::Null), ("k", Value::Null)])]),
    )]);
    assert!(!deep.is_well_formed());
    let in_member = object(vec![("x", object(vec![("k", Value::Null), ("k", Value::Null)]))]);
    assert!(!in_member.is_well_formed());
}

#[test]
fn a_repeated_name_is_found_by_its_first_member_only() {
    let document = object(vec![("a", number("1")), ("a", number("2"))]);
    assert!(!document.is_well_formed());
    let found = nest_find_value(&document, "2").unwrap();
    assert_eq!(printed(&found), vec!["a"]);
    assert_eq!(search_path(&document, found[0].as_view_path()), Some(&number("1")));
}

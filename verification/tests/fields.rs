use ebar::{Field, FieldBuf};
use quickcheck::{Arbitrary, Gen, QuickCheck, TestResult};

#[derive(Clone, Debug)]
struct AnyField(FieldBuf);

impl Arbitrary for AnyField {
    fn arbitrary(g: &mut Gen) -> Self {
        let chars = (32u8..90).map(|c| c as char).collect::<Vec<_>>();
        let len = u32::arbitrary(g) % 100 + 1;
        let name = (0..len)
            .map(|_| chars[usize::arbitrary(g) % chars.len()])
            .collect::<String>()
            .replace(r#"""#, r#"\""#);
        AnyField(FieldBuf::from(name))
    }

    fn shrink(&self) -> Box<dyn Iterator<Item = Self>> {
        Box::new(
            self.0
                .name
                .shrink()
                .filter(|name| !name.is_empty())
                .map(|name| {
                    let name = name.replace(r#"""#, r#"/""#);
                    AnyField(FieldBuf::from(name))
                }),
        )
    }
}

#[test]
fn lib_it_works() {
    let result = 2 + 2;
    assert_eq!(result, 4);
}

#[test]
fn test_field_buf_quoted() {
    let field: FieldBuf = "foo".into();
    assert_eq!(
        FieldBuf {
            name: "foo".into(),
            requires_quoting: false,
        },
        field
    );
}

#[test]
fn test_field_buf_quickcheck() {
    fn test_field_buf(field_buf: AnyField) -> TestResult {
        let field_buf = field_buf.0;
        let field_buf2: FieldBuf = field_buf.name.as_str().into();
        assert_eq!(field_buf, field_buf2);
        TestResult::passed()
    }
    QuickCheck::new()
        .tests(1_000)
        .max_tests(2_000)
        .quickcheck(test_field_buf as fn(AnyField) -> TestResult)
}

#[test]
fn bare_name_is_not_quoted() {
    let field = Field::from("foo");
    assert_eq!(field.name, "foo");
    assert!(!field.requires_quoting);
    assert_eq!(field.to_string(), "foo");
}

#[test]
fn name_with_a_space_is_quoted() {
    let field = Field::from("foo bar");
    assert_eq!(field.name, "foo bar");
    assert!(field.requires_quoting);
    assert_eq!(field.to_string(), "\"foo bar\"");
}

#[test]
fn quotes_are_stripped_once_and_kept_in_print() {
    let field = Field::from("\"foo\"");
    assert_eq!(field.name, "foo");
    assert!(field.requires_quoting);
    assert_eq!(field.to_string(), "\"foo\"");

    let nested = FieldBuf::from("\"\"foo\"\"");
    assert_eq!(nested.name, "\"foo\"");
    assert!(nested.requires_quoting);
}

#[test]
fn digits_alone_need_quotes_but_leading_digits_do_not() {
    assert!(Field::from("123").requires_quoting);
    assert!(!Field::from("123abc").requires_quoting);
    assert!(!Field::from("_").requires_quoting);
    assert!(!Field::from("a_1").requires_quoting);
    assert!(Field::from("").requires_quoting);
    assert!(Field::from("a-b").requires_quoting);
    assert!(Field::from("caf\u{e9}").requires_quoting);
}

#[test]
fn escapes_are_taken_as_they_are() {
    let field = FieldBuf::from("\"a\\\"b\"");
    assert_eq!(field.name, "a\\\"b");
    assert!(field.requires_quoting);
    assert_eq!(field.to_string(), "\"a\\\"b\"");
}

#[test]
fn a_lone_quote_is_a_name_of_its_own() {
    let field = FieldBuf::from("\"");
    assert_eq!(field.name, "\"");
    assert!(field.requires_quoting);
    let pair = FieldBuf::from("\"\"");
    assert_eq!(pair.name, "");
    assert!(pair.requires_quoting);
}

#[test]
fn borrowed_and_owned_fields_agree() {
    let owned = FieldBuf::from("some name");
    let borrowed = owned.as_field();
    assert_eq!(borrowed.as_str(), owned.as_str());
    assert_eq!(borrowed.to_string(), owned.to_string());
    assert_eq!(borrowed.to_field_buf(), owned);
    assert_ne!(FieldBuf::from("a"), FieldBuf::from("b"));
    assert_ne!(
        FieldBuf { name: "a".into(), requires_quoting: true },
        FieldBuf { name: "a".into(), requires_quoting: false }
    );
}

//! Field names: the identifier-like tokens that address members of an object.
//!
//! A field carries its name and a flag that says whether the name has to be
//! written between double quotes. The flag is fixed when the field is built,
//! so that printing never has to scan the name again.

use crate::text::{is_digit, is_word, char_is_digit, char_is_word, str_eq};
use vstd::prelude::*;
use vstd::std_specs::cmp::PartialEqSpecImpl;
use vstd::std_specs::convert::FromSpecImpl;
use vstd::string::*;

verus! {

/// What a field is, whichever way its name is stored.
pub struct FieldModel {
    pub name: Seq<char>,
    pub requires_quoting: bool,
}

/// The names that may be written without quotes: ASCII letters, digits and
/// underscores only, and not digits alone. A name may start with digits.
pub open spec fn is_field_name(s: Seq<char>) -> bool {
    &&& forall|i: int| 0 <= i < s.len() ==> is_word(#[trigger] s[i])
    &&& exists|i: int| 0 <= i < s.len() && !is_digit(#[trigger] s[i])
}

/// The same names by their shape: digits, as many as there are, then a
/// letter or an underscore, then word characters.
pub open spec fn has_name_shape(s: Seq<char>) -> bool {
    exists|k: int|
        {
            &&& 0 <= k < s.len()
            &&& forall|i: int| 0 <= i < k ==> is_digit(#[trigger] s[i])
            &&& is_word(#[trigger] s[k]) && !is_digit(s[k])
            &&& forall|i: int| k < i < s.len() ==> is_word(#[trigger] s[i])
        }
}

/// The first character of a text that is no digit, given that one is there.
proof fn lemma_first_non_digit(s: Seq<char>, n: int) -> (k: int)
    requires
        0 <= n < s.len(),
        !is_digit(s[n]),
    ensures
        0 <= k <= n,
        !is_digit(s[k]),
        forall|i: int| 0 <= i < k ==> is_digit(#[trigger] s[i]),
    decreases n,
{
    if exists|j: int| 0 <= j < n && !is_digit(#[trigger] s[j]) {
        let j = choose|j: int| 0 <= j < n && !is_digit(#[trigger] s[j]);
        lemma_first_non_digit(s, j)
    } else {
        n
    }
}

/// The two ways of saying which names can stand bare say the same.
pub proof fn lemma_field_name_shape(s: Seq<char>)
    ensures
        is_field_name(s) <==> has_name_shape(s),
{
    if is_field_name(s) {
        let n = choose|i: int| 0 <= i < s.len() && !is_digit(#[trigger] s[i]);
        let k = lemma_first_non_digit(s, n);
        assert(is_word(s[k]) && !is_digit(s[k]));
    }
    if has_name_shape(s) {
        let k = choose|k: int|
            {
                &&& 0 <= k < s.len()
                &&& forall|i: int| 0 <= i < k ==> is_digit(#[trigger] s[i])
                &&& is_word(#[trigger] s[k]) && !is_digit(s[k])
                &&& forall|i: int| k < i < s.len() ==> is_word(#[trigger] s[i])
            };
        assert forall|i: int| 0 <= i < s.len() implies is_word(#[trigger] s[i]) by {
            if i < k {
                assert(is_digit(s[i]));
            }
        }
    }
}

/// Text that starts with a double quote and ends with another one.
pub open spec fn is_quote_wrapped(s: Seq<char>) -> bool {
    s.len() >= 2 && s[0] == '"' && s[s.len() - 1] == '"'
}

/// The field that a piece of text stands for. Text between double quotes
/// loses exactly that pair of quotes and is always quoted again in print;
/// what lies between them is taken as it is. Other text is the name, quoted
/// in print unless it is a name that can stand bare.
pub open spec fn field_of_text(s: Seq<char>) -> FieldModel {
    if is_quote_wrapped(s) {
        FieldModel { name: s.subrange(1, s.len() - 1), requires_quoting: true }
    } else {
        FieldModel { name: s, requires_quoting: !is_field_name(s) }
    }
}

/// How a field is printed: its name, between double quotes if it asks for
/// them. Nothing inside the name is escaped.
pub open spec fn render_field(f: FieldModel) -> Seq<char> {
    if f.requires_quoting {
        seq!['"'] + f.name + seq!['"']
    } else {
        f.name
    }
}

/// Decides [`is_field_name`].
pub fn is_valid_field_name(name: &str) -> (r: bool)
    ensures
        r == is_field_name(name@),
{
    let mut all_word = true;
    let mut some_non_digit = false;
    for c in it: name.chars()
        invariant
            it.seq() == name@,
            all_word == (forall|i: int| 0 <= i < it.index() ==> is_word(#[trigger] name@[i])),
            some_non_digit == (exists|i: int|
                0 <= i < it.index() && !is_digit(#[trigger] name@[i])),
    {
        if !char_is_word(c) {
            all_word = false;
        }
        if !char_is_digit(c) {
            some_non_digit = true;
        }
    }
    all_word && some_non_digit
}

/// The number of characters of a text that is wrapped in double quotes, and
/// `None` for any other text.
fn is_wrapped_in_quotes(name: &str) -> (r: Option<usize>)
    ensures
        r is Some == is_quote_wrapped(name@),
        r is Some ==> r->0 == name@.len(),
{
    let n = name.unicode_len();
    if n >= 2 && name.get_char(0) == '"' && name.get_char(n - 1) == '"' {
        Some(n)
    } else {
        None
    }
}

/// A name as it is printed, between double quotes if asked for.
fn render_name(name: &str, requires_quoting: bool) -> (r: String)
    ensures
        r@ == render_field(FieldModel { name: name@, requires_quoting }),
{
    let mut out = String::new();
    if requires_quoting {
        proof {
            reveal_strlit("\"");
        }
        out.append("\"");
        out.append(name);
        out.append("\"");
        assert(out@ =~= seq!['"'] + name@ + seq!['"']);
    } else {
        out.append(name);
        assert(out@ =~= name@);
    }
    out
}

/// A field whose name is borrowed from the text it was read from.
#[derive(Debug, Hash, Eq, Ord)]
pub struct Field<'a> {
    pub name: &'a str,
    /// Whether the name is printed between double quotes.
    pub requires_quoting: bool,
}

impl<'a> View for Field<'a> {
    type V = FieldModel;

    open spec fn view(&self) -> FieldModel {
        FieldModel { name: self.name@, requires_quoting: self.requires_quoting }
    }
}

impl<'a> Field<'a> {
    /// An owned copy of this field.
    pub fn to_field_buf(&self) -> (r: FieldBuf)
        ensures
            r@ == self@,
    {
        FieldBuf { name: self.name.to_owned(), requires_quoting: self.requires_quoting }
    }

    /// The name, without quotes.
    pub fn as_str(&self) -> (r: &str)
        ensures
            r@ == self@.name,
    {
        self.name
    }

    /// The field as it is written in a path.
    pub fn to_string(&self) -> (r: String)
        ensures
            r@ == render_field(self@),
    {
        render_name(self.name, self.requires_quoting)
    }
}

impl<'a> Clone for Field<'a> {
    fn clone(&self) -> (r: Self)
        ensures
            r == *self,
    {
        Field { name: self.name, requires_quoting: self.requires_quoting }
    }
}

impl<'a> PartialEq for Field<'a> {
    fn eq(&self, other: &Self) -> (r: bool) {
        str_eq(self.name, other.name) && self.requires_quoting == other.requires_quoting
    }
}

impl<'a> PartialEqSpecImpl for Field<'a> {
    open spec fn obeys_eq_spec() -> bool {
        true
    }

    open spec fn eq_spec(&self, other: &Self) -> bool {
        self@ == other@
    }
}

impl<'a> From<&'a str> for Field<'a> {
    /// Reads a field from text: see [`field_of_text`].
    fn from(name: &'a str) -> (r: Self)
        ensures
            r@ == field_of_text(name@),
            r.requires_quoting == (is_quote_wrapped(name@) || !is_field_name(name@)),
    {
        match is_wrapped_in_quotes(name) {
            Some(n) => Field { name: name.substring_char(1, n - 1), requires_quoting: true },
            None => Field { name, requires_quoting: !is_valid_field_name(name) },
        }
    }
}

impl<'a> FromSpecImpl<&'a str> for Field<'a> {
    /// The borrowed name is a slice of the text, which only `from` itself
    /// can describe: it states the result by its view.
    open spec fn obeys_from_spec() -> bool {
        false
    }

    open spec fn from_spec(name: &'a str) -> Self {
        arbitrary()
    }
}

/// A field that owns its name.
#[derive(Debug, Hash, Eq, Ord)]
pub struct FieldBuf {
    pub name: String,
    /// Whether the name is printed between double quotes.
    pub requires_quoting: bool,
}

impl View for FieldBuf {
    type V = FieldModel;

    open spec fn view(&self) -> FieldModel {
        FieldModel { name: self.name@, requires_quoting: self.requires_quoting }
    }
}

impl FieldBuf {
    /// The name, without quotes.
    pub fn as_str(&self) -> (r: &str)
        ensures
            r@ == self@.name,
    {
        self.name.as_str()
    }

    /// The same field, borrowing the name.
    pub fn as_field(&self) -> (r: Field<'_>)
        ensures
            r@ == self@,
    {
        Field { name: self.name.as_str(), requires_quoting: self.requires_quoting }
    }

    /// The field as it is written in a path.
    pub fn to_string(&self) -> (r: String)
        ensures
            r@ == render_field(self@),
    {
        render_name(self.name.as_str(), self.requires_quoting)
    }
}

impl Clone for FieldBuf {
    fn clone(&self) -> (r: Self)
        ensures
            r == *self,
    {
        FieldBuf { name: self.name.clone(), requires_quoting: self.requires_quoting }
    }
}

impl PartialEq for FieldBuf {
    fn eq(&self, other: &Self) -> (r: bool) {
        self.name == other.name && self.requires_quoting == other.requires_quoting
    }
}

impl PartialEqSpecImpl for FieldBuf {
    open spec fn obeys_eq_spec() -> bool {
        true
    }

    open spec fn eq_spec(&self, other: &Self) -> bool {
        self@ == other@
    }
}

impl From<String> for FieldBuf {
    /// Reads a field from text: see [`field_of_text`].
    fn from(name: String) -> (r: Self)
        ensures
            r@ == field_of_text(name@),
            r.requires_quoting == (is_quote_wrapped(name@) || !is_field_name(name@)),
    {
        match is_wrapped_in_quotes(name.as_str()) {
            Some(n) => FieldBuf {
                name: name.as_str().substring_char(1, n - 1).to_owned(),
                requires_quoting: true,
            },
            None => {
                let valid = is_valid_field_name(name.as_str());
                FieldBuf { name, requires_quoting: !valid }
            },
        }
    }
}

impl FromSpecImpl<String> for FieldBuf {
    /// The owned name may be a fresh string, which only `from` itself can
    /// describe: it states the result by its view.
    open spec fn obeys_from_spec() -> bool {
        false
    }

    open spec fn from_spec(name: String) -> Self {
        arbitrary()
    }
}

impl<'a> From<&'a str> for FieldBuf {
    /// Reads a field from text: see [`field_of_text`].
    fn from(name: &'a str) -> (r: Self)
        ensures
            r@ == field_of_text(name@),
            r.requires_quoting == (is_quote_wrapped(name@) || !is_field_name(name@)),
    {
        FieldBuf::from(name.to_owned())
    }
}

impl<'a> FromSpecImpl<&'a str> for FieldBuf {
    open spec fn obeys_from_spec() -> bool {
        false
    }

    open spec fn from_spec(name: &'a str) -> Self {
        arbitrary()
    }
}

} // verus!

//! Segments: the steps that a path is made of.

use crate::field::{field_of_text, render_field, Field, FieldBuf, FieldModel};
use crate::text::{decimal, push_decimal};
use vstd::prelude::*;
use vstd::std_specs::cmp::PartialEqSpecImpl;
use vstd::std_specs::convert::FromSpecImpl;
use vstd::string::*;

verus! {

/// What a segment is, whichever way its names are stored.
pub enum SegmentModel {
    /// The member of an object with this name.
    Field(FieldModel),
    /// The element of an array at this offset.
    Index(int),
    /// The first member of an object that one of these names finds.
    Coalesce(Seq<FieldModel>),
}

/// Fields printed one after the other, with `" | "` between neighbours.
pub open spec fn render_alternatives(fields: Seq<FieldModel>) -> Seq<char>
    decreases fields.len(),
{
    if fields.len() == 0 {
        Seq::empty()
    } else if fields.len() == 1 {
        render_field(fields[0])
    } else {
        render_field(fields[0]) + seq![' ', '|', ' '] + render_alternatives(fields.skip(1))
    }
}

/// How a segment is printed on its own: an index as a bare integer, a field
/// as the field prints, alternatives between round brackets.
pub open spec fn render_segment(segment: SegmentModel) -> Seq<char> {
    match segment {
        SegmentModel::Index(i) => decimal(i),
        SegmentModel::Field(field) => render_field(field),
        SegmentModel::Coalesce(fields) => seq!['('] + render_alternatives(fields) + seq![')'],
    }
}

/// Printing the first `n + 1` fields adds the separator and one field to
/// the print of the first `n`.
pub proof fn lemma_render_alternatives_step(fields: Seq<FieldModel>, n: int)
    requires
        0 < n < fields.len(),
    ensures
        render_alternatives(fields.take(n + 1)) == render_alternatives(fields.take(n)) + seq![
            ' ',
            '|',
            ' ',
        ] + render_field(fields[n]),
    decreases n,
{
    let a = fields.take(n + 1);
    let b = fields.take(n);
    assert(a.skip(1) =~= fields.skip(1).take(n));
    assert(b.skip(1) =~= fields.skip(1).take(n - 1));
    if n == 1 {
        assert(a.skip(1).len() == 1);
        assert(render_alternatives(a.skip(1)) == render_field(fields[1]));
    } else {
        lemma_render_alternatives_step(fields.skip(1), n - 1);
        assert(render_alternatives(a) =~= render_alternatives(b) + seq![' ', '|', ' ']
            + render_field(fields[n]));
    }
}

/// The models of borrowed fields.
pub open spec fn field_models<'a>(fields: Seq<Field<'a>>) -> Seq<FieldModel> {
    Seq::new(fields.len(), |i: int| fields[i]@)
}

/// The models of owned fields.
pub open spec fn field_buf_models(fields: Seq<FieldBuf>) -> Seq<FieldModel> {
    Seq::new(fields.len(), |i: int| fields[i]@)
}

/// One step of a path, with names borrowed from the text it was read from.
#[derive(Debug, Hash, Eq, Ord)]
pub enum Segment<'a> {
    Field(Field<'a>),
    Index(isize),
    Coalesce(Vec<Field<'a>>),
}

impl<'a> View for Segment<'a> {
    type V = SegmentModel;

    open spec fn view(&self) -> SegmentModel {
        match self {
            Segment::Field(field) => SegmentModel::Field(field@),
            Segment::Index(i) => SegmentModel::Index(*i as int),
            Segment::Coalesce(fields) => SegmentModel::Coalesce(field_models(fields@)),
        }
    }
}

impl<'a> Segment<'a> {
    /// A step to the member with this name.
    pub fn field(field: Field<'a>) -> (r: Self)
        ensures
            r == Segment::Field(field),
    {
        Segment::Field(field)
    }

    /// Whether this is a step to a member by its name.
    pub fn is_field(&self) -> (r: bool)
        ensures
            r == (self@ is Field),
    {
        matches!(self, Segment::Field(_))
    }

    /// A step to the element at this offset.
    pub fn index(i: isize) -> (r: Self)
        ensures
            r == Segment::<'a>::Index(i),
    {
        Segment::Index(i)
    }

    /// Whether this is a step to an element by its offset.
    pub fn is_index(&self) -> (r: bool)
        ensures
            r == (self@ is Index),
    {
        matches!(self, Segment::Index(_))
    }

    /// A step to the first member that one of these names finds, tried in
    /// this order.
    pub fn coalesce(v: Vec<Field<'a>>) -> (r: Self)
        ensures
            r == Segment::Coalesce(v),
    {
        Segment::Coalesce(v)
    }

    /// Whether this is a step to the first member that is there.
    pub fn is_coalesce(&self) -> (r: bool)
        ensures
            r == (self@ is Coalesce),
    {
        matches!(self, Segment::Coalesce(_))
    }

    /// An owned copy of this segment.
    pub fn to_segment_buf(&self) -> (r: SegmentBuf)
        ensures
            r@ == self@,
    {
        match self {
            Segment::Field(field) => SegmentBuf::Field(field.to_field_buf()),
            Segment::Index(i) => SegmentBuf::Index(*i),
            Segment::Coalesce(v) => {
                let mut fields: Vec<FieldBuf> = Vec::new();
                let mut k: usize = 0;
                while k < v.len()
                    invariant
                        k <= v.len(),
                        fields.len() == k,
                        forall|j: int| 0 <= j < k ==> fields@[j]@ == v@[j]@,
                    decreases v.len() - k,
                {
                    fields.push(v[k].to_field_buf());
                    k += 1;
                }
                assert(field_buf_models(fields@) =~= field_models(v@));
                SegmentBuf::Coalesce(fields)
            },
        }
    }

    /// The segment as it is printed on its own.
    pub fn to_string(&self) -> (r: String)
        ensures
            r@ == render_segment(self@),
    {
        let mut out = String::new();
        match self {
            Segment::Index(i) => {
                push_decimal(&mut out, *i);
                assert(out@ =~= decimal(*i as int));
            },
            Segment::Field(field) => {
                out = field.to_string();
            },
            Segment::Coalesce(v) => {
                proof {
                    reveal_strlit("(");
                    reveal_strlit(")");
                    reveal_strlit(" | ");
                }
                let ghost fields = field_models(v@);
                out.append("(");
                let mut k: usize = 0;
                while k < v.len()
                    invariant
                        k <= v.len(),
                        fields == field_models(v@),
                        " | "@ == seq![' ', '|', ' '],
                        out@ == seq!['('] + render_alternatives(fields.take(k as int)),
                    decreases v.len() - k,
                {
                    if k > 0 {
                        out.append(" | ");
                    }
                    let piece = v[k].to_string();
                    out.append(piece.as_str());
                    proof {
                        if k > 0 {
                            lemma_render_alternatives_step(fields, k as int);
                        } else {
                            assert(fields.take(1).len() == 1);
                            assert(fields.take(1)[0] == fields[0]);
                            assert(fields.take(0).len() == 0);
                        }
                        assert(out@ =~= seq!['('] + render_alternatives(fields.take(k + 1)));
                    }
                    k += 1;
                }
                out.append(")");
                assert(fields.take(v.len() as int) =~= fields);
                assert(out@ =~= render_segment(self@));
            },
        }
        out
    }
}

/// Whether two lists hold the same fields.
fn fields_eq<'a>(a: &Vec<Field<'a>>, b: &Vec<Field<'a>>) -> (r: bool)
    ensures
        r == (field_models(a@) == field_models(b@)),
{
    if a.len() != b.len() {
        assert(field_models(a@).len() != field_models(b@).len());
        return false;
    }
    let mut k: usize = 0;
    while k < a.len()
        invariant
            k <= a.len(),
            a.len() == b.len(),
            forall|j: int| 0 <= j < k ==> a@[j]@ == b@[j]@,
        decreases a.len() - k,
    {
        if a[k] != b[k] {
            assert(field_models(a@)[k as int] != field_models(b@)[k as int]);
            return false;
        }
        k += 1;
    }
    assert(field_models(a@) =~= field_models(b@));
    true
}

/// Whether two lists hold the same fields.
fn field_bufs_eq(a: &Vec<FieldBuf>, b: &Vec<FieldBuf>) -> (r: bool)
    ensures
        r == (field_buf_models(a@) == field_buf_models(b@)),
{
    if a.len() != b.len() {
        assert(field_buf_models(a@).len() != field_buf_models(b@).len());
        return false;
    }
    let mut k: usize = 0;
    while k < a.len()
        invariant
            k <= a.len(),
            a.len() == b.len(),
            forall|j: int| 0 <= j < k ==> a@[j]@ == b@[j]@,
        decreases a.len() - k,
    {
        if a[k] != b[k] {
            assert(field_buf_models(a@)[k as int] != field_buf_models(b@)[k as int]);
            return false;
        }
        k += 1;
    }
    assert(field_buf_models(a@) =~= field_buf_models(b@));
    true
}

impl<'a> Clone for Segment<'a> {
    fn clone(&self) -> (r: Self)
        ensures
            r@ == self@,
    {
        match self {
            Segment::Field(field) => Segment::Field(field.clone()),
            Segment::Index(i) => Segment::Index(*i),
            Segment::Coalesce(v) => {
                let mut fields: Vec<Field<'a>> = Vec::new();
                let mut k: usize = 0;
                while k < v.len()
                    invariant
                        k <= v.len(),
                        fields.len() == k,
                        forall|j: int| 0 <= j < k ==> fields@[j] == v@[j],
                    decreases v.len() - k,
                {
                    fields.push(v[k].clone());
                    k += 1;
                }
                assert(field_models(fields@) =~= field_models(v@));
                Segment::Coalesce(fields)
            },
        }
    }
}

impl<'a> PartialEq for Segment<'a> {
    fn eq(&self, other: &Self) -> (r: bool) {
        match (self, other) {
            (Segment::Field(a), Segment::Field(b)) => a == b,
            (Segment::Index(a), Segment::Index(b)) => *a == *b,
            (Segment::Coalesce(a), Segment::Coalesce(b)) => fields_eq(a, b),
            _ => false,
        }
    }
}

impl<'a> PartialEqSpecImpl for Segment<'a> {
    open spec fn obeys_eq_spec() -> bool {
        true
    }

    open spec fn eq_spec(&self, other: &Self) -> bool {
        self@ == other@
    }
}

impl<'a> From<&'a str> for Segment<'a> {
    /// A field step, read from text as a field is.
    fn from(name: &'a str) -> (r: Self)
        ensures
            r@ == SegmentModel::Field(field_of_text(name@)),
    {
        Segment::Field(Field::from(name))
    }
}

impl<'a> FromSpecImpl<&'a str> for Segment<'a> {
    /// The borrowed name is a slice of the text, which only `from` itself
    /// can describe: it states the result by its view.
    open spec fn obeys_from_spec() -> bool {
        false
    }

    open spec fn from_spec(name: &'a str) -> Self {
        arbitrary()
    }
}

impl<'a> From<isize> for Segment<'a> {
    fn from(value: isize) -> (r: Self) {
        Segment::Index(value)
    }
}

impl<'a> FromSpecImpl<isize> for Segment<'a> {
    open spec fn obeys_from_spec() -> bool {
        true
    }

    open spec fn from_spec(value: isize) -> Self {
        Segment::Index(value)
    }
}

impl<'a> From<Vec<Field<'a>>> for Segment<'a> {
    fn from(value: Vec<Field<'a>>) -> (r: Self) {
        Segment::Coalesce(value)
    }
}

impl<'a> FromSpecImpl<Vec<Field<'a>>> for Segment<'a> {
    open spec fn obeys_from_spec() -> bool {
        true
    }

    open spec fn from_spec(value: Vec<Field<'a>>) -> Self {
        Segment::Coalesce(value)
    }
}

impl<'a> From<&'a SegmentBuf> for Segment<'a> {
    /// The same segment, borrowing the names.
    fn from(v: &'a SegmentBuf) -> (r: Self)
        ensures
            r@ == v@,
    {
        v.as_segment()
    }
}

impl<'a> FromSpecImpl<&'a SegmentBuf> for Segment<'a> {
    /// Alternatives are borrowed into a fresh list, which only `from`
    /// itself can describe: it states the result by its view.
    open spec fn obeys_from_spec() -> bool {
        false
    }

    open spec fn from_spec(v: &'a SegmentBuf) -> Self {
        arbitrary()
    }
}

/// One step of a path, owning its names.
#[derive(Debug, Hash, Eq, Ord)]
pub enum SegmentBuf {
    Field(FieldBuf),
    Index(isize),
    Coalesce(Vec<FieldBuf>),
}

impl View for SegmentBuf {
    type V = SegmentModel;

    open spec fn view(&self) -> SegmentModel {
        match self {
            SegmentBuf::Field(field) => SegmentModel::Field(field@),
            SegmentBuf::Index(i) => SegmentModel::Index(*i as int),
            SegmentBuf::Coalesce(fields) => SegmentModel::Coalesce(field_buf_models(fields@)),
        }
    }
}

impl SegmentBuf {
    /// A step to the member with this name.
    pub fn field(field: FieldBuf) -> (r: Self)
        ensures
            r == SegmentBuf::Field(field),
    {
        SegmentBuf::Field(field)
    }

    /// Whether this is a step to a member by its name.
    pub fn is_field(&self) -> (r: bool)
        ensures
            r == (self@ is Field),
    {
        matches!(self, SegmentBuf::Field(_))
    }

    /// A step to the element at this offset.
    pub fn index(i: isize) -> (r: Self)
        ensures
            r == SegmentBuf::Index(i),
    {
        SegmentBuf::Index(i)
    }

    /// Whether this is a step to an element by its offset.
    pub fn is_index(&self) -> (r: bool)
        ensures
            r == (self@ is Index),
    {
        matches!(self, SegmentBuf::Index(_))
    }

    /// A step to the first member that one of these names finds, tried in
    /// this order.
    pub fn coalesce(v: Vec<FieldBuf>) -> (r: Self)
        ensures
            r == SegmentBuf::Coalesce(v),
    {
        SegmentBuf::Coalesce(v)
    }

    /// Whether this is a step to the first member that is there.
    pub fn is_coalesce(&self) -> (r: bool)
        ensures
            r == (self@ is Coalesce),
    {
        matches!(self, SegmentBuf::Coalesce(_))
    }

    /// The same segment, borrowing the names.
    pub fn as_segment(&self) -> (r: Segment<'_>)
        ensures
            r@ == self@,
    {
        match self {
            SegmentBuf::Field(field) => Segment::Field(field.as_field()),
            SegmentBuf::Index(i) => Segment::Index(*i),
            SegmentBuf::Coalesce(v) => {
                let mut fields: Vec<Field<'_>> = Vec::new();
                let mut k: usize = 0;
                while k < v.len()
                    invariant
                        k <= v.len(),
                        fields.len() == k,
                        forall|j: int| 0 <= j < k ==> fields@[j]@ == v@[j]@,
                    decreases v.len() - k,
                {
                    fields.push(v[k].as_field());
                    k += 1;
                }
                assert(field_models(fields@) =~= field_buf_models(v@));
                Segment::Coalesce(fields)
            },
        }
    }

    /// The segment as it is printed on its own.
    pub fn to_string(&self) -> (r: String)
        ensures
            r@ == render_segment(self@),
    {
        self.as_segment().to_string()
    }
}

impl Clone for SegmentBuf {
    fn clone(&self) -> (r: Self)
        ensures
            r@ == self@,
    {
        match self {
            SegmentBuf::Field(field) => SegmentBuf::Field(field.clone()),
            SegmentBuf::Index(i) => SegmentBuf::Index(*i),
            SegmentBuf::Coalesce(v) => {
                let mut fields: Vec<FieldBuf> = Vec::new();
                let mut k: usize = 0;
                while k < v.len()
                    invariant
                        k <= v.len(),
                        fields.len() == k,
                        forall|j: int| 0 <= j < k ==> fields@[j] == v@[j],
                    decreases v.len() - k,
                {
                    fields.push(v[k].clone());
                    k += 1;
                }
                assert(field_buf_models(fields@) =~= field_buf_models(v@));
                SegmentBuf::Coalesce(fields)
            },
        }
    }
}

impl PartialEq for SegmentBuf {
    fn eq(&self, other: &Self) -> (r: bool) {
        match (self, other) {
            (SegmentBuf::Field(a), SegmentBuf::Field(b)) => a == b,
            (SegmentBuf::Index(a), SegmentBuf::Index(b)) => *a == *b,
            (SegmentBuf::Coalesce(a), SegmentBuf::Coalesce(b)) => field_bufs_eq(a, b),
            _ => false,
        }
    }
}

impl PartialEqSpecImpl for SegmentBuf {
    open spec fn obeys_eq_spec() -> bool {
        true
    }

    open spec fn eq_spec(&self, other: &Self) -> bool {
        self@ == other@
    }
}

impl From<String> for SegmentBuf {
    /// A field step, read from text as a field is.
    fn from(name: String) -> (r: Self)
        ensures
            r@ == SegmentModel::Field(field_of_text(name@)),
    {
        SegmentBuf::Field(FieldBuf::from(name))
    }
}

impl FromSpecImpl<String> for SegmentBuf {
    /// The owned name may be a fresh string, which only `from` itself can
    /// describe: it states the result by its view.
    open spec fn obeys_from_spec() -> bool {
        false
    }

    open spec fn from_spec(name: String) -> Self {
        arbitrary()
    }
}

impl<'a> From<&'a str> for SegmentBuf {
    /// A field step, read from text as a field is.
    fn from(name: &'a str) -> (r: Self)
        ensures
            r@ == SegmentModel::Field(field_of_text(name@)),
    {
        SegmentBuf::Field(FieldBuf::from(name))
    }
}

impl<'a> FromSpecImpl<&'a str> for SegmentBuf {
    open spec fn obeys_from_spec() -> bool {
        false
    }

    open spec fn from_spec(name: &'a str) -> Self {
        arbitrary()
    }
}

impl From<isize> for SegmentBuf {
    fn from(value: isize) -> (r: Self) {
        SegmentBuf::Index(value)
    }
}

impl FromSpecImpl<isize> for SegmentBuf {
    open spec fn obeys_from_spec() -> bool {
        true
    }

    open spec fn from_spec(value: isize) -> Self {
        SegmentBuf::Index(value)
    }
}

impl From<Vec<FieldBuf>> for SegmentBuf {
    fn from(value: Vec<FieldBuf>) -> (r: Self) {
        SegmentBuf::Coalesce(value)
    }
}

impl FromSpecImpl<Vec<FieldBuf>> for SegmentBuf {
    open spec fn obeys_from_spec() -> bool {
        true
    }

    open spec fn from_spec(value: Vec<FieldBuf>) -> Self {
        SegmentBuf::Coalesce(value)
    }
}

impl<'a> From<Segment<'a>> for SegmentBuf {
    /// An owned copy of the segment.
    fn from(value: Segment<'a>) -> (r: Self)
        ensures
            r@ == value@,
    {
        value.to_segment_buf()
    }
}

impl<'a> FromSpecImpl<Segment<'a>> for SegmentBuf {
    /// The names are copied into fresh strings, which only `from` itself
    /// can describe: it states the result by its view.
    open spec fn obeys_from_spec() -> bool {
        false
    }

    open spec fn from_spec(value: Segment<'a>) -> Self {
        arbitrary()
    }
}

} // verus!

//! The order of fields, segments and paths.
//!
//! Texts are ordered as their UTF-8 bytes are, fields by name and then by
//! the quoting flag, segments by kind and then by what they hold, lists and
//! paths item by item with the shorter one first where it starts the
//! longer one. An order is given as a number: below zero for "less", zero
//! for "equal", above zero for "greater".

use crate::field::{Field, FieldBuf, FieldModel};
use crate::segment::{field_buf_models, field_models, Segment, SegmentBuf, SegmentModel};
use crate::syntax::PathModel;
use crate::view_path::{ViewPath, ViewPathBuf};
use std::cmp::Ordering;
use vstd::prelude::*;
use vstd::std_specs::cmp::PartialOrdSpecImpl;
use vstd::string::*;
use vstd::utf8::*;

verus! {

/// How two runs of bytes compare from position `from` on, given that they
/// agree before it.
pub open spec fn bytes_order_from(a: Seq<u8>, b: Seq<u8>, from: int) -> int
    decreases a.len() - from,
{
    if from >= a.len() {
        if from >= b.len() {
            0
        } else {
            -1
        }
    } else if from >= b.len() {
        1
    } else if a[from] < b[from] {
        -1
    } else if a[from] > b[from] {
        1
    } else {
        bytes_order_from(a, b, from + 1)
    }
}

/// How two texts compare: as their UTF-8 bytes do.
pub open spec fn text_order(a: Seq<char>, b: Seq<char>) -> int {
    bytes_order_from(encode_utf8(a), encode_utf8(b), 0)
}

/// How two integers compare.
pub open spec fn number_order(a: int, b: int) -> int {
    if a < b {
        -1
    } else if a > b {
        1
    } else {
        0
    }
}

/// How two flags compare: unset comes first.
pub open spec fn flag_order(a: bool, b: bool) -> int {
    if a == b {
        0
    } else if b {
        -1
    } else {
        1
    }
}

/// How two fields compare: by name, and by the quoting flag where the
/// names are the same.
pub open spec fn field_order(a: FieldModel, b: FieldModel) -> int {
    let names = text_order(a.name, b.name);
    if names != 0 {
        names
    } else {
        flag_order(a.requires_quoting, b.requires_quoting)
    }
}

/// How two lists of fields compare from position `from` on, given that
/// they agree before it.
pub open spec fn fields_order_from(a: Seq<FieldModel>, b: Seq<FieldModel>, from: int) -> int
    decreases a.len() - from,
{
    if from >= a.len() {
        if from >= b.len() {
            0
        } else {
            -1
        }
    } else if from >= b.len() {
        1
    } else if field_order(a[from], b[from]) != 0 {
        field_order(a[from], b[from])
    } else {
        fields_order_from(a, b, from + 1)
    }
}

/// The place of a kind of segment among the kinds: fields first, then
/// indexes, then alternatives.
pub open spec fn segment_rank(segment: SegmentModel) -> int {
    match segment {
        SegmentModel::Field(_) => 0,
        SegmentModel::Index(_) => 1,
        SegmentModel::Coalesce(_) => 2,
    }
}

/// How two segments compare: by kind, and by what they hold where the
/// kinds are the same.
pub open spec fn segment_order(a: SegmentModel, b: SegmentModel) -> int {
    match (a, b) {
        (SegmentModel::Field(x), SegmentModel::Field(y)) => field_order(x, y),
        (SegmentModel::Index(x), SegmentModel::Index(y)) => number_order(x, y),
        (SegmentModel::Coalesce(x), SegmentModel::Coalesce(y)) => fields_order_from(x, y, 0),
        _ => number_order(segment_rank(a), segment_rank(b)),
    }
}

/// How two paths compare from position `from` on, given that they agree
/// before it.
pub open spec fn path_order_from(a: PathModel, b: PathModel, from: int) -> int
    decreases a.len() - from,
{
    if from >= a.len() {
        if from >= b.len() {
            0
        } else {
            -1
        }
    } else if from >= b.len() {
        1
    } else if segment_order(a[from], b[from]) != 0 {
        segment_order(a[from], b[from])
    } else {
        path_order_from(a, b, from + 1)
    }
}

/// How two paths compare.
pub open spec fn path_order(a: PathModel, b: PathModel) -> int {
    path_order_from(a, b, 0)
}

/// An order as std names it.
pub open spec fn ordering_of(order: int) -> Ordering {
    if order < 0 {
        Ordering::Less
    } else if order == 0 {
        Ordering::Equal
    } else {
        Ordering::Greater
    }
}

/// Runs of bytes that agree up to `from` compare as equal from there on
/// exactly if they are the same.
pub proof fn lemma_bytes_order_equal(a: Seq<u8>, b: Seq<u8>, from: int)
    requires
        0 <= from <= a.len(),
        from <= b.len(),
        forall|i: int| 0 <= i < from ==> a[i] == b[i],
    ensures
        bytes_order_from(a, b, from) == 0 <==> a == b,
        -1 <= bytes_order_from(a, b, from) <= 1,
    decreases a.len() - from,
{
    if from < a.len() && from < b.len() && a[from] == b[from] {
        lemma_bytes_order_equal(a, b, from + 1);
    } else if from >= a.len() && from >= b.len() {
        assert(a =~= b);
    } else {
        if a == b {
            assert(a.len() == b.len());
        }
    }
}

/// Two texts compare as equal exactly if they are the same.
pub proof fn lemma_text_order_equal(a: Seq<char>, b: Seq<char>)
    ensures
        text_order(a, b) == 0 <==> a == b,
        -1 <= text_order(a, b) <= 1,
{
    lemma_bytes_order_equal(encode_utf8(a), encode_utf8(b), 0);
    encode_utf8_decode_utf8(a);
    encode_utf8_decode_utf8(b);
}

/// Two fields compare as equal exactly if they are the same.
pub proof fn lemma_field_order_equal(a: FieldModel, b: FieldModel)
    ensures
        field_order(a, b) == 0 <==> a == b,
        -1 <= field_order(a, b) <= 1,
{
    lemma_text_order_equal(a.name, b.name);
}

/// Lists of fields that agree up to `from` compare as equal from there on
/// exactly if they are the same.
pub proof fn lemma_fields_order_equal(a: Seq<FieldModel>, b: Seq<FieldModel>, from: int)
    requires
        0 <= from <= a.len(),
        from <= b.len(),
        forall|i: int| 0 <= i < from ==> a[i] == b[i],
    ensures
        fields_order_from(a, b, from) == 0 <==> a == b,
        -1 <= fields_order_from(a, b, from) <= 1,
    decreases a.len() - from,
{
    if from < a.len() && from < b.len() {
        lemma_field_order_equal(a[from], b[from]);
        if field_order(a[from], b[from]) == 0 {
            lemma_fields_order_equal(a, b, from + 1);
        }
    } else if from >= a.len() && from >= b.len() {
        assert(a =~= b);
    } else {
        if a == b {
            assert(a.len() == b.len());
        }
    }
}

/// Two segments compare as equal exactly if they are the same.
pub proof fn lemma_segment_order_equal(a: SegmentModel, b: SegmentModel)
    ensures
        segment_order(a, b) == 0 <==> a == b,
        -1 <= segment_order(a, b) <= 1,
{
    match (a, b) {
        (SegmentModel::Field(x), SegmentModel::Field(y)) => {
            lemma_field_order_equal(x, y);
        },
        (SegmentModel::Coalesce(x), SegmentModel::Coalesce(y)) => {
            lemma_fields_order_equal(x, y, 0);
        },
        _ => {},
    }
}

/// Paths that agree up to `from` compare as equal from there on exactly
/// if they are the same.
pub proof fn lemma_path_order_equal_from(a: PathModel, b: PathModel, from: int)
    requires
        0 <= from <= a.len(),
        from <= b.len(),
        forall|i: int| 0 <= i < from ==> a[i] == b[i],
    ensures
        path_order_from(a, b, from) == 0 <==> a == b,
        -1 <= path_order_from(a, b, from) <= 1,
    decreases a.len() - from,
{
    if from < a.len() && from < b.len() {
        lemma_segment_order_equal(a[from], b[from]);
        if segment_order(a[from], b[from]) == 0 {
            lemma_path_order_equal_from(a, b, from + 1);
        }
    } else if from >= a.len() && from >= b.len() {
        assert(a =~= b);
    } else {
        if a == b {
            assert(a.len() == b.len());
        }
    }
}

/// Two paths compare as equal exactly if they are the same.
pub proof fn lemma_path_order_equal(a: PathModel, b: PathModel)
    ensures
        path_order(a, b) == 0 <==> a == b,
        -1 <= path_order(a, b) <= 1,
{
    lemma_path_order_equal_from(a, b, 0);
}

/// How two strings compare.
pub fn str_order(a: &str, b: &str) -> (r: i8)
    ensures
        r == text_order(a@, b@),
{
    let x = a.as_bytes();
    let y = b.as_bytes();
    let mut k: usize = 0;
    while k < x.len() && k < y.len()
        invariant
            x@ == a.spec_bytes(),
            y@ == b.spec_bytes(),
            text_order(a@, b@) == bytes_order_from(x@, y@, k as int),
        decreases x.len() - k,
    {
        if x[k] < y[k] {
            return -1;
        }
        if x[k] > y[k] {
            return 1;
        }
        k += 1;
    }
    if k < y.len() {
        -1
    } else if k < x.len() {
        1
    } else {
        0
    }
}

/// How two fields compare, each given by its name and its flag.
fn order_of_fields(a: &str, a_quoted: bool, b: &str, b_quoted: bool) -> (r: i8)
    ensures
        r == field_order(
            FieldModel { name: a@, requires_quoting: a_quoted },
            FieldModel { name: b@, requires_quoting: b_quoted },
        ),
{
    let names = str_order(a, b);
    if names != 0 {
        names
    } else if a_quoted == b_quoted {
        0
    } else if b_quoted {
        -1
    } else {
        1
    }
}

/// How two lists of borrowed fields compare.
fn order_of_field_lists<'a>(a: &Vec<Field<'a>>, b: &Vec<Field<'a>>) -> (r: i8)
    ensures
        r == fields_order_from(field_models(a@), field_models(b@), 0),
{
    let ghost x = field_models(a@);
    let ghost y = field_models(b@);
    let mut k: usize = 0;
    while k < a.len() && k < b.len()
        invariant
            x == field_models(a@),
            y == field_models(b@),
            fields_order_from(x, y, 0) == fields_order_from(x, y, k as int),
        decreases a.len() - k,
    {
        let order = order_of_fields(
            a[k].name,
            a[k].requires_quoting,
            b[k].name,
            b[k].requires_quoting,
        );
        assert(x[k as int] == a@[k as int]@ && y[k as int] == b@[k as int]@);
        if order != 0 {
            return order;
        }
        k += 1;
    }
    if k < b.len() {
        -1
    } else if k < a.len() {
        1
    } else {
        0
    }
}

/// How two lists of owned fields compare.
fn order_of_field_buf_lists(a: &Vec<FieldBuf>, b: &Vec<FieldBuf>) -> (r: i8)
    ensures
        r == fields_order_from(field_buf_models(a@), field_buf_models(b@), 0),
{
    let ghost x = field_buf_models(a@);
    let ghost y = field_buf_models(b@);
    let mut k: usize = 0;
    while k < a.len() && k < b.len()
        invariant
            x == field_buf_models(a@),
            y == field_buf_models(b@),
            fields_order_from(x, y, 0) == fields_order_from(x, y, k as int),
        decreases a.len() - k,
    {
        let order = order_of_fields(
            a[k].name.as_str(),
            a[k].requires_quoting,
            b[k].name.as_str(),
            b[k].requires_quoting,
        );
        assert(x[k as int] == a@[k as int]@ && y[k as int] == b@[k as int]@);
        if order != 0 {
            return order;
        }
        k += 1;
    }
    if k < b.len() {
        -1
    } else if k < a.len() {
        1
    } else {
        0
    }
}

/// How two indexes compare.
fn order_of_indexes(a: isize, b: isize) -> (r: i8)
    ensures
        r == number_order(a as int, b as int),
{
    if a < b {
        -1
    } else if a > b {
        1
    } else {
        0
    }
}

/// How two borrowed segments compare.
fn order_of_segments<'a>(a: &Segment<'a>, b: &Segment<'a>) -> (r: i8)
    ensures
        r == segment_order(a@, b@),
{
    match (a, b) {
        (Segment::Field(x), Segment::Field(y)) => order_of_fields(
            x.name,
            x.requires_quoting,
            y.name,
            y.requires_quoting,
        ),
        (Segment::Index(x), Segment::Index(y)) => order_of_indexes(*x, *y),
        (Segment::Coalesce(x), Segment::Coalesce(y)) => order_of_field_lists(x, y),
        (Segment::Field(_), _) => -1,
        (Segment::Index(_), Segment::Field(_)) => 1,
        (Segment::Index(_), Segment::Coalesce(_)) => -1,
        (Segment::Coalesce(_), _) => 1,
    }
}

/// How two owned segments compare.
fn order_of_segment_bufs(a: &SegmentBuf, b: &SegmentBuf) -> (r: i8)
    ensures
        r == segment_order(a@, b@),
{
    match (a, b) {
        (SegmentBuf::Field(x), SegmentBuf::Field(y)) => order_of_fields(
            x.name.as_str(),
            x.requires_quoting,
            y.name.as_str(),
            y.requires_quoting,
        ),
        (SegmentBuf::Index(x), SegmentBuf::Index(y)) => order_of_indexes(*x, *y),
        (SegmentBuf::Coalesce(x), SegmentBuf::Coalesce(y)) => order_of_field_buf_lists(x, y),
        (SegmentBuf::Field(_), _) => -1,
        (SegmentBuf::Index(_), SegmentBuf::Field(_)) => 1,
        (SegmentBuf::Index(_), SegmentBuf::Coalesce(_)) => -1,
        (SegmentBuf::Coalesce(_), _) => 1,
    }
}

/// How two borrowed paths compare.
fn order_of_paths<'a>(a: &ViewPath<'a>, b: &ViewPath<'a>) -> (r: i8)
    ensures
        r == path_order(a@, b@),
{
    let mut k: usize = 0;
    while k < a.len() && k < b.len()
        invariant
            path_order(a@, b@) == path_order_from(a@, b@, k as int),
        decreases a@.len() - k,
    {
        let order = order_of_segments(&a[k], &b[k]);
        if order != 0 {
            return order;
        }
        k += 1;
    }
    if k < b.len() {
        -1
    } else if k < a.len() {
        1
    } else {
        0
    }
}

/// How two owned paths compare.
fn order_of_path_bufs(a: &ViewPathBuf, b: &ViewPathBuf) -> (r: i8)
    ensures
        r == path_order(a@, b@),
{
    let mut k: usize = 0;
    while k < a.len() && k < b.len()
        invariant
            path_order(a@, b@) == path_order_from(a@, b@, k as int),
        decreases a@.len() - k,
    {
        let order = order_of_segment_bufs(&a[k], &b[k]);
        if order != 0 {
            return order;
        }
        k += 1;
    }
    if k < b.len() {
        -1
    } else if k < a.len() {
        1
    } else {
        0
    }
}

/// An order as std names it.
fn to_ordering(order: i8) -> (r: Ordering)
    ensures
        order < 0 ==> r == Ordering::Less,
        order == 0 ==> r == Ordering::Equal,
        order > 0 ==> r == Ordering::Greater,
{
    if order < 0 {
        Ordering::Less
    } else if order == 0 {
        Ordering::Equal
    } else {
        Ordering::Greater
    }
}

impl<'a> PartialOrd for Field<'a> {
    fn partial_cmp(&self, other: &Self) -> (r: Option<Ordering>) {
        Some(
            to_ordering(
                order_of_fields(
                    self.name,
                    self.requires_quoting,
                    other.name,
                    other.requires_quoting,
                ),
            ),
        )
    }
}

impl<'a> PartialOrdSpecImpl for Field<'a> {
    open spec fn obeys_partial_cmp_spec() -> bool {
        true
    }

    open spec fn partial_cmp_spec(&self, other: &Self) -> Option<Ordering> {
        Some(ordering_of(field_order(self@, other@)))
    }
}

impl PartialOrd for FieldBuf {
    fn partial_cmp(&self, other: &Self) -> (r: Option<Ordering>) {
        Some(
            to_ordering(
                order_of_fields(
                    self.name.as_str(),
                    self.requires_quoting,
                    other.name.as_str(),
                    other.requires_quoting,
                ),
            ),
        )
    }
}

impl PartialOrdSpecImpl for FieldBuf {
    open spec fn obeys_partial_cmp_spec() -> bool {
        true
    }

    open spec fn partial_cmp_spec(&self, other: &Self) -> Option<Ordering> {
        Some(ordering_of(field_order(self@, other@)))
    }
}

impl<'a> PartialOrd for Segment<'a> {
    fn partial_cmp(&self, other: &Self) -> (r: Option<Ordering>) {
        Some(to_ordering(order_of_segments(self, other)))
    }
}

impl<'a> PartialOrdSpecImpl for Segment<'a> {
    open spec fn obeys_partial_cmp_spec() -> bool {
        true
    }

    open spec fn partial_cmp_spec(&self, other: &Self) -> Option<Ordering> {
        Some(ordering_of(segment_order(self@, other@)))
    }
}

impl PartialOrd for SegmentBuf {
    fn partial_cmp(&self, other: &Self) -> (r: Option<Ordering>) {
        Some(to_ordering(order_of_segment_bufs(self, other)))
    }
}

impl PartialOrdSpecImpl for SegmentBuf {
    open spec fn obeys_partial_cmp_spec() -> bool {
        true
    }

    open spec fn partial_cmp_spec(&self, other: &Self) -> Option<Ordering> {
        Some(ordering_of(segment_order(self@, other@)))
    }
}

impl<'a> PartialOrd for ViewPath<'a> {
    fn partial_cmp(&self, other: &Self) -> (r: Option<Ordering>) {
        Some(to_ordering(order_of_paths(self, other)))
    }
}

impl<'a> PartialOrdSpecImpl for ViewPath<'a> {
    open spec fn obeys_partial_cmp_spec() -> bool {
        true
    }

    open spec fn partial_cmp_spec(&self, other: &Self) -> Option<Ordering> {
        Some(ordering_of(path_order(self@, other@)))
    }
}

impl PartialOrd for ViewPathBuf {
    fn partial_cmp(&self, other: &Self) -> (r: Option<Ordering>) {
        Some(to_ordering(order_of_path_bufs(self, other)))
    }
}

impl PartialOrdSpecImpl for ViewPathBuf {
    open spec fn obeys_partial_cmp_spec() -> bool {
        true
    }

    open spec fn partial_cmp_spec(&self, other: &Self) -> Option<Ordering> {
        Some(ordering_of(path_order(self@, other@)))
    }
}

} // verus!

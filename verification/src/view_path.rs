//! Paths: double-ended sequences of segments.

use crate::field::{field_of_text, Field, FieldBuf};
use crate::segment::{Segment, SegmentBuf, SegmentModel};
use crate::parser::{fault_text, parse_view_path};
use crate::syntax::{
    format_path, format_piece, format_prefix, format_step, lemma_format_prefix_whole, parse_path,
    PathModel, SyntaxFault,
};
use crate::Error;
use std::borrow::Cow;
use std::collections::vec_deque::Iter;
use std::collections::VecDeque;
use vstd::prelude::*;
use vstd::std_specs::cmp::PartialEqSpecImpl;
use vstd::std_specs::convert::FromSpecImpl;
use vstd::std_specs::iter::IteratorSpec;
use vstd::std_specs::vecdeque::*;
use vstd::string::*;

verus! {

/// `VecDeque::get_mut` of std: a mutable reference to the element at
/// `index`, or `None` if the index is out of bounds. Nothing but that
/// element can change through the reference.
#[verifier::external_body]
fn deque_get_mut<T>(v: &mut VecDeque<T>, index: usize) -> (r: Option<&mut T>)
    ensures
        match r {
            Some(element) => {
                &&& index < old(v)@.len()
                &&& *element == old(v)@[index as int]
                &&& final(v)@ == old(v)@.update(index as int, *final(element))
            },
            None => index >= old(v)@.len() && final(v)@ == old(v)@,
        },
{
    v.get_mut(index)
}

/// The models of borrowed segments.
pub open spec fn segment_models<'a>(segments: Seq<Segment<'a>>) -> PathModel {
    Seq::new(segments.len(), |i: int| segments[i]@)
}

/// The models of owned segments.
pub open spec fn segment_buf_models(segments: Seq<SegmentBuf>) -> PathModel {
    Seq::new(segments.len(), |i: int| segments[i]@)
}

/// A path whose names are borrowed from the text it was read from.
#[derive(Debug, Hash, Eq, Ord)]
pub struct ViewPath<'a> {
    segments: VecDeque<Segment<'a>>,
}

impl<'a> View for ViewPath<'a> {
    type V = PathModel;

    closed spec fn view(&self) -> PathModel {
        segment_models(self.segments@)
    }
}

impl<'a> ViewPath<'a> {
    /// The segments themselves, from the root outwards.
    pub closed spec fn segments(&self) -> Seq<Segment<'a>> {
        self.segments@
    }

    /// The view of a path is made of the views of its segments.
    pub proof fn lemma_view(&self)
        ensures
            self@ == segment_models(self.segments()),
    {
    }

    /// The path with no segments, which addresses the whole document.
    pub fn root() -> (r: Self)
        ensures
            r.segments() == Seq::<Segment<'a>>::empty(),
            r@ == PathModel::empty(),
    {
        let r = ViewPath { segments: VecDeque::new() };
        assert(r@ =~= PathModel::empty());
        r
    }

    /// Whether the path has no segments.
    pub fn is_root(&self) -> (r: bool)
        ensures
            r == (self@.len() == 0),
    {
        self.segments.len() == 0
    }

    /// The number of segments.
    pub fn len(&self) -> (r: usize)
        ensures
            r == self@.len(),
    {
        self.segments.len()
    }

    /// The segment at a position, counted from the root.
    pub fn get(&self, index: usize) -> (r: Option<&Segment<'a>>)
        ensures
            match r {
                Some(segment) => index < self@.len() && *segment == self.segments()[index as int]
                    && segment@ == self@[index as int],
                None => index >= self@.len(),
            },
    {
        if index < self.segments.len() {
            Some(&self.segments[index])
        } else {
            None
        }
    }

    /// The segment at a position, for changing it in place. The other
    /// segments stay as they are.
    pub fn get_mut(&mut self, index: usize) -> (r: Option<&mut Segment<'a>>)
        ensures
            match r {
                Some(segment) => {
                    &&& index < old(self)@.len()
                    &&& *segment == old(self).segments()[index as int]
                    &&& final(self).segments() == old(self).segments().update(
                        index as int,
                        *final(segment),
                    )
                    &&& final(self)@ == old(self)@.update(index as int, final(segment)@)
                },
                None => {
                    &&& index >= old(self)@.len()
                    &&& final(self).segments() == old(self).segments()
                    &&& final(self)@ == old(self)@
                },
            },
    {
        proof {
            let before = self.segments@;
            assert forall|segment: Segment<'a>|
                index < before.len() implies #[trigger] segment_models(
                before.update(index as int, segment),
            ) == segment_models(before).update(index as int, segment@) by {
                assert(segment_models(before.update(index as int, segment)) =~= segment_models(
                    before,
                ).update(index as int, segment@));
            }
        }
        deque_get_mut(&mut self.segments, index)
    }

    /// Adds a segment at the far end.
    pub fn push_back(&mut self, segment: Segment<'a>)
        ensures
            final(self).segments() == old(self).segments().push(segment),
            final(self)@ == old(self)@.push(segment@),
    {
        self.segments.push_back(segment);
        assert(self@ =~= old(self)@.push(segment@));
    }

    /// Takes the segment at the far end away, if there is one.
    pub fn pop_back(&mut self) -> (r: Option<Segment<'a>>)
        ensures
            match r {
                Some(segment) => {
                    &&& old(self)@.len() > 0
                    &&& segment == old(self).segments().last()
                    &&& segment@ == old(self)@.last()
                    &&& final(self).segments() == old(self).segments().drop_last()
                    &&& final(self)@ == old(self)@.drop_last()
                },
                None => {
                    &&& old(self)@.len() == 0
                    &&& final(self).segments() == old(self).segments()
                    &&& final(self)@ == old(self)@
                },
            },
    {
        let r = self.segments.pop_back();
        proof {
            if r is Some {
                assert(self@ =~= old(self)@.drop_last());
            }
        }
        r
    }

    /// Adds a segment at the root end.
    pub fn push_front(&mut self, segment: Segment<'a>)
        ensures
            final(self).segments() == seq![segment] + old(self).segments(),
            final(self)@ == seq![segment@] + old(self)@,
    {
        self.segments.push_front(segment);
        assert(self@ =~= seq![segment@] + old(self)@);
    }

    /// Takes the segment at the root end away, if there is one.
    pub fn pop_front(&mut self) -> (r: Option<Segment<'a>>)
        ensures
            match r {
                Some(segment) => {
                    &&& old(self)@.len() > 0
                    &&& segment == old(self).segments()[0]
                    &&& segment@ == old(self)@[0]
                    &&& final(self).segments() == old(self).segments().skip(1)
                    &&& final(self)@ == old(self)@.skip(1)
                },
                None => {
                    &&& old(self)@.len() == 0
                    &&& final(self).segments() == old(self).segments()
                    &&& final(self)@ == old(self)@
                },
            },
    {
        let r = self.segments.pop_front();
        proof {
            if r is Some {
                assert(self.segments@ =~= old(self).segments@.skip(1));
                assert(self@ =~= old(self)@.skip(1));
            }
        }
        r
    }

    /// Appends the segments of another path, in their order.
    pub fn extend(&mut self, other: Self)
        ensures
            final(self).segments() == old(self).segments() + other.segments(),
            final(self)@ == old(self)@ + other@,
    {
        let mut rest = other.segments;
        self.segments.append(&mut rest);
        assert(self@ =~= old(self)@ + other@);
    }

    /// Whether the path begins with the segments of `needle`: the path is
    /// at least as long, and each segment of `needle` equals the segment of
    /// the path at the same position. The root fits every path; a `needle`
    /// that is longer than the path fits none.
    pub fn starts_with(&self, needle: &ViewPath<'a>) -> (r: bool)
        ensures
            r == (needle@.len() <= self@.len() && forall|i: int|
                0 <= i < needle@.len() ==> needle@[i] == self@[i]),
    {
        if needle.segments.len() > self.segments.len() {
            return false;
        }
        let mut k: usize = 0;
        while k < needle.segments.len()
            invariant
                k <= needle@.len() <= self@.len(),
                forall|i: int| 0 <= i < k ==> needle@[i] == self@[i],
            decreases needle.segments.len() - k,
        {
            if needle.segments[k] != self.segments[k] {
                assert(needle@[k as int] != self@[k as int]);
                return false;
            }
            k += 1;
        }
        true
    }

    /// Reads the path that a text denotes, with names borrowed from the
    /// text, or says why the text denotes none.
    pub fn parse_str(input: &'a str) -> (r: Result<Self, Error>)
        ensures
            match r {
                Ok(path) => parse_path(input@) == Ok::<PathModel, SyntaxFault>(path@),
                Err(Error::InvalidPath(message)) => parse_path(input@) is Err && message@
                    == fault_text(parse_path(input@)->Err_0),
            },
    {
        match parse_view_path(input) {
            Ok(path) => Ok(path),
            Err(message) => Err(Error::InvalidPath(message)),
        }
    }

    /// The path as it is written: see [`format_path`].
    pub fn to_string(&self) -> (r: String)
        ensures
            r@ == format_path(self@),
    {
        proof {
            reveal_strlit("[");
            reveal_strlit("]");
            reveal_strlit(".");
        }
        let mut out = String::new();
        let n = self.segments.len();
        let mut k: usize = 0;
        assert(out@ =~= format_prefix(self@, 0));
        while k < n
            invariant
                k <= n,
                n == self.segments@.len(),
                "["@ == seq!['['],
                "]"@ == seq![']'],
                "."@ == seq!['.'],
                out@ == format_prefix(self@, k as int),
            decreases n - k,
        {
            let ghost before = out@;
            let segment = &self.segments[k];
            let piece = segment.to_string();
            if segment.is_index() {
                out.append("[");
                out.append(piece.as_str());
                out.append("]");
            } else {
                out.append(piece.as_str());
            }
            assert(out@ =~= before + format_step(self@[k as int]));
            if k + 1 < n {
                let next = &self.segments[k + 1];
                if next.is_field() || next.is_coalesce() {
                    out.append(".");
                }
            }
            assert(out@ =~= before + format_piece(self@, k as int));
            k += 1;
        }
        proof {
            lemma_format_prefix_whole(self@);
        }
        out
    }

    /// Walks the segments from the root outwards.
    pub fn iter(&self) -> (it: Iter<'_, Segment<'a>>)
        ensures
            it.remaining() == self.segments().as_ref(),
            it.obeys_prophetic_iter_laws(),
            IteratorSpec::decrease(&it) is Some,
            IteratorSpec::initial_value_relation(&it, &it),
    {
        self.segments.iter()
    }

    /// An owned copy of the path.
    pub fn into_buf(self) -> (r: ViewPathBuf)
        ensures
            r@ == self@,
    {
        let mut segments: VecDeque<SegmentBuf> = VecDeque::new();
        let mut k: usize = 0;
        while k < self.segments.len()
            invariant
                k <= self.segments.len(),
                segments.len() == k,
                forall|j: int| 0 <= j < k ==> segments@[j]@ == self.segments@[j]@,
            decreases self.segments.len() - k,
        {
            segments.push_back(self.segments[k].to_segment_buf());
            k += 1;
        }
        let r = ViewPathBuf { segments };
        assert(r@ =~= self@);
        r
    }
}

/// A path that owns its names.
#[derive(Debug, Hash, Eq, Ord)]
pub struct ViewPathBuf {
    segments: VecDeque<SegmentBuf>,
}

impl View for ViewPathBuf {
    type V = PathModel;

    closed spec fn view(&self) -> PathModel {
        segment_buf_models(self.segments@)
    }
}


impl<'a> Clone for ViewPath<'a> {
    fn clone(&self) -> (r: Self)
        ensures
            r@ == self@,
    {
        let mut segments: VecDeque<Segment<'a>> = VecDeque::new();
        let mut k: usize = 0;
        while k < self.segments.len()
            invariant
                k <= self.segments.len(),
                segments.len() == k,
                forall|j: int| 0 <= j < k ==> segments@[j]@ == self.segments@[j]@,
            decreases self.segments.len() - k,
        {
            segments.push_back(self.segments[k].clone());
            k += 1;
        }
        let r = ViewPath { segments };
        assert(r@ =~= self@);
        r
    }
}

impl<'a> PartialEq for ViewPath<'a> {
    fn eq(&self, other: &Self) -> (r: bool) {
        if self.segments.len() != other.segments.len() {
            assert(self@.len() != other@.len());
            return false;
        }
        let mut k: usize = 0;
        while k < self.segments.len()
            invariant
                k <= self.segments.len(),
                self.segments.len() == other.segments.len(),
                forall|i: int| 0 <= i < k ==> self@[i] == other@[i],
            decreases self.segments.len() - k,
        {
            if self.segments[k] != other.segments[k] {
                assert(self@[k as int] != other@[k as int]);
                return false;
            }
            k += 1;
        }
        assert(self@ =~= other@);
        true
    }
}

impl<'a> PartialEqSpecImpl for ViewPath<'a> {
    open spec fn obeys_eq_spec() -> bool {
        true
    }

    open spec fn eq_spec(&self, other: &Self) -> bool {
        self@ == other@
    }
}

impl ViewPathBuf {
    /// The segments themselves, from the root outwards.
    pub closed spec fn segments(&self) -> Seq<SegmentBuf> {
        self.segments@
    }

    /// The view of a path is made of the views of its segments.
    pub proof fn lemma_view(&self)
        ensures
            self@ == segment_buf_models(self.segments()),
    {
    }

    /// The path with no segments, which addresses the whole document.
    pub fn root() -> (r: Self)
        ensures
            r.segments() == Seq::<SegmentBuf>::empty(),
            r@ == PathModel::empty(),
    {
        let r = ViewPathBuf { segments: VecDeque::new() };
        assert(r@ =~= PathModel::empty());
        r
    }

    /// Whether the path has no segments.
    pub fn is_root(&self) -> (r: bool)
        ensures
            r == (self@.len() == 0),
    {
        self.segments.len() == 0
    }

    /// The number of segments.
    pub fn len(&self) -> (r: usize)
        ensures
            r == self@.len(),
    {
        self.segments.len()
    }

    /// The segment at a position, counted from the root.
    pub fn get(&self, index: usize) -> (r: Option<&SegmentBuf>)
        ensures
            match r {
                Some(segment) => index < self@.len() && *segment == self.segments()[index as int]
                    && segment@ == self@[index as int],
                None => index >= self@.len(),
            },
    {
        if index < self.segments.len() {
            Some(&self.segments[index])
        } else {
            None
        }
    }

    /// The segment at a position, for changing it in place. The other
    /// segments stay as they are.
    pub fn get_mut(&mut self, index: usize) -> (r: Option<&mut SegmentBuf>)
        ensures
            match r {
                Some(segment) => {
                    &&& index < old(self)@.len()
                    &&& *segment == old(self).segments()[index as int]
                    &&& final(self).segments() == old(self).segments().update(
                        index as int,
                        *final(segment),
                    )
                    &&& final(self)@ == old(self)@.update(index as int, final(segment)@)
                },
                None => {
                    &&& index >= old(self)@.len()
                    &&& final(self).segments() == old(self).segments()
                    &&& final(self)@ == old(self)@
                },
            },
    {
        proof {
            let before = self.segments@;
            assert forall|segment: SegmentBuf|
                index < before.len() implies #[trigger] segment_buf_models(
                before.update(index as int, segment),
            ) == segment_buf_models(before).update(index as int, segment@) by {
                assert(segment_buf_models(before.update(index as int, segment))
                    =~= segment_buf_models(before).update(index as int, segment@));
            }
        }
        deque_get_mut(&mut self.segments, index)
    }

    /// Adds a segment at the far end.
    pub fn push_back(&mut self, segment: SegmentBuf)
        ensures
            final(self).segments() == old(self).segments().push(segment),
            final(self)@ == old(self)@.push(segment@),
    {
        self.segments.push_back(segment);
        assert(self@ =~= old(self)@.push(segment@));
    }

    /// Takes the segment at the far end away, if there is one.
    pub fn pop_back(&mut self) -> (r: Option<SegmentBuf>)
        ensures
            match r {
                Some(segment) => {
                    &&& old(self)@.len() > 0
                    &&& segment == old(self).segments().last()
                    &&& segment@ == old(self)@.last()
                    &&& final(self).segments() == old(self).segments().drop_last()
                    &&& final(self)@ == old(self)@.drop_last()
                },
                None => {
                    &&& old(self)@.len() == 0
                    &&& final(self).segments() == old(self).segments()
                    &&& final(self)@ == old(self)@
                },
            },
    {
        let r = self.segments.pop_back();
        proof {
            if r is Some {
                assert(self@ =~= old(self)@.drop_last());
            }
        }
        r
    }

    /// Adds a segment at the root end.
    pub fn push_front(&mut self, segment: SegmentBuf)
        ensures
            final(self).segments() == seq![segment] + old(self).segments(),
            final(self)@ == seq![segment@] + old(self)@,
    {
        self.segments.push_front(segment);
        assert(self@ =~= seq![segment@] + old(self)@);
    }

    /// Takes the segment at the root end away, if there is one.
    pub fn pop_front(&mut self) -> (r: Option<SegmentBuf>)
        ensures
            match r {
                Some(segment) => {
                    &&& old(self)@.len() > 0
                    &&& segment == old(self).segments()[0]
                    &&& segment@ == old(self)@[0]
                    &&& final(self).segments() == old(self).segments().skip(1)
                    &&& final(self)@ == old(self)@.skip(1)
                },
                None => {
                    &&& old(self)@.len() == 0
                    &&& final(self).segments() == old(self).segments()
                    &&& final(self)@ == old(self)@
                },
            },
    {
        let r = self.segments.pop_front();
        proof {
            if r is Some {
                assert(self.segments@ =~= old(self).segments@.skip(1));
                assert(self@ =~= old(self)@.skip(1));
            }
        }
        r
    }

    /// Appends the segments of another path, in their order.
    pub fn extend(&mut self, other: Self)
        ensures
            final(self).segments() == old(self).segments() + other.segments(),
            final(self)@ == old(self)@ + other@,
    {
        let mut rest = other.segments;
        self.segments.append(&mut rest);
        assert(self@ =~= old(self)@ + other@);
    }

    /// Whether the path begins with the segments of `needle`: the path is
    /// at least as long, and each segment of `needle` equals the segment of
    /// the path at the same position. The root fits every path; a `needle`
    /// that is longer than the path fits none.
    pub fn starts_with(&self, needle: &ViewPathBuf) -> (r: bool)
        ensures
            r == (needle@.len() <= self@.len() && forall|i: int|
                0 <= i < needle@.len() ==> needle@[i] == self@[i]),
    {
        if needle.segments.len() > self.segments.len() {
            return false;
        }
        let mut k: usize = 0;
        while k < needle.segments.len()
            invariant
                k <= needle@.len() <= self@.len(),
                forall|i: int| 0 <= i < k ==> needle@[i] == self@[i],
            decreases needle.segments.len() - k,
        {
            if needle.segments[k] != self.segments[k] {
                assert(needle@[k as int] != self@[k as int]);
                return false;
            }
            k += 1;
        }
        true
    }

    /// Reads the path that a text denotes, or says why the text denotes
    /// none.
    pub fn parse_str(input: &str) -> (r: Result<Self, Error>)
        ensures
            match r {
                Ok(path) => parse_path(input@) == Ok::<PathModel, SyntaxFault>(path@),
                Err(Error::InvalidPath(message)) => parse_path(input@) is Err && message@
                    == fault_text(parse_path(input@)->Err_0),
            },
    {
        match ViewPath::parse_str(input) {
            Ok(path) => Ok(path.into_buf()),
            Err(fault) => Err(fault),
        }
    }

    /// The path as it is written: see [`format_path`].
    pub fn to_string(&self) -> (r: String)
        ensures
            r@ == format_path(self@),
    {
        self.as_view_path().to_string()
    }

    /// Walks the segments from the root outwards.
    pub fn iter(&self) -> (it: Iter<'_, SegmentBuf>)
        ensures
            it.remaining() == self.segments().as_ref(),
            it.obeys_prophetic_iter_laws(),
            IteratorSpec::decrease(&it) is Some,
            IteratorSpec::initial_value_relation(&it, &it),
    {
        self.segments.iter()
    }

    /// The same path, borrowing the names.
    pub fn as_view_path(&self) -> (r: ViewPath<'_>)
        ensures
            r@ == self@,
    {
        let mut segments: VecDeque<Segment<'_>> = VecDeque::new();
        let mut k: usize = 0;
        while k < self.segments.len()
            invariant
                k <= self.segments.len(),
                segments.len() == k,
                forall|j: int| 0 <= j < k ==> segments@[j]@ == self.segments@[j]@,
            decreases self.segments.len() - k,
        {
            segments.push_back(self.segments[k].as_segment());
            k += 1;
        }
        let r = ViewPath { segments };
        assert(r@ =~= self@);
        r
    }
}

impl Clone for ViewPathBuf {
    fn clone(&self) -> (r: Self)
        ensures
            r@ == self@,
    {
        let mut segments: VecDeque<SegmentBuf> = VecDeque::new();
        let mut k: usize = 0;
        while k < self.segments.len()
            invariant
                k <= self.segments.len(),
                segments.len() == k,
                forall|j: int| 0 <= j < k ==> segments@[j]@ == self.segments@[j]@,
            decreases self.segments.len() - k,
        {
            segments.push_back(self.segments[k].clone());
            k += 1;
        }
        let r = ViewPathBuf { segments };
        assert(r@ =~= self@);
        r
    }
}

impl PartialEq for ViewPathBuf {
    fn eq(&self, other: &Self) -> (r: bool) {
        if self.segments.len() != other.segments.len() {
            assert(self@.len() != other@.len());
            return false;
        }
        let mut k: usize = 0;
        while k < self.segments.len()
            invariant
                k <= self.segments.len(),
                self.segments.len() == other.segments.len(),
                forall|i: int| 0 <= i < k ==> self@[i] == other@[i],
            decreases self.segments.len() - k,
        {
            if self.segments[k] != other.segments[k] {
                assert(self@[k as int] != other@[k as int]);
                return false;
            }
            k += 1;
        }
        assert(self@ =~= other@);
        true
    }
}

impl PartialEqSpecImpl for ViewPathBuf {
    open spec fn obeys_eq_spec() -> bool {
        true
    }

    open spec fn eq_spec(&self, other: &Self) -> bool {
        self@ == other@
    }
}

impl<'a> ViewPath<'a> {
    /// The path of one segment.
    fn single(segment: Segment<'a>) -> (r: Self)
        ensures
            r.segments() == seq![segment],
            r@ == seq![segment@],
    {
        let mut segments: VecDeque<Segment<'a>> = VecDeque::with_capacity(1);
        segments.push_back(segment);
        let r = ViewPath { segments };
        assert(r.segments() =~= seq![segment]);
        assert(r@ =~= seq![segment@]);
        r
    }
}

impl ViewPathBuf {
    /// The path of one segment.
    fn single(segment: SegmentBuf) -> (r: Self)
        ensures
            r.segments() == seq![segment],
            r@ == seq![segment@],
    {
        let mut segments: VecDeque<SegmentBuf> = VecDeque::with_capacity(1);
        segments.push_back(segment);
        let r = ViewPathBuf { segments };
        assert(r.segments() =~= seq![segment]);
        assert(r@ =~= seq![segment@]);
        r
    }
}

impl<'a> From<&'a str> for ViewPath<'a> {
    /// The path of one field, read from text as a field is.
    fn from(input: &'a str) -> (r: Self)
        ensures
            r@ == seq![SegmentModel::Field(field_of_text(input@))],
    {
        ViewPath::single(Segment::from(input))
    }
}

impl<'a> FromSpecImpl<&'a str> for ViewPath<'a> {
    /// The segments lie behind the path's view, so `from` itself states
    /// what comes out.
    open spec fn obeys_from_spec() -> bool {
        false
    }

    open spec fn from_spec(input: &'a str) -> Self {
        arbitrary()
    }
}

impl<'a> From<isize> for ViewPath<'a> {
    /// The path of one index.
    fn from(input: isize) -> (r: Self)
        ensures
            r@ == seq![SegmentModel::Index(input as int)],
    {
        ViewPath::single(Segment::Index(input))
    }
}

impl<'a> FromSpecImpl<isize> for ViewPath<'a> {
    /// The segments lie behind the path's view, so `from` itself states
    /// what comes out.
    open spec fn obeys_from_spec() -> bool {
        false
    }

    open spec fn from_spec(input: isize) -> Self {
        arbitrary()
    }
}

impl<'a> From<&'a String> for ViewPath<'a> {
    /// The path of one field, read from text as a field is.
    fn from(input: &'a String) -> (r: Self)
        ensures
            r@ == seq![SegmentModel::Field(field_of_text(input@))],
    {
        ViewPath::single(Segment::from(input.as_str()))
    }
}

impl<'a> FromSpecImpl<&'a String> for ViewPath<'a> {
    /// The segments lie behind the path's view, so `from` itself states
    /// what comes out.
    open spec fn obeys_from_spec() -> bool {
        false
    }

    open spec fn from_spec(input: &'a String) -> Self {
        arbitrary()
    }
}

impl<'a> From<Segment<'a>> for ViewPath<'a> {
    /// The path of one segment.
    fn from(input: Segment<'a>) -> (r: Self)
        ensures
            r.segments() == seq![input],
            r@ == seq![input@],
    {
        ViewPath::single(input)
    }
}

impl<'a> FromSpecImpl<Segment<'a>> for ViewPath<'a> {
    /// The segments lie behind the path's view, so `from` itself states
    /// what comes out.
    open spec fn obeys_from_spec() -> bool {
        false
    }

    open spec fn from_spec(input: Segment<'a>) -> Self {
        arbitrary()
    }
}

impl<'a> From<VecDeque<Segment<'a>>> for ViewPath<'a> {
    /// The path of these segments.
    fn from(segments: VecDeque<Segment<'a>>) -> (r: Self)
        ensures
            r.segments() == segments@,
            r@ == segment_models(segments@),
    {
        ViewPath { segments }
    }
}

impl<'a> FromSpecImpl<VecDeque<Segment<'a>>> for ViewPath<'a> {
    /// The segments lie behind the path's view, so `from` itself states
    /// what comes out.
    open spec fn obeys_from_spec() -> bool {
        false
    }

    open spec fn from_spec(segments: VecDeque<Segment<'a>>) -> Self {
        arbitrary()
    }
}

impl<'a> From<Field<'a>> for ViewPath<'a> {
    /// The path of one field.
    fn from(field: Field<'a>) -> (r: Self)
        ensures
            r.segments() == seq![Segment::Field(field)],
            r@ == seq![SegmentModel::Field(field@)],
    {
        ViewPath::single(Segment::Field(field))
    }
}

impl<'a> FromSpecImpl<Field<'a>> for ViewPath<'a> {
    /// The segments lie behind the path's view, so `from` itself states
    /// what comes out.
    open spec fn obeys_from_spec() -> bool {
        false
    }

    open spec fn from_spec(field: Field<'a>) -> Self {
        arbitrary()
    }
}

impl<'a> From<&'a ViewPathBuf> for ViewPath<'a> {
    /// The same path, borrowing the names.
    fn from(lookup_buf: &'a ViewPathBuf) -> (r: Self)
        ensures
            r@ == lookup_buf@,
    {
        lookup_buf.as_view_path()
    }
}

impl<'a> FromSpecImpl<&'a ViewPathBuf> for ViewPath<'a> {
    /// The segments lie behind the path's view, so `from` itself states
    /// what comes out.
    open spec fn obeys_from_spec() -> bool {
        false
    }

    open spec fn from_spec(lookup_buf: &'a ViewPathBuf) -> Self {
        arbitrary()
    }
}

impl<'collection: 'item, 'item> From<&'collection VecDeque<SegmentBuf>> for ViewPath<'item> {
    /// The path of these segments, borrowing the names.
    fn from(segments: &'collection VecDeque<SegmentBuf>) -> (r: Self)
        ensures
            r@ == segment_buf_models(segments@),
    {
        let mut borrowed: VecDeque<Segment<'item>> = VecDeque::new();
        let mut k: usize = 0;
        while k < segments.len()
            invariant
                k <= segments.len(),
                borrowed.len() == k,
                forall|j: int| 0 <= j < k ==> borrowed@[j]@ == segments@[j]@,
            decreases segments.len() - k,
        {
            borrowed.push_back(segments[k].as_segment());
            k += 1;
        }
        let r = ViewPath { segments: borrowed };
        assert(r@ =~= segment_buf_models(segments@));
        r
    }
}

impl<'collection: 'item, 'item> FromSpecImpl<&'collection VecDeque<SegmentBuf>> for ViewPath<'item> {
    /// The segments lie behind the path's view, so `from` itself states
    /// what comes out.
    open spec fn obeys_from_spec() -> bool {
        false
    }

    open spec fn from_spec(segments: &'collection VecDeque<SegmentBuf>) -> Self {
        arbitrary()
    }
}

impl<'collection: 'item, 'item> From<&'collection [SegmentBuf]> for ViewPath<'item> {
    /// The path of these segments, borrowing the names.
    fn from(segments: &'collection [SegmentBuf]) -> (r: Self)
        ensures
            r@ == segment_buf_models(segments@),
    {
        let mut borrowed: VecDeque<Segment<'item>> = VecDeque::new();
        let mut k: usize = 0;
        while k < segments.len()
            invariant
                k <= segments.len(),
                borrowed.len() == k,
                forall|j: int| 0 <= j < k ==> borrowed@[j]@ == segments@[j]@,
            decreases segments.len() - k,
        {
            borrowed.push_back(segments[k].as_segment());
            k += 1;
        }
        let r = ViewPath { segments: borrowed };
        assert(r@ =~= segment_buf_models(segments@));
        r
    }
}

impl<'collection: 'item, 'item> FromSpecImpl<&'collection [SegmentBuf]> for ViewPath<'item> {
    /// The segments lie behind the path's view, so `from` itself states
    /// what comes out.
    open spec fn obeys_from_spec() -> bool {
        false
    }

    open spec fn from_spec(segments: &'collection [SegmentBuf]) -> Self {
        arbitrary()
    }
}

impl From<VecDeque<SegmentBuf>> for ViewPathBuf {
    /// The path of these segments.
    fn from(segments: VecDeque<SegmentBuf>) -> (r: Self)
        ensures
            r.segments() == segments@,
            r@ == segment_buf_models(segments@),
    {
        ViewPathBuf { segments }
    }
}

impl FromSpecImpl<VecDeque<SegmentBuf>> for ViewPathBuf {
    /// The segments lie behind the path's view, so `from` itself states
    /// what comes out.
    open spec fn obeys_from_spec() -> bool {
        false
    }

    open spec fn from_spec(segments: VecDeque<SegmentBuf>) -> Self {
        arbitrary()
    }
}

impl From<String> for ViewPathBuf {
    /// The path of one field, read from text as a field is.
    fn from(input: String) -> (r: Self)
        ensures
            r@ == seq![SegmentModel::Field(field_of_text(input@))],
    {
        ViewPathBuf::single(SegmentBuf::from(input))
    }
}

impl FromSpecImpl<String> for ViewPathBuf {
    /// The segments lie behind the path's view, so `from` itself states
    /// what comes out.
    open spec fn obeys_from_spec() -> bool {
        false
    }

    open spec fn from_spec(input: String) -> Self {
        arbitrary()
    }
}

impl<'a> From<Cow<'a, str>> for ViewPathBuf {
    /// The path of one field, read from text as a field is.
    fn from(input: Cow<'a, str>) -> (r: Self)
        ensures
            r@ == seq![SegmentModel::Field(field_of_text(input@))],
    {
        match input {
            Cow::Borrowed(text) => ViewPathBuf::single(SegmentBuf::from(text)),
            Cow::Owned(text) => ViewPathBuf::single(SegmentBuf::from(text)),
        }
    }
}

impl<'a> FromSpecImpl<Cow<'a, str>> for ViewPathBuf {
    /// The segments lie behind the path's view, so `from` itself states
    /// what comes out.
    open spec fn obeys_from_spec() -> bool {
        false
    }

    open spec fn from_spec(input: Cow<'a, str>) -> Self {
        arbitrary()
    }
}

impl From<SegmentBuf> for ViewPathBuf {
    /// The path of one segment.
    fn from(input: SegmentBuf) -> (r: Self)
        ensures
            r.segments() == seq![input],
            r@ == seq![input@],
    {
        ViewPathBuf::single(input)
    }
}

impl FromSpecImpl<SegmentBuf> for ViewPathBuf {
    /// The segments lie behind the path's view, so `from` itself states
    /// what comes out.
    open spec fn obeys_from_spec() -> bool {
        false
    }

    open spec fn from_spec(input: SegmentBuf) -> Self {
        arbitrary()
    }
}

impl From<isize> for ViewPathBuf {
    /// The path of one index.
    fn from(input: isize) -> (r: Self)
        ensures
            r@ == seq![SegmentModel::Index(input as int)],
    {
        ViewPathBuf::single(SegmentBuf::Index(input))
    }
}

impl FromSpecImpl<isize> for ViewPathBuf {
    /// The segments lie behind the path's view, so `from` itself states
    /// what comes out.
    open spec fn obeys_from_spec() -> bool {
        false
    }

    open spec fn from_spec(input: isize) -> Self {
        arbitrary()
    }
}

impl<'a> From<&'a str> for ViewPathBuf {
    /// The path of one field, read from text as a field is.
    fn from(input: &'a str) -> (r: Self)
        ensures
            r@ == seq![SegmentModel::Field(field_of_text(input@))],
    {
        ViewPathBuf::single(SegmentBuf::from(input))
    }
}

impl<'a> FromSpecImpl<&'a str> for ViewPathBuf {
    /// The segments lie behind the path's view, so `from` itself states
    /// what comes out.
    open spec fn obeys_from_spec() -> bool {
        false
    }

    open spec fn from_spec(input: &'a str) -> Self {
        arbitrary()
    }
}

impl From<FieldBuf> for ViewPathBuf {
    /// The path of one field.
    fn from(field: FieldBuf) -> (r: Self)
        ensures
            r.segments() == seq![SegmentBuf::Field(field)],
            r@ == seq![SegmentModel::Field(field@)],
    {
        ViewPathBuf::single(SegmentBuf::Field(field))
    }
}

impl FromSpecImpl<FieldBuf> for ViewPathBuf {
    /// The segments lie behind the path's view, so `from` itself states
    /// what comes out.
    open spec fn obeys_from_spec() -> bool {
        false
    }

    open spec fn from_spec(field: FieldBuf) -> Self {
        arbitrary()
    }
}

impl<'a> From<ViewPath<'a>> for ViewPathBuf {
    /// An owned copy of the path.
    fn from(v: ViewPath<'a>) -> (r: Self)
        ensures
            r@ == v@,
    {
        v.into_buf()
    }
}

impl<'a> FromSpecImpl<ViewPath<'a>> for ViewPathBuf {
    /// The segments lie behind the path's view, so `from` itself states
    /// what comes out.
    open spec fn obeys_from_spec() -> bool {
        false
    }

    open spec fn from_spec(v: ViewPath<'a>) -> Self {
        arbitrary()
    }
}

impl<'a> std::ops::Index<usize> for ViewPath<'a> {
    type Output = Segment<'a>;

    /// The segment at a position that the path has.
    fn index(&self, index: usize) -> (r: &Segment<'a>)
        ensures
            *r == self.segments()[index as int],
            r@ == self@[index as int],
    {
        &self.segments[index]
    }
}

impl<'a> vstd::std_specs::core::IndexSpecImpl<usize> for ViewPath<'a> {
    open spec fn index_req(&self, index: &usize) -> bool {
        *index < self@.len()
    }
}

impl<'a> std::ops::IndexMut<usize> for ViewPath<'a> {
    /// The segment at a position that the path has, for changing it in
    /// place. The other segments stay as they are.
    fn index_mut(&mut self, index: usize) -> (r: &mut Segment<'a>)
        requires
            index < old(self)@.len(),
        ensures
            *r == old(self).segments()[index as int],
            final(self).segments() == old(self).segments().update(index as int, *final(r)),
            final(self)@ == old(self)@.update(index as int, final(r)@),
    {
        self.get_mut(index).unwrap()
    }
}

impl std::ops::Index<usize> for ViewPathBuf {
    type Output = SegmentBuf;

    /// The segment at a position that the path has.
    fn index(&self, index: usize) -> (r: &SegmentBuf)
        ensures
            *r == self.segments()[index as int],
            r@ == self@[index as int],
    {
        &self.segments[index]
    }
}

impl vstd::std_specs::core::IndexSpecImpl<usize> for ViewPathBuf {
    open spec fn index_req(&self, index: &usize) -> bool {
        *index < self@.len()
    }
}

impl std::ops::IndexMut<usize> for ViewPathBuf {
    /// The segment at a position that the path has, for changing it in
    /// place. The other segments stay as they are.
    fn index_mut(&mut self, index: usize) -> (r: &mut SegmentBuf)
        requires
            index < old(self)@.len(),
        ensures
            *r == old(self).segments()[index as int],
            final(self).segments() == old(self).segments().update(index as int, *final(r)),
            final(self)@ == old(self)@.update(index as int, final(r)@),
    {
        self.get_mut(index).unwrap()
    }
}

impl<'a> IntoIterator for ViewPath<'a> {
    type Item = Segment<'a>;

    type IntoIter = std::vec::IntoIter<Segment<'a>>;

    /// Hands the segments out, from the root outwards.
    fn into_iter(self) -> (it: std::vec::IntoIter<Segment<'a>>)
        ensures
            it.remaining() == self.segments(),
            it.obeys_prophetic_iter_laws(),
            IteratorSpec::decrease(&it) is Some,
            IteratorSpec::initial_value_relation(&it, &it),
    {
        let mut rest = self.segments;
        let mut segments: Vec<Segment<'a>> = Vec::new();
        loop
            invariant
                segments@ + rest@ == self.segments(),
            decreases rest@.len(),
        {
            let ghost before = rest@;
            match rest.pop_front() {
                Some(segment) => {
                    segments.push(segment);
                    assert(segments@ + rest@ =~= self.segments()) by {
                        assert(before =~= seq![segment] + rest@);
                    }
                },
                None => {
                    assert(segments@ =~= self.segments());
                    return segments.into_iter();
                },
            }
        }
    }
}

impl IntoIterator for ViewPathBuf {
    type Item = SegmentBuf;

    type IntoIter = std::vec::IntoIter<SegmentBuf>;

    /// Hands the segments out, from the root outwards.
    fn into_iter(self) -> (it: std::vec::IntoIter<SegmentBuf>)
        ensures
            it.remaining() == self.segments(),
            it.obeys_prophetic_iter_laws(),
            IteratorSpec::decrease(&it) is Some,
            IteratorSpec::initial_value_relation(&it, &it),
    {
        let mut rest = self.segments;
        let mut segments: Vec<SegmentBuf> = Vec::new();
        loop
            invariant
                segments@ + rest@ == self.segments(),
            decreases rest@.len(),
        {
            let ghost before = rest@;
            match rest.pop_front() {
                Some(segment) => {
                    segments.push(segment);
                    assert(segments@ + rest@ =~= self.segments()) by {
                        assert(before =~= seq![segment] + rest@);
                    }
                },
                None => {
                    assert(segments@ =~= self.segments());
                    return segments.into_iter();
                },
            }
        }
    }
}

impl<'a> AsRef<ViewPath<'a>> for ViewPath<'a> {
    fn as_ref(&self) -> (r: &ViewPath<'a>)
        ensures
            r == self,
    {
        self
    }
}

impl std::str::FromStr for ViewPathBuf {
    type Err = Error;

    /// Reads the path that a text denotes: see [`ViewPathBuf::parse_str`].
    fn from_str(input: &str) -> (r: Result<Self, Error>)
        ensures
            match r {
                Ok(path) => parse_path(input@) == Ok::<PathModel, SyntaxFault>(path@),
                Err(Error::InvalidPath(message)) => parse_path(input@) is Err && message@
                    == fault_text(parse_path(input@)->Err_0),
            },
    {
        ViewPathBuf::parse_str(input)
    }
}

} // verus!

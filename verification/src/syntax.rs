//! The written form of a path: how a path is printed, and which texts are
//! paths.

use crate::field::{field_of_text, is_field_name, FieldModel};
use crate::segment::{render_segment, SegmentModel};
use crate::text::{integer_of_text, is_word};
use vstd::prelude::*;

verus! {

/// A path, whichever way its names are stored: its segments from the root
/// outwards.
pub type PathModel = Seq<SegmentModel>;

/// Whether a segment is joined to the one before it by a dot: fields and
/// alternatives are, an index is not.
pub open spec fn takes_dot(segment: SegmentModel) -> bool {
    segment is Field || segment is Coalesce
}

/// How a segment is printed inside a path: an index between square
/// brackets, anything else as it prints on its own.
pub open spec fn format_step(segment: SegmentModel) -> Seq<char> {
    match segment {
        SegmentModel::Index(_) => seq!['['] + render_segment(segment) + seq![']'],
        _ => render_segment(segment),
    }
}

/// How a path is printed: its segments in order, each followed by a dot
/// where the next one is a field or a list of alternatives. The root, which
/// has no segments, prints as the empty text.
pub open spec fn format_path(path: PathModel) -> Seq<char>
    decreases path.len(),
{
    if path.len() == 0 {
        Seq::empty()
    } else if path.len() > 1 && takes_dot(path[1]) {
        format_step(path[0]) + seq!['.'] + format_path(path.skip(1))
    } else {
        format_step(path[0]) + format_path(path.skip(1))
    }
}

/// What printing segment `n` adds to the print of the segments before it.
pub open spec fn format_piece(path: PathModel, n: int) -> Seq<char>
    recommends
        0 <= n < path.len(),
{
    if n + 1 < path.len() && takes_dot(path[n + 1]) {
        format_step(path[n]) + seq!['.']
    } else {
        format_step(path[n])
    }
}

/// The print of the first `n` segments as they stand inside the whole
/// path: each with the dot that its successor asks for.
pub open spec fn format_prefix(path: PathModel, n: int) -> Seq<char>
    recommends
        0 <= n <= path.len(),
    decreases n,
{
    if n <= 0 {
        Seq::empty()
    } else {
        format_prefix(path, n - 1) + format_piece(path, n - 1)
    }
}

/// Printing a path piece by piece from the front gives the print of the
/// path.
pub proof fn lemma_format_prefix_whole(path: PathModel)
    ensures
        format_prefix(path, path.len() as int) == format_path(path),
    decreases path.len(),
{
    if path.len() > 0 {
        lemma_format_prefix_shift(path, path.len() as int);
        lemma_format_prefix_whole(path.skip(1));
        assert(format_piece(path, 0) + format_path(path.skip(1)) =~= format_path(path));
    }
}

/// The pieces after the first are the pieces of the path without its first
/// segment.
pub proof fn lemma_format_prefix_shift(path: PathModel, n: int)
    requires
        0 < n <= path.len(),
    ensures
        format_prefix(path, n) == format_piece(path, 0) + format_prefix(path.skip(1), n - 1),
    decreases n,
{
    if n == 1 {
        assert(format_prefix(path, 0) =~= Seq::<char>::empty());
        assert(format_prefix(path.skip(1), 0) =~= Seq::<char>::empty());
        assert(format_prefix(path, 1) =~= format_piece(path, 0));
        assert(format_piece(path, 0) + Seq::<char>::empty() =~= format_piece(path, 0));
    } else {
        lemma_format_prefix_shift(path, n - 1);
        assert(format_piece(path, n - 1) == format_piece(path.skip(1), n - 2));
        assert(format_prefix(path, n) =~= format_piece(path, 0) + format_prefix(
            path.skip(1),
            n - 1,
        ));
    }
}

/// Why a text is not a path.
#[derive(Debug, Clone, Copy, PartialEq, Eq, Structural)]
pub enum SyntaxFault {
    /// Where a field name is due stands something that is none: a
    /// character that no bare name holds, a run of digits alone, or
    /// nothing at all.
    MalformedField,
    /// A double quote opens a name and none closes it.
    UnterminatedQuote,
    /// A square bracket opens an index and none closes it.
    UnterminatedBracket,
    /// What stands between square brackets is no integer, or one that an
    /// index cannot hold.
    InvalidIndex,
    /// Inside round brackets a name is followed by something other than
    /// a bar or the closing bracket.
    MalformedCoalesce,
    /// A round bracket opens a list of alternatives and the text ends
    /// before it is closed.
    UnterminatedCoalesce,
}

/// The first position at or after `from` that holds no word character.
pub open spec fn word_end(s: Seq<char>, from: int) -> int
    decreases s.len() - from,
{
    if 0 <= from < s.len() && is_word(s[from]) {
        word_end(s, from + 1)
    } else {
        from
    }
}

/// The first position at or after `from` that holds no space.
pub open spec fn space_end(s: Seq<char>, from: int) -> int
    decreases s.len() - from,
{
    if 0 <= from < s.len() && s[from] == ' ' {
        space_end(s, from + 1)
    } else {
        from
    }
}

/// The first position at or after `from` that holds `c`.
pub open spec fn position_from(s: Seq<char>, c: char, from: int) -> Option<int>
    decreases s.len() - from,
{
    if from < 0 || from >= s.len() {
        None
    } else if s[from] == c {
        Some(from)
    } else {
        position_from(s, c, from + 1)
    }
}

/// Whether position `k` holds a double quote that ends a quoted name: one
/// that does not stand directly behind a backslash.
pub open spec fn closes_quote(s: Seq<char>, k: int) -> bool {
    0 < k < s.len() && s[k] == '"' && s[k - 1] != '\\'
}

/// The first position at or after `from` that ends a quoted name.
pub open spec fn closing_quote(s: Seq<char>, from: int) -> Option<int>
    decreases s.len() - from,
{
    if from < 0 || from >= s.len() {
        None
    } else if closes_quote(s, from) {
        Some(from)
    } else {
        closing_quote(s, from + 1)
    }
}

/// Reads a field name that starts at `from`, and says where it ends. A
/// name that starts with a double quote runs up to the first double quote
/// that does not follow a backslash. Any other name is the longest run of
/// word characters, which must not be digits alone. Either way the field
/// is what the text of the name stands for, quotes included.
pub open spec fn read_field(s: Seq<char>, from: int) -> Result<(FieldModel, int), SyntaxFault> {
    if 0 <= from < s.len() && s[from] == '"' {
        match closing_quote(s, from + 1) {
            Some(k) => Ok((field_of_text(s.subrange(from, k + 1)), k + 1)),
            None => Err(SyntaxFault::UnterminatedQuote),
        }
    } else {
        let end = word_end(s, from);
        if is_field_name(s.subrange(from, end)) {
            Ok((field_of_text(s.subrange(from, end)), end))
        } else {
            Err(SyntaxFault::MalformedField)
        }
    }
}

/// Reads the index whose opening bracket stands at `from`, and says where
/// the step ends: an integer that fits an index, up to the first closing
/// bracket.
pub open spec fn read_index(s: Seq<char>, from: int) -> Result<(int, int), SyntaxFault> {
    match position_from(s, ']', from + 1) {
        None => Err(SyntaxFault::UnterminatedBracket),
        Some(k) => match integer_of_text(s.subrange(from + 1, k)) {
            Some(i) => if isize::MIN <= i <= isize::MAX {
                Ok((i, k + 1))
            } else {
                Err(SyntaxFault::InvalidIndex)
            },
            None => Err(SyntaxFault::InvalidIndex),
        },
    }
}

/// Reads alternatives from `from`, which lies behind the opening round
/// bracket or behind a bar, up to the closing round bracket, and says
/// where the step ends. Spaces may stand around each name.
pub open spec fn read_alternatives(s: Seq<char>, from: int) -> Result<
    (Seq<FieldModel>, int),
    SyntaxFault,
>
    decreases s.len() - from,
    via read_alternatives_decreases
{
    let start = space_end(s, from);
    if start >= s.len() {
        Err(SyntaxFault::UnterminatedCoalesce)
    } else {
        match read_field(s, start) {
            Err(fault) => Err(fault),
            Ok((field, end)) => {
                let next = space_end(s, end);
                if next >= s.len() {
                    Err(SyntaxFault::UnterminatedCoalesce)
                } else if s[next] == ')' {
                    Ok((seq![field], next + 1))
                } else if s[next] == '|' {
                    match read_alternatives(s, next + 1) {
                        Ok((fields, after)) => Ok((seq![field] + fields, after)),
                        Err(fault) => Err(fault),
                    }
                } else {
                    Err(SyntaxFault::MalformedCoalesce)
                }
            },
        }
    }
}

/// Each further alternative starts behind a name and a bar, so the reading
/// comes to an end.
#[via_fn]
proof fn read_alternatives_decreases(s: Seq<char>, from: int) {
    if from < 0 {
        assert(space_end(s, from) == from);
        assert(word_end(s, from) == from);
    } else if from <= s.len() {
        let start = space_end(s, from);
        lemma_space_end_bounds(s, from);
        if let Ok((field, end)) = read_field(s, start) {
            lemma_read_field_bounds(s, start);
            lemma_space_end_bounds(s, end);
        }
    }
}

/// Reads the step that starts at `from`, and says where it ends. An
/// opening square bracket starts an index. Anything else is a field or, in
/// round brackets, a list of alternatives, and may have one dot in front.
pub open spec fn read_step(s: Seq<char>, from: int) -> Result<(SegmentModel, int), SyntaxFault>
    recommends
        0 <= from < s.len(),
{
    if s[from] == '[' {
        match read_index(s, from) {
            Ok((i, end)) => Ok((SegmentModel::Index(i), end)),
            Err(fault) => Err(fault),
        }
    } else {
        let start = if s[from] == '.' {
            from + 1
        } else {
            from
        };
        if start < s.len() && s[start] == '(' {
            match read_alternatives(s, start + 1) {
                Ok((fields, end)) => Ok((SegmentModel::Coalesce(fields), end)),
                Err(fault) => Err(fault),
            }
        } else {
            match read_field(s, start) {
                Ok((field, end)) => Ok((SegmentModel::Field(field), end)),
                Err(fault) => Err(fault),
            }
        }
    }
}

/// Reads steps from `from` to the end of the text.
pub open spec fn parse_from(s: Seq<char>, from: int) -> Result<PathModel, SyntaxFault>
    decreases s.len() - from,
    via parse_from_decreases
{
    if from < 0 || from >= s.len() {
        Ok(PathModel::empty())
    } else {
        match read_step(s, from) {
            Err(fault) => Err(fault),
            Ok((segment, end)) => match parse_from(s, end) {
                Ok(rest) => Ok(seq![segment] + rest),
                Err(fault) => Err(fault),
            },
        }
    }
}

/// Each step holds at least one character, so the reading comes to an end.
#[via_fn]
proof fn parse_from_decreases(s: Seq<char>, from: int) {
    if 0 <= from < s.len() {
        lemma_read_step_bounds(s, from);
    }
}

/// The path that a text denotes, or why it denotes none. A path is a run
/// of steps: `a.b[0].c`, `a[0][1]`, `(a | b).c`, `"a name".b`. The empty
/// text is the root.
pub open spec fn parse_path(s: Seq<char>) -> Result<PathModel, SyntaxFault> {
    parse_from(s, 0)
}

/// A run of word characters ends at or after its start, within the text.
pub proof fn lemma_word_end_bounds(s: Seq<char>, from: int)
    requires
        0 <= from <= s.len(),
    ensures
        from <= word_end(s, from) <= s.len(),
        forall|k: int| from <= k < word_end(s, from) ==> is_word(#[trigger] s[k]),
        word_end(s, from) < s.len() ==> !is_word(s[word_end(s, from)]),
    decreases s.len() - from,
{
    if from < s.len() && is_word(s[from]) {
        lemma_word_end_bounds(s, from + 1);
    }
}

/// A run of spaces ends at or after its start, within the text.
pub proof fn lemma_space_end_bounds(s: Seq<char>, from: int)
    requires
        0 <= from <= s.len(),
    ensures
        from <= space_end(s, from) <= s.len(),
    decreases s.len() - from,
{
    if from < s.len() && s[from] == ' ' {
        lemma_space_end_bounds(s, from + 1);
    }
}

/// Where a character is found, it stands, and nowhere between the start
/// of the search and that place.
pub proof fn lemma_position_from(s: Seq<char>, c: char, from: int)
    requires
        0 <= from,
    ensures
        match position_from(s, c, from) {
            Some(k) => from <= k < s.len() && s[k] == c && forall|j: int|
                from <= j < k ==> #[trigger] s[j] != c,
            None => forall|j: int| from <= j < s.len() ==> #[trigger] s[j] != c,
        },
    decreases s.len() - from,
{
    if from < s.len() && s[from] != c {
        lemma_position_from(s, c, from + 1);
    }
}

/// Where a closing quote is found, it is one, and the first from the
/// start of the search.
pub proof fn lemma_closing_quote(s: Seq<char>, from: int)
    requires
        0 <= from,
    ensures
        match closing_quote(s, from) {
            Some(k) => from <= k < s.len() && closes_quote(s, k) && forall|j: int|
                from <= j < k ==> !#[trigger] closes_quote(s, j),
            None => forall|j: int| from <= j < s.len() ==> !#[trigger] closes_quote(s, j),
        },
    decreases s.len() - from,
{
    if from < s.len() && !closes_quote(s, from) {
        lemma_closing_quote(s, from + 1);
    }
}

/// A field name holds at least one character and ends within the text.
pub proof fn lemma_read_field_bounds(s: Seq<char>, from: int)
    requires
        0 <= from <= s.len(),
    ensures
        read_field(s, from) matches Ok((_, end)) ==> from < end <= s.len(),
{
    if from < s.len() && s[from] == '"' {
        lemma_closing_quote(s, from + 1);
    } else {
        lemma_word_end_bounds(s, from);
        let end = word_end(s, from);
        if is_field_name(s.subrange(from, end)) {
            assert(s.subrange(from, end).len() > 0);
        }
    }
}

/// A list of alternatives holds at least one name and ends within the
/// text.
pub proof fn lemma_read_alternatives_bounds(s: Seq<char>, from: int)
    requires
        0 <= from <= s.len(),
    ensures
        read_alternatives(s, from) matches Ok((fields, end)) ==> from < end <= s.len()
            && fields.len() > 0,
    decreases s.len() - from,
{
    let start = space_end(s, from);
    lemma_space_end_bounds(s, from);
    if start < s.len() {
        if let Ok((field, end)) = read_field(s, start) {
            lemma_read_field_bounds(s, start);
            lemma_space_end_bounds(s, end);
            let next = space_end(s, end);
            if next < s.len() && s[next] == '|' {
                lemma_read_alternatives_bounds(s, next + 1);
            }
        }
    }
}

/// A step holds at least one character and ends within the text.
pub proof fn lemma_read_step_bounds(s: Seq<char>, from: int)
    requires
        0 <= from < s.len(),
    ensures
        read_step(s, from) matches Ok((_, end)) ==> from < end <= s.len(),
{
    if s[from] == '[' {
        lemma_position_from(s, ']', from + 1);
    } else {
        let start = if s[from] == '.' {
            from + 1
        } else {
            from
        };
        if start < s.len() && s[start] == '(' {
            lemma_read_alternatives_bounds(s, start + 1);
        } else {
            lemma_read_field_bounds(s, start);
        }
    }
}

} // verus!

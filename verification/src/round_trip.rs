//! Printing and reading are inverse to each other: a path that was read
//! from text prints as a text that reads as the same path.

use crate::field::{is_field_name, is_quote_wrapped, render_field, FieldModel};
use crate::segment::{render_alternatives, SegmentModel};
use crate::syntax::{
    closes_quote, closing_quote, format_path, format_step, lemma_closing_quote,
    lemma_read_field_bounds, lemma_read_step_bounds, lemma_space_end_bounds,
    lemma_word_end_bounds, parse_from, parse_path, position_from, read_alternatives, read_field,
    read_index, read_step, space_end, takes_dot, word_end, PathModel, SyntaxFault,
};
use crate::text::{
    all_digits, decimal, decimal_nat, digit_char, digit_value, digits_value, integer_of_text,
    is_digit, is_word,
};
use vstd::prelude::*;

verus! {

/// The names that can stand between double quotes: every double quote in
/// them follows a backslash, and they do not end in a backslash.
pub open spec fn quotable(name: Seq<char>) -> bool {
    &&& forall|k: int|
        0 <= k < name.len() && #[trigger] name[k] == '"' ==> k > 0 && name[k - 1] == '\\'
    &&& name.len() > 0 ==> name.last() != '\\'
}

/// The fields that print as text that reads as the same field: a quoted
/// one with a name that can stand between quotes, an unquoted one with a
/// name that can stand bare.
pub open spec fn printable_field(field: FieldModel) -> bool {
    if field.requires_quoting {
        quotable(field.name)
    } else {
        is_field_name(field.name)
    }
}

/// The segments that print as text that reads as the same segment: a
/// printable field, an index that fits the machine, or printable
/// alternatives, at least one.
pub open spec fn printable_segment(segment: SegmentModel) -> bool {
    match segment {
        SegmentModel::Field(field) => printable_field(field),
        SegmentModel::Index(i) => isize::MIN <= i <= isize::MAX,
        SegmentModel::Coalesce(fields) => fields.len() > 0 && forall|k: int|
            0 <= k < fields.len() ==> printable_field(#[trigger] fields[k]),
    }
}

/// The paths whose segments are all printable.
pub open spec fn printable_path(path: PathModel) -> bool {
    forall|k: int| 0 <= k < path.len() ==> printable_segment(#[trigger] path[k])
}

/// Whether a character can be the first of a field as it prints.
pub open spec fn starts_field(c: char) -> bool {
    c == '"' || is_word(c)
}

/// A run of word characters that is followed by none ends where it is said
/// to.
proof fn lemma_word_end_is(s: Seq<char>, from: int, end: int)
    requires
        0 <= from <= end <= s.len(),
        forall|k: int| from <= k < end ==> is_word(#[trigger] s[k]),
        end == s.len() || !is_word(s[end]),
    ensures
        word_end(s, from) == end,
    decreases end - from,
{
    if from < end {
        lemma_word_end_is(s, from + 1, end);
    }
}

/// A closing quote that none comes before is the one that is found.
proof fn lemma_closing_quote_is(s: Seq<char>, from: int, k: int)
    requires
        0 <= from <= k < s.len(),
        closes_quote(s, k),
        forall|j: int| from <= j < k ==> !#[trigger] closes_quote(s, j),
    ensures
        closing_quote(s, from) == Some(k),
    decreases k - from,
{
    if from < k {
        lemma_closing_quote_is(s, from + 1, k);
    }
}

/// A character that does not occur earlier is found where it stands.
proof fn lemma_position_is(s: Seq<char>, c: char, from: int, k: int)
    requires
        0 <= from <= k < s.len(),
        s[k] == c,
        forall|j: int| from <= j < k ==> #[trigger] s[j] != c,
    ensures
        position_from(s, c, from) == Some(k),
    decreases k - from,
{
    if from < k {
        lemma_position_is(s, c, from + 1, k);
    }
}

/// A printable field prints as text that starts like a field and is not
/// empty.
pub proof fn lemma_rendered_field_start(field: FieldModel)
    requires
        printable_field(field),
    ensures
        render_field(field).len() > 0,
        starts_field(render_field(field)[0]),
{
    if !field.requires_quoting {
        let k = choose|k: int| 0 <= k < field.name.len() && !is_digit(#[trigger] field.name[k]);
        assert(is_word(field.name[0]));
    }
}

/// What a printable field prints as reads as that field, whatever stands
/// before it; behind a bare name the text has to end or go on with a
/// character that no bare name holds.
pub proof fn lemma_read_rendered_field(pre: Seq<char>, field: FieldModel, tail: Seq<char>)
    requires
        printable_field(field),
        field.requires_quoting || tail.len() == 0 || !is_word(tail[0]),
    ensures
        read_field(pre + render_field(field) + tail, pre.len() as int) == Ok::<
            (FieldModel, int),
            SyntaxFault,
        >((field, (pre.len() + render_field(field).len()) as int)),
{
    let text = render_field(field);
    let s = pre + text + tail;
    let from = pre.len() as int;
    let end = from + text.len();
    lemma_rendered_field_start(field);
    assert(forall|k: int| 0 <= k < text.len() ==> s[from + k] == text[k]);
    assert(s.subrange(from, end) =~= text);
    let name = field.name;
    if field.requires_quoting {
        let k = end - 1;
        assert(s[k] == text[text.len() - 1]);
        assert(s[from] == text[0]);
        assert forall|j: int| from + 1 <= j < k implies !#[trigger] closes_quote(s, j) by {
            assert(s[j] == text[j - from]);
            assert(text[j - from] == name[j - from - 1]);
            if s[j] == '"' {
                assert(name[j - from - 1] == '"');
                assert(s[j - 1] == text[j - 1 - from]);
                assert(text[j - 1 - from] == name[j - from - 2]);
            }
        }
        assert(closes_quote(s, k)) by {
            assert(s[k - 1] == text[text.len() - 2]);
            if name.len() > 0 {
                assert(text[text.len() - 2] == name.last());
            }
        }
        lemma_closing_quote_is(s, from + 1, k);
        assert(is_quote_wrapped(text));
        assert(text.subrange(1, text.len() - 1) =~= name);
    } else {
        assert(text == name);
        assert(is_word(name[0]));
        assert forall|k: int| from <= k < end implies is_word(#[trigger] s[k]) by {
            assert(s[k] == name[k - from]);
        }
        if end < s.len() {
            assert(s[end] == tail[0]);
        }
        lemma_word_end_is(s, from, end);
        assert(!is_quote_wrapped(name));
    }
}

/// A natural number in decimal is a run of digits, one at least, that
/// denotes the number.
pub proof fn lemma_decimal_nat(n: nat)
    ensures
        decimal_nat(n).len() > 0,
        all_digits(decimal_nat(n)),
        digits_value(decimal_nat(n)) == n,
    decreases n,
{
    if n < 10 {
        let s = decimal_nat(n);
        assert(s.drop_last().len() == 0);
        assert(digits_value(s.drop_last()) == 0);
        assert(s.last() == digit_char(n as int));
        assert(digit_value(digit_char(n as int)) == n);
    } else {
        lemma_decimal_nat(n / 10);
        let s = decimal_nat(n);
        let head = decimal_nat(n / 10);
        let d = (n % 10) as int;
        assert(s == head.push(digit_char(d)));
        assert(s.drop_last() =~= head);
        assert(s.last() == digit_char(d));
        assert(digit_value(digit_char(d)) == d);
        assert(is_digit(digit_char(d)));
        assert forall|i: int| 0 <= i < s.len() implies is_digit(#[trigger] s[i]) by {
            if i < head.len() {
                assert(s[i] == head[i]);
            }
        }
    }
}

/// An integer in decimal denotes that integer, and holds digits and at
/// most a minus sign.
pub proof fn lemma_decimal(i: int)
    ensures
        integer_of_text(decimal(i)) == Some(i),
        forall|k: int|
            0 <= k < decimal(i).len() ==> is_digit(#[trigger] decimal(i)[k]) || decimal(i)[k]
                == '-',
{
    if i < 0 {
        lemma_decimal_nat((-i) as nat);
        let s = decimal(i);
        let digits = decimal_nat((-i) as nat);
        assert(s[0] == '-');
        assert(s.skip(1) =~= digits);
        assert forall|k: int| 0 <= k < s.len() implies is_digit(#[trigger] s[k]) || s[k]
            == '-' by {
            if k > 0 {
                assert(s[k] == digits[k - 1]);
            }
        }
    } else {
        lemma_decimal_nat(i as nat);
        let s = decimal(i);
        assert(is_digit(s[0]));
    }
}

/// What an index prints as inside a path reads as that index, whatever
/// stands around it.
pub proof fn lemma_read_formatted_index(pre: Seq<char>, i: int, tail: Seq<char>)
    requires
        isize::MIN <= i <= isize::MAX,
    ensures
        read_index(
            pre + format_step(SegmentModel::Index(i)) + tail,
            pre.len() as int,
        ) == Ok::<(int, int), SyntaxFault>(
            (i, (pre.len() + format_step(SegmentModel::Index(i)).len()) as int),
        ),
{
    let number = decimal(i);
    let text = format_step(SegmentModel::Index(i));
    assert(text =~= seq!['['] + number + seq![']']);
    let s = pre + text + tail;
    let from = pre.len() as int;
    let close = from + 1 + number.len();
    lemma_decimal(i);
    assert(forall|k: int| 0 <= k < text.len() ==> s[from + k] == text[k]);
    assert(s[close] == text[close - from]);
    assert forall|j: int| from + 1 <= j < close implies #[trigger] s[j] != ']' by {
        assert(s[j] == text[j - from]);
        assert(text[j - from] == number[j - from - 1]);
    }
    lemma_position_is(s, ']', from + 1, close);
    assert(s.subrange(from + 1, close) =~= number);
}

/// A name that is followed by the closing bracket is read as the last
/// alternative.
proof fn lemma_last_alternative(s: Seq<char>, from: int, field: FieldModel, end: int)
    requires
        0 <= from < s.len(),
        s[from] != ' ',
        read_field(s, from) == Ok::<(FieldModel, int), SyntaxFault>((field, end)),
        from < end < s.len(),
        s[end] == ')',
    ensures
        read_alternatives(s, from) == Ok::<(Seq<FieldModel>, int), SyntaxFault>(
            (seq![field], end + 1),
        ),
{
    assert(space_end(s, from) == from);
    assert(space_end(s, end) == end);
}

/// A name that is followed by a bar between two spaces is read as an
/// alternative in front of those that follow.
proof fn lemma_next_alternative(
    s: Seq<char>,
    from: int,
    field: FieldModel,
    end: int,
    rest: Seq<FieldModel>,
    after: int,
)
    requires
        0 <= from < s.len(),
        s[from] != ' ',
        read_field(s, from) == Ok::<(FieldModel, int), SyntaxFault>((field, end)),
        from < end,
        end + 3 < s.len(),
        s[end] == ' ',
        s[end + 1] == '|',
        s[end + 2] == ' ',
        s[end + 3] != ' ',
        read_alternatives(s, end + 3) == Ok::<(Seq<FieldModel>, int), SyntaxFault>(
            (rest, after),
        ),
    ensures
        read_alternatives(s, from) == Ok::<(Seq<FieldModel>, int), SyntaxFault>(
            (seq![field] + rest, after),
        ),
{
    assert(space_end(s, from) == from);
    assert(space_end(s, end + 1) == end + 1);
    assert(space_end(s, end) == end + 1);
    assert(space_end(s, end + 3) == end + 3);
    assert(space_end(s, end + 2) == end + 3);
    assert(read_alternatives(s, end + 2) == read_alternatives(s, end + 3));
}

/// Printable alternatives, one at least, print as text that starts like a
/// field.
pub proof fn lemma_rendered_alternatives_start(fields: Seq<FieldModel>)
    requires
        fields.len() > 0,
        printable_field(fields[0]),
    ensures
        render_alternatives(fields).len() > 0,
        starts_field(render_alternatives(fields)[0]),
{
    lemma_rendered_field_start(fields[0]);
}

/// What printable alternatives print as, with the closing bracket behind
/// them, reads as those alternatives, whatever stands around them.
pub proof fn lemma_read_rendered_alternatives(
    pre: Seq<char>,
    fields: Seq<FieldModel>,
    tail: Seq<char>,
)
    requires
        fields.len() > 0,
        forall|k: int| 0 <= k < fields.len() ==> printable_field(#[trigger] fields[k]),
    ensures
        read_alternatives(
            pre + render_alternatives(fields) + seq![')'] + tail,
            pre.len() as int,
        ) == Ok::<(Seq<FieldModel>, int), SyntaxFault>(
            (fields, (pre.len() + render_alternatives(fields).len() + 1) as int),
        ),
    decreases fields.len(),
{
    let first = fields[0];
    let text = render_field(first);
    let s = pre + render_alternatives(fields) + seq![')'] + tail;
    let from = pre.len() as int;
    let end = from + text.len();
    lemma_rendered_field_start(first);
    if fields.len() == 1 {
        let behind = seq![')'] + tail;
        assert(s =~= pre + text + behind);
        lemma_read_rendered_field(pre, first, behind);
        assert(s[from] == text[0]);
        assert(s[end] == behind[0]);
        lemma_last_alternative(s, from, first, end);
        assert(seq![first] =~= fields);
    } else {
        let rest = fields.skip(1);
        let bar = seq![' ', '|', ' '];
        let inner = render_alternatives(rest);
        let behind = bar + inner + seq![')'] + tail;
        let before = pre + text + bar;
        assert(printable_field(rest[0])) by {
            assert(rest[0] == fields[1]);
        }
        lemma_rendered_alternatives_start(rest);
        assert(s =~= pre + text + behind);
        assert(s =~= before + inner + seq![')'] + tail);
        lemma_read_rendered_field(pre, first, behind);
        assert forall|k: int| 0 <= k < rest.len() implies printable_field(#[trigger] rest[k]) by {
            assert(rest[k] == fields[k + 1]);
        }
        lemma_read_rendered_alternatives(before, rest, tail);
        assert(s[from] == text[0]);
        assert(s[end] == bar[0]);
        assert(s[end + 1] == bar[1]);
        assert(s[end + 2] == bar[2]);
        assert(s[end + 3] == inner[0]);
        lemma_next_alternative(
            s,
            from,
            first,
            end,
            rest,
            (before.len() + inner.len() + 1) as int,
        );
        assert(seq![first] + rest =~= fields);
    }
}

/// What a printable segment prints as inside a path reads as that segment,
/// whatever stands before it; behind a bare name the text has to end or go
/// on with a character that no bare name holds.
pub proof fn lemma_read_formatted_step(pre: Seq<char>, segment: SegmentModel, tail: Seq<char>)
    requires
        printable_segment(segment),
        segment matches SegmentModel::Field(field) ==> field.requires_quoting || tail.len() == 0
            || !is_word(tail[0]),
    ensures
        format_step(segment).len() > 0,
        read_step(pre + format_step(segment) + tail, pre.len() as int) == Ok::<
            (SegmentModel, int),
            SyntaxFault,
        >((segment, (pre.len() + format_step(segment).len()) as int)),
{
    let text = format_step(segment);
    let s = pre + text + tail;
    let from = pre.len() as int;
    match segment {
        SegmentModel::Index(i) => {
            assert(text =~= seq!['['] + decimal(i) + seq![']']);
            assert(s[from] == text[0]);
            lemma_read_formatted_index(pre, i, tail);
        },
        SegmentModel::Field(field) => {
            lemma_rendered_field_start(field);
            assert(s[from] == text[0]);
            lemma_read_rendered_field(pre, field, tail);
        },
        SegmentModel::Coalesce(fields) => {
            let inner = render_alternatives(fields);
            assert(text =~= seq!['('] + inner + seq![')']);
            assert(s[from] == text[0]);
            let before = pre + seq!['('];
            lemma_read_rendered_alternatives(before, fields, tail);
            assert(s =~= before + inner + seq![')'] + tail);
        },
    }
}

/// A printable path that is not the root prints as text that starts as
/// its first segment does: an index with an opening square bracket, a
/// field or alternatives with neither that nor a dot.
pub proof fn lemma_formatted_path_start(path: PathModel)
    requires
        printable_path(path),
        path.len() > 0,
    ensures
        format_path(path).len() > 0,
        path[0] is Index ==> format_path(path)[0] == '[',
        takes_dot(path[0]) ==> format_path(path)[0] != '[' && format_path(path)[0] != '.',
{
    let first = format_step(path[0]);
    assert(printable_segment(path[0]));
    match path[0] {
        SegmentModel::Index(i) => {
            assert(first =~= seq!['['] + decimal(i) + seq![']']);
        },
        SegmentModel::Field(field) => {
            lemma_rendered_field_start(field);
        },
        SegmentModel::Coalesce(fields) => {
            assert(first =~= seq!['('] + render_alternatives(fields) + seq![')']);
        },
    }
    assert(first.len() > 0);
    assert(format_path(path)[0] == first[0]);
}

/// A dot in front of a field or of alternatives changes nothing in what is
/// read.
pub proof fn lemma_leading_dot(s: Seq<char>, at: int)
    requires
        0 <= at,
        at + 1 < s.len(),
        s[at] == '.',
        s[at + 1] != '[',
        s[at + 1] != '.',
    ensures
        parse_from(s, at) == parse_from(s, at + 1),
{
    assert(read_step(s, at) == read_step(s, at + 1));
}

/// What a printable path prints as reads as that path, whatever stands
/// before it.
pub proof fn lemma_parse_formatted(pre: Seq<char>, path: PathModel)
    requires
        printable_path(path),
    ensures
        parse_from(pre + format_path(path), pre.len() as int) == Ok::<PathModel, SyntaxFault>(
            path,
        ),
    decreases path.len(),
{
    let from = pre.len() as int;
    if path.len() == 0 {
        assert(pre + format_path(path) =~= pre);
        assert(path =~= PathModel::empty());
    } else {
        let first = path[0];
        let rest = path.skip(1);
        let text = format_step(first);
        let behind = format_path(rest);
        let dotted = path.len() > 1 && takes_dot(path[1]);
        let dot = if dotted {
            seq!['.']
        } else {
            Seq::<char>::empty()
        };
        let tail = dot + behind;
        let s = pre + format_path(path);
        assert(format_path(path) =~= text + tail);
        assert(s =~= pre + text + tail);
        assert(printable_segment(first));
        assert forall|k: int| 0 <= k < rest.len() implies printable_segment(#[trigger] rest[k]) by {
            assert(rest[k] == path[k + 1]);
        }
        if rest.len() > 0 {
            lemma_formatted_path_start(rest);
            assert(rest[0] == path[1]);
            if !dotted {
                assert(tail =~= behind);
                assert(rest[0] is Index);
                assert(tail[0] == '[');
            }
        } else {
            assert(behind =~= Seq::<char>::empty());
            assert(tail =~= Seq::<char>::empty());
        }
        lemma_read_formatted_step(pre, first, tail);
        let end = from + text.len();
        if dotted {
            let before = pre + text + seq!['.'];
            lemma_parse_formatted(before, rest);
            assert(s =~= before + behind);
            assert(s[end] == tail[0]);
            assert(s[end + 1] == behind[0]);
            lemma_leading_dot(s, end);
        } else {
            let before = pre + text;
            lemma_parse_formatted(before, rest);
            assert(s =~= before + behind);
        }
        assert(parse_from(s, end) == Ok::<PathModel, SyntaxFault>(rest));
        assert(seq![first] + rest =~= path);
    }
}

/// A field that was read is printable.
pub proof fn lemma_read_field_printable(s: Seq<char>, from: int)
    requires
        0 <= from <= s.len(),
        read_field(s, from) is Ok,
    ensures
        printable_field(read_field(s, from)->Ok_0.0),
{
    if from < s.len() && s[from] == '"' {
        lemma_closing_quote(s, from + 1);
        let k = closing_quote(s, from + 1)->0;
        let token = s.subrange(from, k + 1);
        assert(is_quote_wrapped(token));
        let name = token.subrange(1, token.len() - 1);
        assert forall|j: int| 0 <= j < name.len() && #[trigger] name[j] == '"' implies j > 0
            && name[j - 1] == '\\' by {
            assert(name[j] == s[from + 1 + j]);
            assert(!closes_quote(s, from + 1 + j));
            if j > 0 {
                assert(name[j - 1] == s[from + j]);
            }
        }
        if name.len() > 0 {
            assert(name.last() == s[k - 1]);
        }
    } else {
        lemma_word_end_bounds(s, from);
        let token = s.subrange(from, word_end(s, from));
        let k = choose|k: int| 0 <= k < token.len() && !is_digit(#[trigger] token[k]);
        assert(is_word(token[0]));
        assert(!is_quote_wrapped(token));
    }
}

/// Alternatives that were read are printable, each of them.
pub proof fn lemma_read_alternatives_printable(s: Seq<char>, from: int)
    requires
        0 <= from <= s.len(),
        read_alternatives(s, from) is Ok,
    ensures
        printable_segment(SegmentModel::Coalesce(read_alternatives(s, from)->Ok_0.0)),
    decreases s.len() - from,
{
    let start = space_end(s, from);
    lemma_space_end_bounds(s, from);
    lemma_read_field_bounds(s, start);
    lemma_read_field_printable(s, start);
    let (field, end) = read_field(s, start)->Ok_0;
    let next = space_end(s, end);
    lemma_space_end_bounds(s, end);
    if s[next] == '|' {
        lemma_read_alternatives_printable(s, next + 1);
        let fields = read_alternatives(s, next + 1)->Ok_0.0;
        let all = seq![field] + fields;
        assert forall|k: int| 0 <= k < all.len() implies printable_field(#[trigger] all[k]) by {
            if k > 0 {
                assert(all[k] == fields[k - 1]);
            }
        }
    }
}

/// A path that was read is printable.
pub proof fn lemma_parsed_is_printable(s: Seq<char>, from: int)
    requires
        0 <= from <= s.len(),
        parse_from(s, from) is Ok,
    ensures
        printable_path(parse_from(s, from)->Ok_0),
    decreases s.len() - from,
{
    if from < s.len() {
        lemma_read_step_bounds(s, from);
        let (segment, end) = read_step(s, from)->Ok_0;
        lemma_parsed_is_printable(s, end);
        let rest = parse_from(s, end)->Ok_0;
        assert(printable_segment(segment)) by {
            if s[from] != '[' {
                let start = if s[from] == '.' {
                    from + 1
                } else {
                    from
                };
                if start < s.len() && s[start] == '(' {
                    lemma_read_alternatives_printable(s, start + 1);
                } else {
                    lemma_read_field_printable(s, start);
                }
            }
        }
        let all = seq![segment] + rest;
        assert forall|k: int| 0 <= k < all.len() implies printable_segment(#[trigger] all[k]) by {
            if k > 0 {
                assert(all[k] == rest[k - 1]);
            }
        }
    }
}

/// Every printable path prints as a text that denotes it.
pub proof fn lemma_format_then_parse(path: PathModel)
    requires
        printable_path(path),
    ensures
        parse_path(format_path(path)) == Ok::<PathModel, SyntaxFault>(path),
{
    lemma_parse_formatted(Seq::empty(), path);
    assert(Seq::<char>::empty() + format_path(path) =~= format_path(path));
}

/// Printable paths that print alike are the same path.
pub proof fn lemma_format_is_injective(a: PathModel, b: PathModel)
    requires
        printable_path(a),
        printable_path(b),
        format_path(a) == format_path(b),
    ensures
        a == b,
{
    lemma_format_then_parse(a);
    lemma_format_then_parse(b);
}

/// The round trip: a path that a text denotes prints as a text that
/// denotes the same path.
pub proof fn lemma_parse_format_round_trip(s: Seq<char>)
    requires
        parse_path(s) is Ok,
    ensures
        parse_path(format_path(parse_path(s)->Ok_0)) == parse_path(s),
{
    lemma_parsed_is_printable(s, 0);
    lemma_format_then_parse(parse_path(s)->Ok_0);
}

/// The paths that some text denotes are the printable ones.
pub proof fn lemma_denoted_paths_are_the_printable(path: PathModel)
    ensures
        printable_path(path) <==> exists|s: Seq<char>|
            #[trigger] parse_path(s) == Ok::<PathModel, SyntaxFault>(path),
{
    if printable_path(path) {
        lemma_format_then_parse(path);
    }
    if exists|s: Seq<char>| #[trigger] parse_path(s) == Ok::<PathModel, SyntaxFault>(path) {
        let s = choose|s: Seq<char>| #[trigger] parse_path(s) == Ok::<PathModel, SyntaxFault>(path);
        lemma_parsed_is_printable(s, 0);
    }
}

} // verus!

//! Reading a path from text.

use crate::field::{is_valid_field_name, Field, FieldModel};
use crate::segment::{field_models, Segment, SegmentModel};
use crate::syntax::{
    closing_quote, parse_from, parse_path, position_from, read_alternatives, read_field,
    read_step, space_end, word_end, PathModel, SyntaxFault,
};
use crate::text::{
    all_digits, char_is_digit, char_is_word, digits_value, integer_of_text, is_digit, is_word,
    to_chars, value_of_digit,
};
use crate::view_path::ViewPath;
use vstd::prelude::*;
use vstd::string::*;

verus! {

/// What is reported for a fault.
pub open spec fn fault_text(fault: SyntaxFault) -> Seq<char> {
    match fault {
        SyntaxFault::MalformedField => "malformed field name"@,
        SyntaxFault::UnterminatedQuote => "unterminated quote"@,
        SyntaxFault::UnterminatedBracket => "unterminated bracket"@,
        SyntaxFault::InvalidIndex => "invalid index"@,
        SyntaxFault::MalformedCoalesce => "malformed coalesce"@,
        SyntaxFault::UnterminatedCoalesce => "unterminated coalesce"@,
    }
}

/// The message for a fault.
fn fault_message(fault: SyntaxFault) -> (r: String)
    ensures
        r@ == fault_text(fault),
{
    let text = match fault {
        SyntaxFault::MalformedField => "malformed field name",
        SyntaxFault::UnterminatedQuote => "unterminated quote",
        SyntaxFault::UnterminatedBracket => "unterminated bracket",
        SyntaxFault::InvalidIndex => "invalid index",
        SyntaxFault::MalformedCoalesce => "malformed coalesce",
        SyntaxFault::UnterminatedCoalesce => "unterminated coalesce",
    };
    text.to_owned()
}

/// Where the run of word characters that starts at `from` ends.
fn scan_word(chars: &Vec<char>, from: usize) -> (end: usize)
    requires
        from <= chars.len(),
    ensures
        end == word_end(chars@, from as int),
        from <= end <= chars.len(),
{
    let mut end = from;
    while end < chars.len() && char_is_word(chars[end])
        invariant
            from <= end <= chars.len(),
            word_end(chars@, from as int) == word_end(chars@, end as int),
        decreases chars.len() - end,
    {
        end += 1;
    }
    end
}

/// Where the run of spaces that starts at `from` ends.
fn scan_spaces(chars: &Vec<char>, from: usize) -> (end: usize)
    requires
        from <= chars.len(),
    ensures
        end == space_end(chars@, from as int),
        from <= end <= chars.len(),
{
    let mut end = from;
    while end < chars.len() && chars[end] == ' '
        invariant
            from <= end <= chars.len(),
            space_end(chars@, from as int) == space_end(chars@, end as int),
        decreases chars.len() - end,
    {
        end += 1;
    }
    end
}

/// The first position at or after `from` that holds `c`.
fn find_char(chars: &Vec<char>, c: char, from: usize) -> (r: Option<usize>)
    ensures
        match r {
            Some(k) => position_from(chars@, c, from as int) == Some(k as int) && from <= k
                < chars.len(),
            None => position_from(chars@, c, from as int) is None,
        },
{
    let mut k = from;
    while k < chars.len()
        invariant
            from <= k,
            position_from(chars@, c, from as int) == position_from(chars@, c, k as int),
        decreases chars.len() - k,
    {
        if chars[k] == c {
            return Some(k);
        }
        k += 1;
    }
    None
}

/// The first position at or after `from` that ends a quoted name.
fn find_closing_quote(chars: &Vec<char>, from: usize) -> (r: Option<usize>)
    requires
        from >= 1,
    ensures
        match r {
            Some(k) => closing_quote(chars@, from as int) == Some(k as int) && from <= k
                < chars.len(),
            None => closing_quote(chars@, from as int) is None,
        },
{
    let mut k = from;
    while k < chars.len()
        invariant
            1 <= from <= k,
            closing_quote(chars@, from as int) == closing_quote(chars@, k as int),
        decreases chars.len() - k,
    {
        if chars[k] == '"' && chars[k - 1] != '\\' {
            return Some(k);
        }
        k += 1;
    }
    None
}

/// The integer written between two positions, if one is written there and
/// an index can hold it.
fn scan_integer(chars: &Vec<char>, from: usize, to: usize) -> (r: Option<isize>)
    requires
        from <= to <= chars.len(),
    ensures
        match r {
            Some(i) => integer_of_text(chars@.subrange(from as int, to as int)) == Some(i as int),
            None => match integer_of_text(chars@.subrange(from as int, to as int)) {
                Some(i) => !(isize::MIN <= i <= isize::MAX),
                None => true,
            },
        },
{
    let ghost text = chars@.subrange(from as int, to as int);
    let negative = from < to && chars[from] == '-';
    let start = if negative {
        from + 1
    } else {
        from
    };
    let ghost digits = chars@.subrange(start as int, to as int);
    assert(digits =~= if negative {
        text.skip(1)
    } else {
        text
    });
    if start >= to {
        return None;
    }
    let mut magnitude: usize = 0;
    let mut too_large = false;
    let mut k = start;
    assert(digits.take(0).len() == 0);
    while k < to
        invariant
            from <= start <= k <= to <= chars.len(),
            text == chars@.subrange(from as int, to as int),
            negative == (text.len() > 0 && text[0] == '-'),
            digits == chars@.subrange(start as int, to as int),
            digits == if negative {
                text.skip(1)
            } else {
                text
            },
            all_digits(digits.take(k - start)),
            !too_large ==> magnitude == digits_value(digits.take(k - start)),
            too_large ==> digits_value(digits.take(k - start)) > usize::MAX,
        decreases to - k,
    {
        let c = chars[k];
        if !char_is_digit(c) {
            assert(digits[k - start] == c);
            assert(!all_digits(digits));
            return None;
        }
        let d = value_of_digit(c);
        let ghost before = digits.take(k - start);
        let ghost after = digits.take(k - start + 1);
        assert(after.drop_last() =~= before);
        assert(after.last() == c);
        if !too_large {
            match magnitude.checked_mul(10) {
                Some(scaled) => match scaled.checked_add(d) {
                    Some(sum) => {
                        magnitude = sum;
                    },
                    None => {
                        too_large = true;
                    },
                },
                None => {
                    too_large = true;
                },
            }
        }
        k += 1;
    }
    assert(digits.take(to - start) =~= digits);
    if too_large {
        None
    } else if negative {
        if magnitude == 0 {
            Some(0)
        } else if magnitude - 1 <= isize::MAX as usize {
            Some(-((magnitude - 1) as isize) - 1)
        } else {
            None
        }
    } else {
        if magnitude <= isize::MAX as usize {
            Some(magnitude as isize)
        } else {
            None
        }
    }
}

/// Reads the field name that starts at `from`.
fn scan_field<'a>(input: &'a str, chars: &Vec<char>, from: usize) -> (r: Result<
    (Field<'a>, usize),
    SyntaxFault,
>)
    requires
        chars@ == input@,
        from <= chars.len(),
    ensures
        match r {
            Ok((field, end)) => read_field(chars@, from as int) == Ok::<
                (FieldModel, int),
                SyntaxFault,
            >((field@, end as int)) && from < end <= chars.len(),
            Err(fault) => read_field(chars@, from as int) == Err::<(FieldModel, int), SyntaxFault>(
                fault,
            ),
        },
{
    if from < chars.len() && chars[from] == '"' {
        match find_closing_quote(chars, from + 1) {
            Some(k) => Ok((Field::from(input.substring_char(from, k + 1)), k + 1)),
            None => Err(SyntaxFault::UnterminatedQuote),
        }
    } else {
        let end = scan_word(chars, from);
        let token = input.substring_char(from, end);
        if is_valid_field_name(token) {
            proof {
                let first = choose|i: int| 0 <= i < token@.len() && !is_digit(#[trigger] token@[i]);
                assert(is_word(token@[0]));
            }
            Ok((Field { name: token, requires_quoting: false }, end))
        } else {
            Err(SyntaxFault::MalformedField)
        }
    }
}

/// Reads alternatives from `from` up to the closing round bracket, and adds
/// them to `fields`.
fn scan_alternatives<'a>(
    input: &'a str,
    chars: &Vec<char>,
    from: usize,
    fields: &mut Vec<Field<'a>>,
) -> (r: Result<usize, SyntaxFault>)
    requires
        chars@ == input@,
        from <= chars.len(),
    ensures
        match r {
            Ok(end) => {
                &&& from < end <= chars.len()
                &&& read_alternatives(chars@, from as int) matches Ok((read, after))
                &&& after == end
                &&& field_models(final(fields)@) == field_models(old(fields)@) + read
            },
            Err(fault) => read_alternatives(chars@, from as int) == Err::<
                (Seq<FieldModel>, int),
                SyntaxFault,
            >(fault),
        },
    decreases chars.len() - from,
{
    let start = scan_spaces(chars, from);
    if start >= chars.len() {
        return Err(SyntaxFault::UnterminatedCoalesce);
    }
    match scan_field(input, chars, start) {
        Err(fault) => Err(fault),
        Ok((field, end)) => {
            let next = scan_spaces(chars, end);
            if next >= chars.len() {
                Err(SyntaxFault::UnterminatedCoalesce)
            } else if chars[next] == ')' {
                let ghost before = field_models(fields@);
                fields.push(field);
                assert(field_models(fields@) =~= before + seq![field@]);
                Ok(next + 1)
            } else if chars[next] == '|' {
                let ghost before = field_models(fields@);
                fields.push(field);
                assert(field_models(fields@) =~= before + seq![field@]);
                let r = scan_alternatives(input, chars, next + 1, fields);
                proof {
                    if let Ok((read, after)) = read_alternatives(chars@, next + 1) {
                        assert((before + seq![field@]) + read =~= before + (seq![field@] + read));
                    }
                }
                r
            } else {
                Err(SyntaxFault::MalformedCoalesce)
            }
        },
    }
}

/// Reads the step that starts at `from`.
fn scan_step<'a>(input: &'a str, chars: &Vec<char>, from: usize) -> (r: Result<
    (Segment<'a>, usize),
    SyntaxFault,
>)
    requires
        chars@ == input@,
        from < chars.len(),
    ensures
        match r {
            Ok((segment, end)) => read_step(chars@, from as int) == Ok::<
                (SegmentModel, int),
                SyntaxFault,
            >((segment@, end as int)) && from < end <= chars.len(),
            Err(fault) => read_step(chars@, from as int) == Err::<(SegmentModel, int), SyntaxFault>(
                fault,
            ),
        },
{
    if chars[from] == '[' {
        match find_char(chars, ']', from + 1) {
            None => Err(SyntaxFault::UnterminatedBracket),
            Some(k) => match scan_integer(chars, from + 1, k) {
                Some(i) => Ok((Segment::Index(i), k + 1)),
                None => Err(SyntaxFault::InvalidIndex),
            },
        }
    } else {
        let start = if chars[from] == '.' {
            from + 1
        } else {
            from
        };
        if start < chars.len() && chars[start] == '(' {
            let mut fields: Vec<Field<'a>> = Vec::new();
            assert(field_models(fields@) =~= Seq::<FieldModel>::empty());
            match scan_alternatives(input, chars, start + 1, &mut fields) {
                Ok(end) => {
                    proof {
                        let read = read_alternatives(chars@, start + 1)->Ok_0.0;
                        assert(Seq::<FieldModel>::empty() + read =~= read);
                    }
                    Ok((Segment::Coalesce(fields), end))
                },
                Err(fault) => Err(fault),
            }
        } else {
            match scan_field(input, chars, start) {
                Ok((field, end)) => Ok((Segment::Field(field), end)),
                Err(fault) => Err(fault),
            }
        }
    }
}

/// Reads the path that a text denotes, with names borrowed from the text,
/// or says why the text denotes none.
pub fn parse_segments<'a>(input: &'a str) -> (r: Result<ViewPath<'a>, SyntaxFault>)
    ensures
        match r {
            Ok(path) => parse_path(input@) == Ok::<PathModel, SyntaxFault>(path@),
            Err(fault) => parse_path(input@) == Err::<PathModel, SyntaxFault>(fault),
        },
{
    let chars = to_chars(input);
    let mut path = ViewPath::root();
    let mut at: usize = 0;
    assert(PathModel::empty() + parse_from(chars@, 0)->Ok_0 =~= parse_from(chars@, 0)->Ok_0);
    while at < chars.len()
        invariant
            at <= chars.len(),
            chars@ == input@,
            match parse_from(chars@, at as int) {
                Ok(rest) => parse_path(chars@) == Ok::<PathModel, SyntaxFault>(path@ + rest),
                Err(fault) => parse_path(chars@) == Err::<PathModel, SyntaxFault>(fault),
            },
        decreases chars.len() - at,
    {
        match scan_step(input, &chars, at) {
            Ok((segment, end)) => {
                proof {
                    if let Ok(rest) = parse_from(chars@, end as int) {
                        assert(path@.push(segment@) + rest =~= path@ + (seq![segment@] + rest));
                    }
                }
                path.push_back(segment);
                at = end;
            },
            Err(fault) => {
                return Err(fault);
            },
        }
    }
    assert(path@ + PathModel::empty() =~= path@);
    Ok(path)
}

/// Reads the path that a text denotes, or gives the reason why it denotes
/// none as a message. A text that is no path gives no path at all.
pub fn parse_view_path(s: &str) -> (r: Result<ViewPath<'_>, String>)
    ensures
        match r {
            Ok(path) => parse_path(s@) == Ok::<PathModel, SyntaxFault>(path@),
            Err(message) => parse_path(s@) is Err && message@ == fault_text(parse_path(s@)->Err_0),
        },
{
    match parse_segments(s) {
        Ok(path) => Ok(path),
        Err(fault) => Err(fault_message(fault)),
    }
}

} // verus!

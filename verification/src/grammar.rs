//! What reading a document means: for each position of a text and what is
//! registered, the value that stands there, where it ends, and what is
//! registered then.
use vstd::prelude::*;
use crate::constants::{
    ARRAY_END_TOKEN, ARRAY_REPEAT_MANY_TOKEN, ARRAY_REPEAT_TOKEN, ARRAY_START_TOKEN,
    BOOLEAN_FALSE_TOKEN, BOOLEAN_TRUE_TOKEN, DATE_LOW_PRECISION, DATE_TOKEN,
    FLOAT_FULL_PRECISION_DELIMITER, FLOAT_REDUCED_PRECISION_DELIMITER, FLOAT_TOKEN,
    INTEGER_SMALL_TOKEN_EXCLUSIVE_BOUND_LOWER, INTEGER_SMALL_TOKEN_EXCLUSIVE_BOUND_UPPER,
    INTEGER_SMALL_TOKEN_OFFSET, INTEGER_TOKEN, LP_DATE_TOKEN, NULL_TOKEN, OBJECT_END_TOKEN,
    OBJECT_START_TOKEN, REF_DATE_TOKEN, REF_FLOAT_TOKEN, REF_INTEGER_TOKEN, REF_LP_DATE_TOKEN,
    REF_STRING_TOKEN, STRING_TOKEN, UNREFERENCED_DATE_TOKEN, UNREFERENCED_FLOAT_TOKEN,
    UNREFERENCED_INTEGER_TOKEN, UNREFERENCED_LP_DATE_TOKEN, UNREFERENCED_STRING_TOKEN,
};
use crate::date::{decimal_run_end, lemma_decimal_run_end_bounds, utc_text};
use crate::error::Error;
use crate::escape::{lemma_scan_advances, parse_string};
use crate::integer::{lemma_parse_integer_advances, parse_integer};
use crate::value::{FloatView, ValueView};

verus! {

/// What the reader has seen registered so far, kind by kind, each in the
/// order of registration: a reference's index is a position in these.
pub struct Resolved {
    pub integers: Seq<i64>,
    pub floats: Seq<FloatView>,
    pub strings: Seq<Seq<char>>,
    pub dates: Seq<Seq<char>>,
    pub lp_dates: Seq<Seq<char>>,
}

impl Resolved {
    /// Nothing registered.
    pub open spec fn empty() -> Resolved {
        Resolved {
            integers: Seq::empty(),
            floats: Seq::empty(),
            strings: Seq::empty(),
            dates: Seq::empty(),
            lp_dates: Seq::empty(),
        }
    }
}

/// A value that was read, the position after it, and what is registered
/// then.
pub struct Decoded {
    pub value: ValueView,
    pub next: int,
    pub resolved: Resolved,
}

/// A string that was read, the position after it, and what is registered
/// then.
pub struct Text {
    pub text: Seq<char>,
    pub next: int,
    pub resolved: Resolved,
}

/// What reading a float's literal at `pos` gives: a sign, an integer, and
/// after a point the thousandths, or after a comma a run of decimal digits.
pub open spec fn parse_float(input: Seq<char>, pos: int) -> core::result::Result<
    (FloatView, int),
    Error,
> {
    if pos < 0 || pos >= input.len() {
        Err(Error::Eof)
    } else {
        let negative = input[pos] == '-';
        match parse_integer(input, pos) {
            Err(e) => Err(e),
            Ok((integer, at)) => if at >= input.len() {
                Err(Error::Eof)
            } else if input[at] == FLOAT_REDUCED_PRECISION_DELIMITER {
                match parse_integer(input, at + 1) {
                    Err(e) => Err(e),
                    Ok((thousandths, next)) => Ok(
                        (FloatView { negative, integer, digits: Seq::empty(), thousandths }, next),
                    ),
                }
            } else if input[at] == FLOAT_FULL_PRECISION_DELIMITER {
                let next = decimal_run_end(input, at + 1);
                Ok(
                    (
                        FloatView {
                            negative,
                            integer,
                            digits: input.subrange(at + 1, next),
                            thousandths: 0,
                        },
                        next,
                    ),
                )
            } else {
                Err(Error::ExpectedFloat)
            },
        }
    }
}

/// What reading a reference's index at `pos` gives, when `count` values of
/// its kind are registered: an index below `count`.
pub open spec fn parse_reference(input: Seq<char>, pos: int, count: nat) -> core::result::Result<
    (int, int),
    Error,
> {
    match parse_integer(input, pos) {
        Err(e) => Err(e),
        Ok((index, next)) => if 0 <= index < count {
            Ok((index as int, next))
        } else {
            Err(Error::DanglingReference)
        },
    }
}

/// What reading a date's literal at `pos` gives: the text, in UTC, of the
/// instant that many milliseconds after the start of 1970.
pub open spec fn parse_date(input: Seq<char>, pos: int) -> core::result::Result<
    (Seq<char>, int),
    Error,
> {
    match parse_integer(input, pos) {
        Err(e) => Err(e),
        Ok((millis, next)) => match utc_text(millis) {
            Some(text) => Ok((text, next)),
            None => Err(Error::ExpectedDate),
        },
    }
}

/// What reading a low-precision date's literal at `pos` gives: the text,
/// in UTC, of the instant that many hundreds of milliseconds after the start
/// of 1970.
pub open spec fn parse_lp_date(input: Seq<char>, pos: int) -> core::result::Result<
    (Seq<char>, int),
    Error,
> {
    match parse_integer(input, pos) {
        Err(e) => Err(e),
        Ok((tenths, next)) => if i64::MIN <= tenths * DATE_LOW_PRECISION <= i64::MAX {
            match utc_text((tenths * DATE_LOW_PRECISION) as i64) {
                Some(text) => Ok((text, next)),
                None => Err(Error::ExpectedLpDate),
            }
        } else {
            Err(Error::ExpectedLpDate)
        },
    }
}

/// What reading a string at `pos` gives, token included. The token that
/// registers adds the string to the strings; a reference gives the string
/// registered at its index.
pub open spec fn decode_string(input: Seq<char>, pos: int, r: Resolved) -> core::result::Result<
    Text,
    Error,
> {
    if pos < 0 || pos >= input.len() {
        Err(Error::Eof)
    } else if input[pos] == STRING_TOKEN {
        match parse_string(input, pos) {
            Err(e) => Err(e),
            Ok((text, next)) => Ok(
                Text { text, next, resolved: Resolved { strings: r.strings.push(text), ..r } },
            ),
        }
    } else if input[pos] == UNREFERENCED_STRING_TOKEN {
        match parse_string(input, pos) {
            Err(e) => Err(e),
            Ok((text, next)) => Ok(Text { text, next, resolved: r }),
        }
    } else if input[pos] == REF_STRING_TOKEN {
        match parse_reference(input, pos + 1, r.strings.len()) {
            Err(e) => Err(e),
            Ok((index, next)) => Ok(Text { text: r.strings[index], next, resolved: r }),
        }
    } else {
        Err(Error::ExpectedString)
    }
}

/// What reading a date at `pos` gives, token included.
pub open spec fn decode_date(input: Seq<char>, pos: int, r: Resolved) -> core::result::Result<
    Text,
    Error,
> {
    if pos < 0 || pos >= input.len() {
        Err(Error::Eof)
    } else if input[pos] == DATE_TOKEN {
        match parse_date(input, pos + 1) {
            Err(e) => Err(e),
            Ok((text, next)) => Ok(
                Text { text, next, resolved: Resolved { dates: r.dates.push(text), ..r } },
            ),
        }
    } else if input[pos] == UNREFERENCED_DATE_TOKEN {
        match parse_date(input, pos + 1) {
            Err(e) => Err(e),
            Ok((text, next)) => Ok(Text { text, next, resolved: r }),
        }
    } else if input[pos] == REF_DATE_TOKEN {
        match parse_reference(input, pos + 1, r.dates.len()) {
            Err(e) => Err(e),
            Ok((index, next)) => Ok(Text { text: r.dates[index], next, resolved: r }),
        }
    } else {
        Err(Error::ExpectedDate)
    }
}

/// What reading a low-precision date at `pos` gives, token included.
pub open spec fn decode_lp_date(input: Seq<char>, pos: int, r: Resolved) -> core::result::Result<
    Text,
    Error,
> {
    if pos < 0 || pos >= input.len() {
        Err(Error::Eof)
    } else if input[pos] == LP_DATE_TOKEN {
        match parse_lp_date(input, pos + 1) {
            Err(e) => Err(e),
            Ok((text, next)) => Ok(
                Text { text, next, resolved: Resolved { lp_dates: r.lp_dates.push(text), ..r } },
            ),
        }
    } else if input[pos] == UNREFERENCED_LP_DATE_TOKEN {
        match parse_lp_date(input, pos + 1) {
            Err(e) => Err(e),
            Ok((text, next)) => Ok(Text { text, next, resolved: r }),
        }
    } else if input[pos] == REF_LP_DATE_TOKEN {
        match parse_reference(input, pos + 1, r.lp_dates.len()) {
            Err(e) => Err(e),
            Ok((index, next)) => Ok(Text { text: r.lp_dates[index], next, resolved: r }),
        }
    } else {
        Err(Error::ExpectedLpDate)
    }
}

/// Whether `c` starts a string.
pub open spec fn is_string_token(c: char) -> bool {
    c == STRING_TOKEN || c == UNREFERENCED_STRING_TOKEN || c == REF_STRING_TOKEN
}

/// Whether `c` starts a date.
pub open spec fn is_date_token(c: char) -> bool {
    c == DATE_TOKEN || c == UNREFERENCED_DATE_TOKEN || c == REF_DATE_TOKEN
}

/// Whether `c` starts a low-precision date.
pub open spec fn is_lp_date_token(c: char) -> bool {
    c == LP_DATE_TOKEN || c == UNREFERENCED_LP_DATE_TOKEN || c == REF_LP_DATE_TOKEN
}

/// What reading a string or a date at `pos` gives: dates are strings that
/// were written in another way. Any other token is an error.
pub open spec fn decode_text(input: Seq<char>, pos: int, r: Resolved) -> core::result::Result<
    Text,
    Error,
> {
    if pos < 0 || pos >= input.len() {
        Err(Error::Eof)
    } else if is_date_token(input[pos]) {
        decode_date(input, pos, r)
    } else if is_lp_date_token(input[pos]) {
        decode_lp_date(input, pos, r)
    } else {
        decode_string(input, pos, r)
    }
}

/// Whether `c` starts a string or a date.
pub open spec fn is_text_token(c: char) -> bool {
    is_string_token(c) || is_date_token(c) || is_lp_date_token(c)
}

/// Whether `c` is a small-integer token.
pub open spec fn is_small_token(c: char) -> bool {
    INTEGER_SMALL_TOKEN_EXCLUSIVE_BOUND_LOWER < c as u32 && (c as u32)
        < INTEGER_SMALL_TOKEN_EXCLUSIVE_BOUND_UPPER
}

/// What reading an integer at `pos` gives, token included.
pub open spec fn decode_integer(input: Seq<char>, pos: int, r: Resolved) -> core::result::Result<
    Decoded,
    Error,
> {
    if pos < 0 || pos >= input.len() {
        Err(Error::Eof)
    } else if is_small_token(input[pos]) {
        Ok(
            Decoded {
                value: ValueView::Int((input[pos] as int - INTEGER_SMALL_TOKEN_OFFSET) as i64),
                next: pos + 1,
                resolved: r,
            },
        )
    } else if input[pos] == INTEGER_TOKEN {
        match parse_integer(input, pos + 1) {
            Err(e) => Err(e),
            Ok((v, next)) => Ok(
                Decoded {
                    value: ValueView::Int(v),
                    next,
                    resolved: Resolved { integers: r.integers.push(v), ..r },
                },
            ),
        }
    } else if input[pos] == UNREFERENCED_INTEGER_TOKEN {
        match parse_integer(input, pos + 1) {
            Err(e) => Err(e),
            Ok((v, next)) => Ok(Decoded { value: ValueView::Int(v), next, resolved: r }),
        }
    } else if input[pos] == REF_INTEGER_TOKEN {
        match parse_reference(input, pos + 1, r.integers.len()) {
            Err(e) => Err(e),
            Ok((index, next)) => Ok(
                Decoded { value: ValueView::Int(r.integers[index]), next, resolved: r },
            ),
        }
    } else {
        Err(Error::ExpectedInteger)
    }
}

/// What reading a float at `pos` gives, token included.
pub open spec fn decode_float(input: Seq<char>, pos: int, r: Resolved) -> core::result::Result<
    Decoded,
    Error,
> {
    if pos < 0 || pos >= input.len() {
        Err(Error::Eof)
    } else if input[pos] == FLOAT_TOKEN {
        match parse_float(input, pos + 1) {
            Err(e) => Err(e),
            Ok((f, next)) => Ok(
                Decoded {
                    value: ValueView::Float(f),
                    next,
                    resolved: Resolved { floats: r.floats.push(f), ..r },
                },
            ),
        }
    } else if input[pos] == UNREFERENCED_FLOAT_TOKEN {
        match parse_float(input, pos + 1) {
            Err(e) => Err(e),
            Ok((f, next)) => Ok(Decoded { value: ValueView::Float(f), next, resolved: r }),
        }
    } else if input[pos] == REF_FLOAT_TOKEN {
        match parse_reference(input, pos + 1, r.floats.len()) {
            Err(e) => Err(e),
            Ok((index, next)) => Ok(
                Decoded { value: ValueView::Float(r.floats[index]), next, resolved: r },
            ),
        }
    } else {
        Err(Error::ExpectedFloat)
    }
}

/// The entries with `value` stored for `key`: in place of the value of the
/// first entry that has the key, or as a new last entry.
pub open spec fn upsert(
    entries: Seq<(Seq<char>, ValueView)>,
    key: Seq<char>,
    value: ValueView,
) -> Seq<(Seq<char>, ValueView)> {
    if exists|i: int| 0 <= i < entries.len() && entries[i].0 == key {
        entries.update(first_with(entries, key), (key, value))
    } else {
        entries.push((key, value))
    }
}

/// The position of the first entry that has `key`.
pub open spec fn first_with(entries: Seq<(Seq<char>, ValueView)>, key: Seq<char>) -> int {
    choose|i: int|
        0 <= i < entries.len() && entries[i].0 == key && forall|j: int|
            0 <= j < i ==> entries[j].0 != key
}

/// One step of reading an array.
pub enum Step {
    /// The array's end token was read.
    End { next: int },
    /// An element was read or repeated: it is the one that a repeat token now
    /// stands for, and `repeat` is the number of its repeats still due.
    Element { value: ValueView, next: int, resolved: Resolved, repeat: nat },
}

/// Whether reading went forward: to a later position within the input, or, at
/// the same position, to fewer repeats due.
pub open spec fn advanced(len: nat, pos: int, repeat: nat, next: int, due: nat) -> bool {
    (pos < next && next <= len) || (next == pos && due < repeat)
}

/// What reading a value at `pos` gives, when `r` is registered.
pub open spec fn decode_value(input: Seq<char>, pos: int, r: Resolved) -> core::result::Result<
    Decoded,
    Error,
>
    decreases input.len() - pos, 0nat, 0nat,
{
    if pos < 0 || pos >= input.len() {
        Err(Error::Eof)
    } else if input[pos] == NULL_TOKEN {
        Ok(Decoded { value: ValueView::Null, next: pos + 1, resolved: r })
    } else if input[pos] == BOOLEAN_TRUE_TOKEN {
        Ok(Decoded { value: ValueView::Bool(true), next: pos + 1, resolved: r })
    } else if input[pos] == BOOLEAN_FALSE_TOKEN {
        Ok(Decoded { value: ValueView::Bool(false), next: pos + 1, resolved: r })
    } else if is_small_token(input[pos]) || input[pos] == INTEGER_TOKEN || input[pos]
        == UNREFERENCED_INTEGER_TOKEN || input[pos] == REF_INTEGER_TOKEN {
        decode_integer(input, pos, r)
    } else if input[pos] == FLOAT_TOKEN || input[pos] == UNREFERENCED_FLOAT_TOKEN || input[pos]
        == REF_FLOAT_TOKEN {
        decode_float(input, pos, r)
    } else if is_text_token(input[pos]) {
        match decode_text(input, pos, r) {
            Err(e) => Err(e),
            Ok(t) => Ok(
                Decoded { value: ValueView::Str(t.text), next: t.next, resolved: t.resolved },
            ),
        }
    } else if input[pos] == ARRAY_START_TOKEN {
        decode_elements(input, pos + 1, r, None, 0, Seq::empty())
    } else if input[pos] == OBJECT_START_TOKEN {
        decode_entries(input, pos + 1, r, Seq::empty())
    } else {
        Err(Error::Syntax)
    }
}

/// What the next step of reading an array gives at `pos`, when `last` is
/// the element read or repeated last and `repeat` repeats of it are due.
///
/// While repeats are due, each step gives `last` again. Otherwise the end
/// token ends the array; a repeat token gives `last` once more; a counted
/// repeat token makes as many repeats due as its count says, none if that is
/// not positive; and anything else is read as a value.
pub open spec fn next_element(
    input: Seq<char>,
    pos: int,
    r: Resolved,
    last: Option<ValueView>,
    repeat: nat,
) -> core::result::Result<Step, Error>
    decreases input.len() - pos, repeat, 1nat,
{
    if pos < 0 || pos >= input.len() {
        Err(Error::Eof)
    } else if repeat > 0 {
        match last {
            Some(value) => Ok(
                Step::Element { value, next: pos, resolved: r, repeat: (repeat - 1) as nat },
            ),
            None => Err(Error::UnexpectedRepeatToken),
        }
    } else if input[pos] == ARRAY_END_TOKEN {
        Ok(Step::End { next: pos + 1 })
    } else if input[pos] == ARRAY_REPEAT_TOKEN {
        if pos + 1 >= input.len() {
            Err(Error::Eof)
        } else {
            match last {
                Some(value) => Ok(Step::Element { value, next: pos + 1, resolved: r, repeat: 0 }),
                None => Err(Error::UnexpectedRepeatToken),
            }
        }
    } else if input[pos] == ARRAY_REPEAT_MANY_TOKEN {
        match parse_integer(input, pos + 1) {
            Err(e) => Err(e),
            Ok((count, next)) => if !advanced(input.len(), pos, 0, next, 0) {
                Err(Error::Syntax)
            } else if count <= 0 {
                next_element(input, next, r, last, 0)
            } else if next >= input.len() {
                Err(Error::Eof)
            } else {
                match last {
                    Some(value) => Ok(
                        Step::Element { value, next, resolved: r, repeat: (count - 1) as nat },
                    ),
                    None => Err(Error::UnexpectedRepeatToken),
                }
            },
        }
    } else {
        match decode_value(input, pos, r) {
            Err(e) => Err(e),
            Ok(d) => Ok(
                Step::Element { value: d.value, next: d.next, resolved: d.resolved, repeat: 0 },
            ),
        }
    }
}

/// What reading the rest of an array from `pos` gives, when `acc` are
/// the elements read so far.
pub open spec fn decode_elements(
    input: Seq<char>,
    pos: int,
    r: Resolved,
    last: Option<ValueView>,
    repeat: nat,
    acc: Seq<ValueView>,
) -> core::result::Result<Decoded, Error>
    decreases input.len() - pos, repeat, 2nat,
{
    match next_element(input, pos, r, last, repeat) {
        Err(e) => Err(e),
        Ok(Step::End { next }) => Ok(Decoded { value: ValueView::Array(acc), next, resolved: r }),
        Ok(Step::Element { value, next, resolved, repeat: due }) => if advanced(
            input.len(),
            pos,
            repeat,
            next,
            due,
        ) {
            decode_elements(input, next, resolved, Some(value), due, acc.push(value))
        } else {
            Err(Error::Syntax)
        },
    }
}

/// What reading the rest of an object from `pos` gives, when `acc` are
/// the entries read so far: up to the end token, a key, which is a string or
/// a date, and then its value. A key read again gets the new value and
/// keeps its place.
pub open spec fn decode_entries(
    input: Seq<char>,
    pos: int,
    r: Resolved,
    acc: Seq<(Seq<char>, ValueView)>,
) -> core::result::Result<Decoded, Error>
    decreases input.len() - pos, 0nat, 2nat,
{
    if pos < 0 || pos >= input.len() {
        Err(Error::Eof)
    } else if input[pos] == OBJECT_END_TOKEN {
        Ok(Decoded { value: ValueView::Object(acc), next: pos + 1, resolved: r })
    } else {
        match decode_text(input, pos, r) {
            Err(e) => Err(e),
            Ok(key) => if !advanced(input.len(), pos, 0, key.next, 0) {
                Err(Error::Syntax)
            } else {
                match decode_value(input, key.next, key.resolved) {
                    Err(e) => Err(e),
                    Ok(d) => if !advanced(input.len(), key.next, 0, d.next, 0) {
                        Err(Error::Syntax)
                    } else {
                        decode_entries(input, d.next, d.resolved, upsert(acc, key.text, d.value))
                    },
                }
            },
        }
    }
}

/// What reading a document gives: its root value, which must be all of it.
pub open spec fn decode(input: Seq<char>) -> core::result::Result<ValueView, Error> {
    match decode_value(input, 0, Resolved::empty()) {
        Err(e) => Err(e),
        Ok(d) => if d.next == input.len() {
            Ok(d.value)
        } else {
            Err(Error::TrailingCharacters)
        },
    }
}

/// A string or a date that is read takes at least one character.
pub proof fn lemma_text_advances(input: Seq<char>, pos: int, r: Resolved)
    requires
        decode_text(input, pos, r) is Ok,
    ensures
        pos < decode_text(input, pos, r)->Ok_0.next <= input.len(),
{
    if is_date_token(input[pos]) || is_lp_date_token(input[pos]) || input[pos] == REF_STRING_TOKEN {
        lemma_parse_integer_advances(input, pos + 1);
    } else {
        lemma_scan_advances(input, pos + 1, input[pos], Seq::empty());
    }
}

/// A value that is read takes at least one character: reading always goes
/// forward, so that the case in which it would not, which the definitions
/// of reading an array and an object provide for, never arises.
pub proof fn lemma_value_advances(input: Seq<char>, pos: int, r: Resolved)
    requires
        decode_value(input, pos, r) is Ok,
    ensures
        pos < decode_value(input, pos, r)->Ok_0.next <= input.len(),
    decreases input.len() - pos, 0nat, 0nat,
{
    let c = input[pos];
    if c == NULL_TOKEN || c == BOOLEAN_TRUE_TOKEN || c == BOOLEAN_FALSE_TOKEN || is_small_token(c) {
    } else if c == INTEGER_TOKEN || c == UNREFERENCED_INTEGER_TOKEN || c == REF_INTEGER_TOKEN || c
        == REF_FLOAT_TOKEN {
        lemma_parse_integer_advances(input, pos + 1);
    } else if c == FLOAT_TOKEN || c == UNREFERENCED_FLOAT_TOKEN {
        lemma_parse_integer_advances(input, pos + 1);
        let at = parse_integer(input, pos + 1)->Ok_0.1;
        if input[at] == FLOAT_REDUCED_PRECISION_DELIMITER {
            lemma_parse_integer_advances(input, at + 1);
        } else {
            lemma_decimal_run_end_bounds(input, at + 1);
        }
    } else if is_text_token(c) {
        lemma_text_advances(input, pos, r);
    } else if c == ARRAY_START_TOKEN {
        lemma_elements_advance(input, pos + 1, r, None, 0, Seq::empty());
    } else if c == OBJECT_START_TOKEN {
        lemma_entries_advance(input, pos + 1, r, Seq::empty());
    }
}

/// A step of reading an array goes forward.
pub proof fn lemma_step_advances(
    input: Seq<char>,
    pos: int,
    r: Resolved,
    last: Option<ValueView>,
    repeat: nat,
)
    requires
        0 <= pos,
        next_element(input, pos, r, last, repeat) is Ok,
    ensures
        match next_element(input, pos, r, last, repeat)->Ok_0 {
            Step::End { next } => pos < next <= input.len(),
            Step::Element { next, repeat: due, .. } => advanced(
                input.len(),
                pos,
                repeat,
                next,
                due,
            ),
        },
    decreases input.len() - pos, repeat, 1nat,
{
    if repeat > 0 {
    } else if input[pos] == ARRAY_END_TOKEN {
    } else if input[pos] == ARRAY_REPEAT_TOKEN {
    } else if input[pos] == ARRAY_REPEAT_MANY_TOKEN {
        lemma_parse_integer_advances(input, pos + 1);
        let (count, next) = parse_integer(input, pos + 1)->Ok_0;
        if count <= 0 {
            lemma_step_advances(input, next, r, last, 0);
        }
    } else {
        lemma_value_advances(input, pos, r);
    }
}

/// The rest of an array that is read ends after where it was read from.
pub proof fn lemma_elements_advance(
    input: Seq<char>,
    pos: int,
    r: Resolved,
    last: Option<ValueView>,
    repeat: nat,
    acc: Seq<ValueView>,
)
    requires
        0 <= pos,
        decode_elements(input, pos, r, last, repeat, acc) is Ok,
    ensures
        pos < decode_elements(input, pos, r, last, repeat, acc)->Ok_0.next <= input.len(),
    decreases input.len() - pos, repeat, 2nat,
{
    lemma_step_advances(input, pos, r, last, repeat);
    match next_element(input, pos, r, last, repeat)->Ok_0 {
        Step::Element { value, next, resolved, repeat: due } => {
            lemma_elements_advance(input, next, resolved, Some(value), due, acc.push(value));
        },
        _ => {},
    }
}

/// The rest of an object that is read ends after where it was read from.
pub proof fn lemma_entries_advance(
    input: Seq<char>,
    pos: int,
    r: Resolved,
    acc: Seq<(Seq<char>, ValueView)>,
)
    requires
        0 <= pos,
        decode_entries(input, pos, r, acc) is Ok,
    ensures
        pos < decode_entries(input, pos, r, acc)->Ok_0.next <= input.len(),
    decreases input.len() - pos, 0nat, 2nat,
{
    if input[pos] != OBJECT_END_TOKEN {
        let key = decode_text(input, pos, r)->Ok_0;
        let value = decode_value(input, key.next, key.resolved)->Ok_0;
        lemma_entries_advance(
            input,
            value.next,
            value.resolved,
            upsert(acc, key.text, value.value),
        );
    }
}

} // verus!

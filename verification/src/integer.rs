//! Integers in base 62: how they are written and how they are read.
use vstd::prelude::*;
use crate::constants::{
    DELIMITING_TOKENS_THRESHOLD, FLOAT_FULL_PRECISION_DELIMITER, FLOAT_REDUCED_PRECISION_DELIMITER,
};
use crate::error::{Error, Result};
use crate::text::append;

verus! {

/// The digit that stands for `d`, for `0 <= d < 62`: `0-9`, then `A-Z`,
/// then `a-z`.
pub open spec fn digit_char(d: int) -> char {
    if d < 10 {
        (48 + d) as char
    } else if d < 36 {
        (55 + d) as char
    } else {
        (61 + d) as char
    }
}

/// Whether `c` is one of the 62 digits.
pub open spec fn is_digit(c: char) -> bool {
    ('0' <= c && c <= '9') || ('A' <= c && c <= 'Z') || ('a' <= c && c <= 'z')
}

/// What a digit is worth.
pub open spec fn digit_value(c: char) -> int {
    let code = c as int;
    if code >= 97 {
        code - 61
    } else if code >= 65 {
        code - 55
    } else {
        code - 48
    }
}

/// The digits of `n`, most significant first, without leading zeros: none
/// at all for zero.
pub open spec fn digits(n: nat) -> Seq<char>
    decreases n,
{
    if n == 0 {
        Seq::empty()
    } else {
        digits(n / 62).push(digit_char((n % 62) as int))
    }
}

/// How a magnitude is written: its digits, and `0` for zero.
pub open spec fn magnitude_literal(n: nat) -> Seq<char> {
    if n == 0 {
        seq!['0']
    } else {
        digits(n)
    }
}

/// How an integer is written: a minus sign where it is negative, then its
/// magnitude.
pub open spec fn integer_literal(v: int) -> Seq<char> {
    if v < 0 {
        seq!['-'] + magnitude_literal((-v) as nat)
    } else {
        magnitude_literal(v as nat)
    }
}

/// The number that a run of digits stands for.
pub open spec fn digits_value(s: Seq<char>) -> nat
    decreases s.len(),
{
    if s.len() == 0 {
        0
    } else {
        (digits_value(s.drop_last()) * 62 + digit_value(s.last())) as nat
    }
}

/// Where the run of digits that starts at `i` ends.
pub open spec fn run_end(input: Seq<char>, i: int) -> int
    decreases input.len() - i,
{
    if 0 <= i < input.len() && is_digit(input[i]) {
        run_end(input, i + 1)
    } else {
        i
    }
}

/// Whether a number may end at `i`: at the end of the input, before a
/// character above the threshold, or before a fraction delimiter.
pub open spec fn is_number_end(input: Seq<char>, i: int) -> bool {
    i >= input.len() || input[i] as u32 > DELIMITING_TOKENS_THRESHOLD || input[i]
        == FLOAT_FULL_PRECISION_DELIMITER || input[i] == FLOAT_REDUCED_PRECISION_DELIMITER
}

/// What reading an integer at `pos` gives: its value and the position after
/// it. An optional minus sign, then a run of at least one digit, which
/// must stop where a number may end, and whose value must fit in 64 bits.
pub open spec fn parse_integer(input: Seq<char>, pos: int) -> core::result::Result<
    (i64, int),
    Error,
> {
    if pos >= input.len() {
        Err(Error::Eof)
    } else {
        let negative = input[pos] == '-';
        let start = if negative {
            pos + 1
        } else {
            pos
        };
        let end = run_end(input, start);
        let magnitude = digits_value(input.subrange(start, end));
        let value = if negative {
            -magnitude
        } else {
            magnitude as int
        };
        if end == start {
            if start >= input.len() {
                Err(Error::Eof)
            } else {
                Err(Error::ExpectedInteger)
            }
        } else if !is_number_end(input, end) {
            Err(Error::ExpectedInteger)
        } else if value < i64::MIN || value > i64::MAX {
            Err(Error::ExpectedInteger)
        } else {
            Ok((value as i64, end))
        }
    }
}

/// Whether what was read agrees with what reading is defined to give.
pub open spec fn agrees<T>(
    got: Result<(T, usize)>,
    want: core::result::Result<(T, int), Error>,
) -> bool {
    match want {
        Ok((value, next)) => got matches Ok((v, n)) && v == value && n == next,
        Err(e) => got == Err::<(T, usize), Error>(e),
    }
}

/// Each of the 62 digits is a digit and is worth what it stands for.
pub proof fn lemma_digit_char(d: int)
    requires
        0 <= d < 62,
    ensures
        is_digit(digit_char(d)),
        digit_value(digit_char(d)) == d,
{
}

/// The digits of a number are digits, there is one at least for a
/// positive number, and they stand for the number.
pub proof fn lemma_digits(n: nat)
    ensures
        forall|k: int| 0 <= k < digits(n).len() ==> is_digit(#[trigger] digits(n)[k]),
        n > 0 ==> digits(n).len() > 0,
        digits_value(digits(n)) == n,
    decreases n,
{
    if n > 0 {
        lemma_digits(n / 62);
        lemma_digit_char((n % 62) as int);
        let head = digits(n / 62);
        let c = digit_char((n % 62) as int);
        assert(digits(n) == head.push(c));
        assert(head.push(c).drop_last() =~= head);
        assert(head.push(c).last() == c);
        assert forall|k: int| 0 <= k < digits(n).len() implies is_digit(
            #[trigger] digits(n)[k],
        ) by {
            if k < head.len() {
                assert(digits(n)[k] == head[k]);
            }
        }
    }
}

/// The literal of an integer is not empty.
pub proof fn lemma_integer_literal_len(v: int)
    ensures
        integer_literal(v).len() >= 1,
        v < 0 ==> integer_literal(v).len() >= 2,
{
    if v < 0 {
        lemma_digits((-v) as nat);
    } else {
        lemma_digits(v as nat);
    }
}

/// A run of digits that starts at `i` ends where the digits end.
pub proof fn lemma_run_end(input: Seq<char>, i: int, end: int)
    requires
        0 <= i <= end <= input.len(),
        forall|k: int| i <= k < end ==> is_digit(#[trigger] input[k]),
        end < input.len() ==> !is_digit(input[end]),
    ensures
        run_end(input, i) == end,
    decreases end - i,
{
    if i < end {
        lemma_run_end(input, i + 1, end);
    }
}

/// A run of digits ends at or after its start, and within the input.
pub proof fn lemma_run_end_bounds(input: Seq<char>, i: int)
    requires
        0 <= i <= input.len(),
    ensures
        i <= run_end(input, i) <= input.len(),
    decreases input.len() - i,
{
    if i < input.len() && is_digit(input[i]) {
        lemma_run_end_bounds(input, i + 1);
    }
}

/// An integer that is read takes at least one character.
pub proof fn lemma_parse_integer_advances(input: Seq<char>, pos: int)
    requires
        0 <= pos,
        parse_integer(input, pos) is Ok,
    ensures
        pos < parse_integer(input, pos)->Ok_0.1 <= input.len(),
{
    let start = if input[pos] == '-' {
        pos + 1
    } else {
        pos
    };
    lemma_run_end_bounds(input, start);
}

/// Reading gives an integer back from its literal, where that stands in
/// `input` at `pos` and a number may end after it.
pub proof fn lemma_parse_integer_literal(input: Seq<char>, pos: int, v: i64)
    requires
        0 <= pos,
        pos + integer_literal(v as int).len() <= input.len(),
        input.subrange(pos, pos + integer_literal(v as int).len()) == integer_literal(v as int),
        is_number_end(input, pos + integer_literal(v as int).len()),
    ensures
        parse_integer(input, pos) == Ok::<(i64, int), Error>(
            (v, pos + integer_literal(v as int).len()),
        ),
{
    let literal = integer_literal(v as int);
    let end = pos + literal.len();
    let window = input.subrange(pos, end);
    lemma_integer_literal_len(v as int);
    let magnitude: nat = if v < 0 {
        (-v) as nat
    } else {
        v as nat
    };
    lemma_digits(magnitude);
    let text = magnitude_literal(magnitude);
    assert(text.len() >= 1);
    assert forall|k: int| 0 <= k < text.len() implies is_digit(#[trigger] text[k]) by {
        if magnitude > 0 {
            assert(text[k] == digits(magnitude)[k]);
        }
    }
    assert(digits_value(text) == magnitude) by {
        if magnitude == 0 {
            assert(text.drop_last() =~= Seq::<char>::empty());
            assert(digits_value(text.drop_last()) == 0);
        }
    }
    let start = if v < 0 {
        pos + 1
    } else {
        pos
    };
    assert(input[pos] == window[0]);
    if v < 0 {
        assert(literal == seq!['-'] + text);
        assert(window[0] == '-');
    } else {
        assert(literal == text);
        assert(is_digit(window[0]));
    }
    assert(input.subrange(start, end) =~= text) by {
        assert forall|k: int| 0 <= k < text.len() implies input.subrange(start, end)[k] == text[k] by {
            assert(input[start + k] == window[start - pos + k]);
        }
    }
    assert forall|k: int| start <= k < end implies is_digit(#[trigger] input[k]) by {
        assert(input[k] == input.subrange(start, end)[k - start]);
    }
    lemma_run_end(input, start, end);
}

/// The digit for `d`.
pub fn base62_digit(d: u8) -> (c: char)
    requires
        d < 62,
    ensures
        c == digit_char(d as int),
{
    if d < 10 {
        (48 + d) as char
    } else if d < 36 {
        (55 + d) as char
    } else {
        (61 + d) as char
    }
}

/// Whether `c` is a digit, and what it is worth.
pub fn parse_char(c: char) -> (d: Option<u8>)
    ensures
        d is Some == is_digit(c),
        d matches Some(x) ==> x == digit_value(c) && x < 62,
{
    let code = c as u32;
    if 48 <= code && code <= 57 {
        Some((code - 48) as u8)
    } else if 65 <= code && code <= 90 {
        Some((code - 55) as u8)
    } else if 97 <= code && code <= 122 {
        Some((code - 61) as u8)
    } else {
        None
    }
}

/// The text of the natural number `n`.
pub fn natural_chars(n: u64) -> (out: Vec<char>)
    ensures
        out@ == integer_literal(n as int),
{
    let mut out: Vec<char> = Vec::new();
    if n == 0 {
        out.push('0');
        assert(out@ =~= integer_literal(0));
        return out;
    }
    let mut rest = n;
    let mut reversed: Vec<char> = Vec::new();
    let ghost mut tail: Seq<char> = Seq::empty();
    while rest > 0
        invariant
            digits(n as nat) == digits(rest as nat) + tail,
            tail.len() == reversed.len(),
            forall|j: int| 0 <= j < tail.len() ==> tail[j] == reversed@[reversed.len() - 1 - j],
        decreases rest,
    {
        let c = base62_digit((rest % 62) as u8);
        reversed.push(c);
        proof {
            assert(digits(rest as nat) == digits((rest / 62) as nat).push(c));
            assert(digits((rest / 62) as nat).push(c) + tail =~= digits((rest / 62) as nat) + (
            seq![c] + tail));
            tail = seq![c] + tail;
        }
        rest = rest / 62;
    }
    assert(digits(0) + tail =~= tail);
    let mut i: usize = reversed.len();
    while i > 0
        invariant
            i <= reversed.len(),
            tail.len() == reversed.len(),
            forall|j: int| 0 <= j < tail.len() ==> tail[j] == reversed@[reversed.len() - 1 - j],
            out@ == tail.take(reversed.len() - i),
        decreases i,
    {
        i -= 1;
        out.push(reversed[i]);
        assert(tail.take(reversed.len() - i) =~= tail.take(reversed.len() - i - 1).push(
            reversed@[i as int],
        ));
    }
    assert(tail.take(reversed.len() as int) =~= tail);
    out
}

/// The text of `v`.
pub fn integer_chars(v: i64) -> (out: Vec<char>)
    ensures
        out@ == integer_literal(v as int),
{
    if v < 0 {
        let magnitude: u64 = if v == i64::MIN {
            0x8000_0000_0000_0000u64
        } else {
            (-v) as u64
        };
        let mut out: Vec<char> = Vec::new();
        out.push('-');
        let tail = natural_chars(magnitude);
        append(&mut out, &tail);
        assert(out@ =~= integer_literal(v as int));
        out
    } else {
        natural_chars(v as u64)
    }
}

/// Reads an integer at `pos`.
pub fn parse_integer_at(input: &Vec<char>, pos: usize) -> (r: Result<(i64, usize)>)
    ensures
        agrees(r, parse_integer(input@, pos as int)),
        r matches Ok((_, next)) ==> pos < next <= input@.len(),
{
    let n = input.len();
    if pos >= n {
        return Err(Error::Eof);
    }
    let negative = input[pos] == '-';
    let start: usize = if negative {
        pos + 1
    } else {
        pos
    };
    let mut i: usize = start;
    let mut magnitude: u64 = 0;
    let mut overflow = false;
    loop
        invariant_except_break
            start <= i <= n,
            n == input@.len(),
            run_end(input@, i as int) == run_end(input@, start as int),
        invariant
            start <= i <= n,
            n == input@.len(),
            !overflow ==> magnitude == digits_value(input@.subrange(start as int, i as int))
                && magnitude <= 0x8000_0000_0000_0000,
            overflow ==> digits_value(input@.subrange(start as int, i as int))
                > 0x8000_0000_0000_0000,
        ensures
            i as int == run_end(input@, start as int),
        decreases n - i,
    {
        if i >= n {
            break ;
        }
        let d = match parse_char(input[i]) {
            Some(d) => d,
            None => {
                break ;
            },
        };
        proof {
            let before = input@.subrange(start as int, i as int);
            let after = input@.subrange(start as int, i + 1);
            assert(after.drop_last() =~= before);
            assert(after.last() == input@[i as int]);
        }
        if !overflow {
            let next: u128 = magnitude as u128 * 62 + d as u128;
            if next > 0x8000_0000_0000_0000u128 {
                overflow = true;
            } else {
                magnitude = next as u64;
            }
        }
        i += 1;
    }
    if i == start {
        return if start >= n {
            Err(Error::Eof)
        } else {
            Err(Error::ExpectedInteger)
        };
    }
    if i < n {
        let c = input[i];
        if !(c as u32 > DELIMITING_TOKENS_THRESHOLD || c == FLOAT_FULL_PRECISION_DELIMITER || c
            == FLOAT_REDUCED_PRECISION_DELIMITER) {
            return Err(Error::ExpectedInteger);
        }
    }
    if overflow {
        return Err(Error::ExpectedInteger);
    }
    if negative {
        if magnitude == 0x8000_0000_0000_0000u64 {
            Ok((i64::MIN, i))
        } else {
            Ok((-(magnitude as i64), i))
        }
    } else {
        if magnitude == 0x8000_0000_0000_0000u64 {
            Err(Error::ExpectedInteger)
        } else {
            Ok((magnitude as i64, i))
        }
    }
}

} // verus!

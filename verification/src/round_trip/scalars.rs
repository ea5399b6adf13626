//! Integers, floats, strings and dates are read back.
use vstd::prelude::*;
use crate::constants::{
    DATE_LOW_PRECISION, DATE_TOKEN, FLOAT_FULL_PRECISION_DELIMITER,
    FLOAT_REDUCED_PRECISION_DELIMITER, FLOAT_TOKEN, INTEGER_TOKEN, LP_DATE_TOKEN, REF_DATE_TOKEN,
    REF_FLOAT_TOKEN, REF_INTEGER_TOKEN, REF_LP_DATE_TOKEN, REF_STRING_TOKEN, STRING_TOKEN,
    UNREFERENCED_DATE_TOKEN, UNREFERENCED_FLOAT_TOKEN, UNREFERENCED_INTEGER_TOKEN,
    UNREFERENCED_LP_DATE_TOKEN, UNREFERENCED_STRING_TOKEN,
};
use crate::date::{decimal_run_end, is_decimal, rfc3339_millis, utc_text};
use crate::dict::{Interned, position};
use crate::error::Error;
use crate::escape::{escape, lemma_scan_escaped};
use crate::grammar::{decode_text, decode_value, Decoded, parse_float, Resolved};
use crate::integer::{
    digits, integer_literal, is_digit, lemma_digits, lemma_integer_literal_len,
    lemma_parse_integer_literal, parse_integer,
};
use crate::laws::{fits, float_ok, is_date, read_float, read_text, text_ok};
use crate::round_trip::{
    float_of, in_step, is_float_literal, lemma_stands_char, lemma_stands_split, stands_at, tidy,
    value_ends,
};
use crate::value::{FloatView, ValueView};
use crate::wire::{
    encode_float, encode_integer, encode_plain_string, encode_string, float_literal, is_small,
    Options, registers,
};

verus! {

/// The position of a registered key is that of an entry that holds it.
pub proof fn lemma_position<K>(registered: Seq<K>, key: K)
    requires
        registered.contains(key),
    ensures
        0 <= position(registered, key) < registered.len(),
        registered[position(registered, key)] == key,
{
    let i = choose|i: int| 0 <= i < registered.len() && registered[i] == key;
    assert(0 <= i < registered.len() && registered[i] == key);
}

/// Pushing a value that is not there keeps a sequence free of duplicates.
pub proof fn lemma_push_new<K>(registered: Seq<K>, key: K)
    requires
        registered.no_duplicates(),
        !registered.contains(key),
    ensures
        registered.push(key).no_duplicates(),
{
    let after = registered.push(key);
    assert forall|i: int, j: int| 0 <= i < after.len() && 0 <= j < after.len() && i != j implies after[i]
        != after[j] by {
        if i < registered.len() && j < registered.len() {
        } else if i < registered.len() {
            assert(registered[i] == after[i]);
        } else {
            assert(registered[j] == after[j]);
        }
    }
}

/// A written integer is read back, and writer and reader stay in step.
pub proof fn lemma_decode_integer(
    v: i64,
    e: Interned,
    d: Resolved,
    input: Seq<char>,
    pos: int,
    full_precision: bool,
    dates: Set<Seq<char>>,
)
    requires
        tidy(e, full_precision, dates),
        in_step(e, d),
        fits(encode_integer(v, e).1),
        stands_at(input, pos, encode_integer(v, e).0),
        value_ends(input, pos + encode_integer(v, e).0.len()),
    ensures
        decode_value(input, pos, d) matches Ok(r) && r.value == ValueView::Int(v) && r.next == pos
            + encode_integer(v, e).0.len() && in_step(encode_integer(v, e).1, r.resolved),
        tidy(encode_integer(v, e).1, full_precision, dates),
{
    let text = encode_integer(v, e).0;
    if is_small(v) {
        lemma_stands_char(input, pos, text, 0);
    } else {
        let literal = integer_literal(v as int);
        lemma_integer_literal_len(v as int);
        if e.integers.contains(v) {
            let index = position(e.integers, v);
            lemma_position(e.integers, v);
            lemma_stands_char(input, pos, text, 0);
            lemma_stands_split(input, pos, seq![REF_INTEGER_TOKEN], integer_literal(index));
            lemma_parse_integer_literal(input, pos + 1, index as i64);
        } else {
            lemma_stands_char(input, pos, text, 0);
            if registers(e.integers.len(), literal) {
                lemma_stands_split(input, pos, seq![INTEGER_TOKEN], literal);
                lemma_push_new(e.integers, v);
            } else {
                lemma_stands_split(input, pos, seq![UNREFERENCED_INTEGER_TOKEN], literal);
            }
            lemma_parse_integer_literal(input, pos + 1, v);
        }
    }
}

/// A run of decimal digits that starts at `i` ends where the digits end.
pub proof fn lemma_decimal_run_end(input: Seq<char>, i: int, end: int)
    requires
        0 <= i <= end <= input.len(),
        forall|k: int| i <= k < end ==> is_decimal(#[trigger] input[k]),
        end < input.len() ==> !is_decimal(input[end]),
    ensures
        decimal_run_end(input, i) == end,
    decreases end - i,
{
    if i < end {
        lemma_decimal_run_end(input, i + 1, end);
    }
}

/// Reading gives back what a float's literal holds, where the literal
/// stands in `input` at `pos` and a value may end after it.
pub proof fn lemma_parse_float_literal(
    f: FloatView,
    full_precision: bool,
    input: Seq<char>,
    pos: int,
)
    requires
        float_ok(f),
        stands_at(input, pos, float_literal(f, full_precision)),
        value_ends(input, pos + float_literal(f, full_precision).len()),
    ensures
        parse_float(input, pos) == Ok::<(FloatView, int), Error>(
            (read_float(f, full_precision), pos + float_literal(f, full_precision).len()),
        ),
        float_literal(read_float(f, full_precision), full_precision) == float_literal(
            f,
            full_precision,
        ),
{
    let literal = float_literal(f, full_precision);
    let whole = integer_literal(f.integer as int);
    lemma_integer_literal_len(f.integer as int);
    if f.integer >= 0 {
        lemma_digits(f.integer as nat);
        assert(is_digit(whole[0]));
    } else {
        assert(whole[0] == '-');
    }
    if full_precision {
        let sign = if f.negative && f.integer == 0 && f.digits.len() > 0 {
            seq!['-']
        } else {
            Seq::<char>::empty()
        };
        let digits = if f.digits.len() > 0 {
            f.digits
        } else {
            seq!['0']
        };
        let comma = seq![FLOAT_FULL_PRECISION_DELIMITER];
        assert(literal == sign + whole + comma + digits);
        lemma_stands_split(input, pos, sign + whole + comma, digits);
        lemma_stands_split(input, pos, sign + whole, comma);
        lemma_stands_split(input, pos, sign, whole);
        let at = pos + sign.len() + whole.len();
        lemma_stands_char(input, at, comma, 0);
        lemma_stands_char(input, pos + sign.len(), whole, 0);
        lemma_parse_integer_literal(input, pos + sign.len(), f.integer);
        if sign.len() > 0 {
            lemma_stands_char(input, pos, sign, 0);
            assert(whole =~= seq!['0']);
            assert(parse_integer(input, pos) == Ok::<(i64, int), Error>((0i64, at)));
        }
        assert forall|k: int| at + 1 <= k < at + 1 + digits.len() implies is_decimal(
            #[trigger] input[k],
        ) by {
            lemma_stands_char(input, at + 1, digits, k - at - 1);
        }
        lemma_decimal_run_end(input, at + 1, at + 1 + digits.len());
    } else {
        let point = seq![FLOAT_REDUCED_PRECISION_DELIMITER];
        let fraction = integer_literal(f.thousandths as int);
        assert(literal == whole + point + fraction);
        lemma_stands_split(input, pos, whole + point, fraction);
        lemma_stands_split(input, pos, whole, point);
        lemma_stands_char(input, pos, whole, 0);
        lemma_stands_char(input, pos + whole.len(), point, 0);
        lemma_parse_integer_literal(input, pos, f.integer);
        lemma_parse_integer_literal(input, pos + whole.len() + 1, f.thousandths);
    }
}

/// A float's literal is the literal of the float that it stands for.
pub proof fn lemma_float_literal(f: FloatView, full_precision: bool)
    requires
        float_ok(f),
    ensures
        is_float_literal(float_literal(f, full_precision), full_precision),
        float_of(float_literal(f, full_precision)) == read_float(f, full_precision),
{
    let literal = float_literal(f, full_precision);
    assert(literal.subrange(0, literal.len() as int) =~= literal);
    lemma_parse_float_literal(f, full_precision, literal, 0);
}

/// A written float is read back as what its literal holds, and writer and
/// reader stay in step.
pub proof fn lemma_decode_float(
    f: FloatView,
    e: Interned,
    d: Resolved,
    input: Seq<char>,
    pos: int,
    full_precision: bool,
    dates: Set<Seq<char>>,
)
    requires
        float_ok(f),
        tidy(e, full_precision, dates),
        in_step(e, d),
        fits(encode_float(f, e, full_precision).1),
        stands_at(input, pos, encode_float(f, e, full_precision).0),
        value_ends(input, pos + encode_float(f, e, full_precision).0.len()),
    ensures
        decode_value(input, pos, d) matches Ok(r) && r.value == ValueView::Float(
            read_float(f, full_precision),
        ) && r.next == pos + encode_float(f, e, full_precision).0.len() && in_step(
            encode_float(f, e, full_precision).1,
            r.resolved,
        ),
        tidy(encode_float(f, e, full_precision).1, full_precision, dates),
{
    let text = encode_float(f, e, full_precision).0;
    let after = encode_float(f, e, full_precision).1;
    let literal = float_literal(f, full_precision);
    lemma_float_literal(f, full_precision);
    lemma_stands_char(input, pos, text, 0);
    if e.floats.contains(literal) {
        let index = position(e.floats, literal);
        lemma_position(e.floats, literal);
        lemma_stands_split(input, pos, seq![REF_FLOAT_TOKEN], integer_literal(index));
        lemma_parse_integer_literal(input, pos + 1, index as i64);
        assert(d.floats[index] == float_of(e.floats[index]));
    } else {
        if registers(e.floats.len(), literal) {
            lemma_stands_split(input, pos, seq![FLOAT_TOKEN], literal);
            lemma_push_new(e.floats, literal);
            lemma_parse_float_literal(f, full_precision, input, pos + 1);
            let r = decode_value(input, pos, d)->Ok_0;
            assert(r.resolved.floats =~= Seq::new(
                after.floats.len(),
                |i: int| float_of(after.floats[i]),
            ));
            assert forall|i: int| 0 <= i < after.floats.len() implies is_float_literal(
                #[trigger] after.floats[i],
                full_precision,
            ) by {
                if i < e.floats.len() {
                    assert(after.floats[i] == e.floats[i]);
                }
            }
        } else {
            lemma_stands_split(input, pos, seq![UNREFERENCED_FLOAT_TOKEN], literal);
            lemma_parse_float_literal(f, full_precision, input, pos + 1);
        }
    }
}

/// A written string is read back, a date as its text in UTC, and writer
/// and reader stay in step.
pub proof fn lemma_decode_text(
    s: Seq<char>,
    e: Interned,
    d: Resolved,
    input: Seq<char>,
    pos: int,
    o: Options,
    dates: Set<Seq<char>>,
)
    requires
        text_ok(s, o.detect_utc_timestamps, dates),
        tidy(e, o.full_precision_floats, dates),
        in_step(e, d),
        fits(encode_string(s, e, o.detect_utc_timestamps).1),
        stands_at(input, pos, encode_string(s, e, o.detect_utc_timestamps).0),
        value_ends(input, pos + encode_string(s, e, o.detect_utc_timestamps).0.len()),
    ensures
        decode_text(input, pos, d) matches Ok(t) && t.text == read_text(
            s,
            o.detect_utc_timestamps,
        ) && t.next == pos + encode_string(s, e, o.detect_utc_timestamps).0.len() && in_step(
            encode_string(s, e, o.detect_utc_timestamps).1,
            t.resolved,
        ) && decode_value(input, pos, d) == Ok::<Decoded, Error>(
            Decoded { value: ValueView::Str(t.text), next: t.next, resolved: t.resolved },
        ),
        tidy(encode_string(s, e, o.detect_utc_timestamps).1, o.full_precision_floats, dates),
{
    let detect = o.detect_utc_timestamps;
    let text = encode_string(s, e, detect).0;
    let after = encode_string(s, e, detect).1;
    if is_date(s, detect) {
        let millis = rfc3339_millis(s)->0;
        let read = utc_text(millis)->0;
        assert(read_text(s, true) == read);
        if (millis as int) % (DATE_LOW_PRECISION as int) == 0 {
            let tenths = ((millis as int) / (DATE_LOW_PRECISION as int)) as i64;
            let literal = integer_literal(tenths as int);
            lemma_integer_literal_len(tenths as int);
            if e.lp_dates.contains(s) {
                let index = position(e.lp_dates, s);
                lemma_position(e.lp_dates, s);
                lemma_stands_char(input, pos, text, 0);
                lemma_stands_split(input, pos, seq![REF_LP_DATE_TOKEN], integer_literal(index));
                lemma_parse_integer_literal(input, pos + 1, index as i64);
                assert(d.lp_dates[index] == read_text(e.lp_dates[index], true));
            } else {
                lemma_stands_char(input, pos, text, 0);
                if registers(e.lp_dates.len(), literal) {
                    lemma_stands_split(input, pos, seq![LP_DATE_TOKEN], literal);
                    lemma_push_new(e.lp_dates, s);
                    lemma_parse_integer_literal(input, pos + 1, tenths);
                    let t = decode_text(input, pos, d)->Ok_0;
                    assert(t.resolved.lp_dates =~= Seq::new(
                        after.lp_dates.len(),
                        |i: int| read_text(after.lp_dates[i], true),
                    ));
                    assert forall|i: int| 0 <= i < after.lp_dates.len() implies dates.contains(
                        #[trigger] after.lp_dates[i],
                    ) by {
                        if i < e.lp_dates.len() {
                            assert(after.lp_dates[i] == e.lp_dates[i]);
                        }
                    }
                } else {
                    lemma_stands_split(input, pos, seq![UNREFERENCED_LP_DATE_TOKEN], literal);
                    lemma_parse_integer_literal(input, pos + 1, tenths);
                }
            }
        } else {
            let literal = integer_literal(millis as int);
            lemma_integer_literal_len(millis as int);
            if e.dates.contains(s) {
                let index = position(e.dates, s);
                lemma_position(e.dates, s);
                lemma_stands_char(input, pos, text, 0);
                lemma_stands_split(input, pos, seq![REF_DATE_TOKEN], integer_literal(index));
                lemma_parse_integer_literal(input, pos + 1, index as i64);
                assert(d.dates[index] == read_text(e.dates[index], true));
            } else {
                lemma_stands_char(input, pos, text, 0);
                if registers(e.dates.len(), literal) {
                    lemma_stands_split(input, pos, seq![DATE_TOKEN], literal);
                    lemma_push_new(e.dates, s);
                    lemma_parse_integer_literal(input, pos + 1, millis);
                    let t = decode_text(input, pos, d)->Ok_0;
                    assert(t.resolved.dates =~= Seq::new(
                        after.dates.len(),
                        |i: int| read_text(after.dates[i], true),
                    ));
                    assert forall|i: int| 0 <= i < after.dates.len() implies dates.contains(
                        #[trigger] after.dates[i],
                    ) by {
                        if i < e.dates.len() {
                            assert(after.dates[i] == e.dates[i]);
                        }
                    }
                } else {
                    lemma_stands_split(input, pos, seq![UNREFERENCED_DATE_TOKEN], literal);
                    lemma_parse_integer_literal(input, pos + 1, millis);
                }
            }
        }
    } else {
        assert(encode_string(s, e, detect) == encode_plain_string(s, e));
        lemma_stands_char(input, pos, text, 0);
        if e.strings.contains(s) {
            let index = position(e.strings, s);
            lemma_position(e.strings, s);
            lemma_stands_split(input, pos, seq![REF_STRING_TOKEN], integer_literal(index));
            lemma_parse_integer_literal(input, pos + 1, index as i64);
        } else {
            let delimiter = if registers(e.strings.len(), escape(s, STRING_TOKEN)) {
                STRING_TOKEN
            } else {
                UNREFERENCED_STRING_TOKEN
            };
            let escaped = escape(s, delimiter);
            assert(text == seq![delimiter] + escaped + seq![delimiter]);
            lemma_stands_split(input, pos, seq![delimiter] + escaped, seq![delimiter]);
            lemma_stands_split(input, pos, seq![delimiter], escaped);
            lemma_stands_char(input, pos + 1 + escaped.len(), seq![delimiter], 0);
            lemma_scan_escaped(input, pos + 1, s, delimiter, Seq::empty());
            assert(Seq::<char>::empty() + s =~= s);
            if delimiter == STRING_TOKEN {
                lemma_push_new(e.strings, s);
            }
        }
    }
}

} // verus!

//! What writing a value means: for each value and what is registered, the
//! text that stands for it, and what is registered then.
use vstd::prelude::*;
use crate::constants::{
    ARRAY_END_TOKEN, ARRAY_REPEAT_COUNT_THRESHOLD, ARRAY_REPEAT_MANY_TOKEN, ARRAY_REPEAT_TOKEN,
    ARRAY_START_TOKEN, BOOLEAN_FALSE_TOKEN, BOOLEAN_TRUE_TOKEN, DATE_LOW_PRECISION, DATE_TOKEN,
    FLOAT_FULL_PRECISION_DELIMITER, FLOAT_REDUCED_PRECISION_DELIMITER, FLOAT_TOKEN,
    INTEGER_SMALL_EXCLUSIVE_BOUND_LOWER, INTEGER_SMALL_EXCLUSIVE_BOUND_UPPER,
    INTEGER_SMALL_TOKEN_OFFSET, INTEGER_TOKEN, LP_DATE_TOKEN, NULL_TOKEN, OBJECT_END_TOKEN,
    OBJECT_START_TOKEN, REF_DATE_TOKEN, REF_FLOAT_TOKEN, REF_INTEGER_TOKEN, REF_LP_DATE_TOKEN,
    REF_STRING_TOKEN, STRING_TOKEN, UNREFERENCED_DATE_TOKEN, UNREFERENCED_FLOAT_TOKEN,
    UNREFERENCED_INTEGER_TOKEN, UNREFERENCED_LP_DATE_TOKEN, UNREFERENCED_STRING_TOKEN,
};
use crate::date::{is_date_shaped, rfc3339_millis};
use crate::dict::{Interned, position};
use crate::escape::escape;
use crate::integer::integer_literal;
use crate::value::{FloatView, ValueView};

verus! {

/// The two choices that a document is written with.
pub struct Options {
    /// Floats keep all their decimals; otherwise they keep three.
    pub full_precision_floats: bool,
    /// Strings that are timestamps are written as dates.
    pub detect_utc_timestamps: bool,
}

/// Whether `v` is written as a single token.
pub open spec fn is_small(v: i64) -> bool {
    INTEGER_SMALL_EXCLUSIVE_BOUND_LOWER < v && v < INTEGER_SMALL_EXCLUSIVE_BOUND_UPPER
}

/// The token that stands for the small integer `v`.
pub open spec fn small_integer_token(v: i64) -> char {
    (v + INTEGER_SMALL_TOKEN_OFFSET) as char
}

/// Whether a value whose literal is `literal` is registered, when `count`
/// values of its kind are registered already: when the index that it would
/// get is shorter than the literal.
pub open spec fn registers(count: nat, literal: Seq<char>) -> bool {
    integer_literal(count as int).len() < literal.len()
}

/// How a value with key `key` and literal `literal` is written, and what
/// is registered afterwards. A registered key is always written as a
/// reference to its position. A new one is written as its literal, and is
/// registered where `registers` says so.
pub open spec fn intern<K>(
    registered: Seq<K>,
    key: K,
    literal: Seq<char>,
    register: char,
    unreferenced: char,
    reference: char,
) -> (Seq<char>, Seq<K>) {
    if registered.contains(key) {
        (seq![reference] + integer_literal(position(registered, key)), registered)
    } else if registers(registered.len(), literal) {
        (seq![register] + literal, registered.push(key))
    } else {
        (seq![unreferenced] + literal, registered)
    }
}

/// How an integer is written.
pub open spec fn encode_integer(v: i64, d: Interned) -> (Seq<char>, Interned) {
    if is_small(v) {
        (seq![small_integer_token(v)], d)
    } else {
        let (text, integers) = intern(
            d.integers,
            v,
            integer_literal(v as int),
            INTEGER_TOKEN,
            UNREFERENCED_INTEGER_TOKEN,
            REF_INTEGER_TOKEN,
        );
        (text, Interned { integers, ..d })
    }
}

/// The literal of a float. With all decimals: a minus sign where the
/// integer part is zero and the number negative with a fraction, the integer
/// part, a comma, and the fraction's digits, or `0` where there are none.
/// With three decimals: the integer part, a point, and the thousandths with
/// their own sign.
pub open spec fn float_literal(f: FloatView, full_precision: bool) -> Seq<char> {
    if full_precision {
        (if f.negative && f.integer == 0 && f.digits.len() > 0 {
            seq!['-']
        } else {
            Seq::<char>::empty()
        }) + integer_literal(f.integer as int) + seq![FLOAT_FULL_PRECISION_DELIMITER] + (
        if f.digits.len() > 0 {
            f.digits
        } else {
            seq!['0']
        })
    } else {
        integer_literal(f.integer as int) + seq![FLOAT_REDUCED_PRECISION_DELIMITER]
            + integer_literal(f.thousandths as int)
    }
}

/// How a float is written. Floats are registered under their literal.
pub open spec fn encode_float(f: FloatView, d: Interned, full_precision: bool) -> (
    Seq<char>,
    Interned,
) {
    let literal = float_literal(f, full_precision);
    let (text, floats) = intern(
        d.floats,
        literal,
        literal,
        FLOAT_TOKEN,
        UNREFERENCED_FLOAT_TOKEN,
        REF_FLOAT_TOKEN,
    );
    (text, Interned { floats, ..d })
}

/// How a string is written that is not taken as a date. Registered, it stands
/// between two string tokens, and otherwise between two of the other
/// delimiter; which of the two is decided on its escaped form for the
/// first.
pub open spec fn encode_plain_string(s: Seq<char>, d: Interned) -> (Seq<char>, Interned) {
    if d.strings.contains(s) {
        (seq![REF_STRING_TOKEN] + integer_literal(position(d.strings, s)), d)
    } else if registers(d.strings.len(), escape(s, STRING_TOKEN)) {
        (
            seq![STRING_TOKEN] + escape(s, STRING_TOKEN) + seq![STRING_TOKEN],
            Interned { strings: d.strings.push(s), ..d },
        )
    } else {
        (
            seq![UNREFERENCED_STRING_TOKEN] + escape(s, UNREFERENCED_STRING_TOKEN)
                + seq![UNREFERENCED_STRING_TOKEN],
            d,
        )
    }
}

/// How a timestamp is written whose instant is `millis`: in units of a
/// hundred milliseconds where that is exact, else in milliseconds. Both
/// kinds are registered under the string itself.
pub open spec fn encode_date(s: Seq<char>, millis: i64, d: Interned) -> (Seq<char>, Interned) {
    if (millis as int) % (DATE_LOW_PRECISION as int) == 0 {
        let (text, lp_dates) = intern(
            d.lp_dates,
            s,
            integer_literal((millis as int) / (DATE_LOW_PRECISION as int)),
            LP_DATE_TOKEN,
            UNREFERENCED_LP_DATE_TOKEN,
            REF_LP_DATE_TOKEN,
        );
        (text, Interned { lp_dates, ..d })
    } else {
        let (text, dates) = intern(
            d.dates,
            s,
            integer_literal(millis as int),
            DATE_TOKEN,
            UNREFERENCED_DATE_TOKEN,
            REF_DATE_TOKEN,
        );
        (text, Interned { dates, ..d })
    }
}

/// How a string is written: as a date where dates are detected, it has the
/// shape of a timestamp and is a valid one, and as a plain string otherwise.
pub open spec fn encode_string(s: Seq<char>, d: Interned, detect_utc_timestamps: bool) -> (
    Seq<char>,
    Interned,
) {
    if detect_utc_timestamps && is_date_shaped(s) {
        match rfc3339_millis(s) {
            Some(millis) => encode_date(s, millis, d),
            None => encode_plain_string(s, d),
        }
    } else {
        encode_plain_string(s, d)
    }
}

/// Where the writer of an array stands: the text of the element that the
/// current run started with, if any, and how often it has been repeated.
pub struct Run {
    pub last: Option<Seq<char>>,
    pub count: nat,
}

/// What is written for the current run when the next element is known
/// (`is_repeat`: it continues the run) or the array ends. The element's own
/// text the first time; one repeat token for each of the next repeats below
/// the threshold; nothing while a longer run goes on; and, when such a run
/// ends, one counted repeat token for all repeats from the threshold on.
pub open spec fn flush(run: Run, is_repeat: bool) -> Seq<char> {
    match run.last {
        None => Seq::empty(),
        Some(last) => if run.count == 0 {
            last
        } else if run.count < ARRAY_REPEAT_COUNT_THRESHOLD {
            seq![ARRAY_REPEAT_TOKEN]
        } else if !is_repeat {
            seq![ARRAY_REPEAT_MANY_TOKEN] + integer_literal(
                run.count - ARRAY_REPEAT_COUNT_THRESHOLD + 1,
            )
        } else {
            Seq::empty()
        },
    }
}

/// What the element with text `text` makes the writer write, and where
/// the writer stands afterwards. Two elements belong to one run when their
/// texts are equal, whatever values they stand for.
pub open spec fn step(run: Run, text: Seq<char>) -> (Seq<char>, Run) {
    match run.last {
        None => (Seq::empty(), Run { last: Some(text), count: run.count }),
        Some(last) => if last == text {
            (flush(run, true), Run { last: run.last, count: run.count + 1 })
        } else {
            (flush(run, false), Run { last: Some(text), count: 0 })
        },
    }
}

/// What the elements with the given texts make the writer write, one
/// after the other, and where it stands afterwards.
pub open spec fn run_length(texts: Seq<Seq<char>>) -> (Seq<char>, Run)
    decreases texts.len(),
{
    if texts.len() == 0 {
        (Seq::empty(), Run { last: None, count: 0 })
    } else {
        let (written, run) = run_length(texts.drop_last());
        let (more, next) = step(run, texts.last());
        (written + more, next)
    }
}

/// What stands between the tokens of an array whose elements have the
/// given texts.
pub open spec fn array_body(texts: Seq<Seq<char>>) -> Seq<char> {
    let (written, run) = run_length(texts);
    written + flush(run, false)
}

/// How a value is written when `d` is registered, and what is registered
/// afterwards.
pub open spec fn encode_value(v: ValueView, d: Interned, o: Options) -> (Seq<char>, Interned)
    decreases v, 0nat,
{
    match v {
        ValueView::Undefined => (seq![NULL_TOKEN], d),
        ValueView::Null => (seq![NULL_TOKEN], d),
        ValueView::Bool(b) => (
            seq![if b {
                BOOLEAN_TRUE_TOKEN
            } else {
                BOOLEAN_FALSE_TOKEN
            }],
            d,
        ),
        ValueView::Int(i) => encode_integer(i, d),
        ValueView::Float(f) => encode_float(f, d, o.full_precision_floats),
        ValueView::Str(s) => encode_string(s, d, o.detect_utc_timestamps),
        ValueView::Array(items) => {
            let (texts, after) = encode_items(items, items.len(), d, o);
            (seq![ARRAY_START_TOKEN] + array_body(texts) + seq![ARRAY_END_TOKEN], after)
        },
        ValueView::Object(entries) => {
            let (text, after) = encode_entries(entries, entries.len(), d, o);
            (seq![OBJECT_START_TOKEN] + text + seq![OBJECT_END_TOKEN], after)
        },
    }
}

/// The texts of the first `n` of an array's elements, each written with
/// what the ones before it registered, and what is registered afterwards.
pub open spec fn encode_items(items: Seq<ValueView>, n: nat, d: Interned, o: Options) -> (
    Seq<Seq<char>>,
    Interned,
)
    decreases items, n,
{
    if n == 0 || n > items.len() {
        (Seq::empty(), d)
    } else {
        let (texts, before) = encode_items(items, (n - 1) as nat, d, o);
        let (text, after) = encode_value(items[n - 1], before, o);
        (texts.push(text), after)
    }
}

/// The text of the first `n` of an object's entries: each key, written as
/// a string is, and then its value.
pub open spec fn encode_entries(
    entries: Seq<(Seq<char>, ValueView)>,
    n: nat,
    d: Interned,
    o: Options,
) -> (Seq<char>, Interned)
    decreases entries, n,
{
    if n == 0 || n > entries.len() {
        (Seq::empty(), d)
    } else {
        let (written, before) = encode_entries(entries, (n - 1) as nat, d, o);
        let (key, with_key) = encode_string(entries[n - 1].0, before, o.detect_utc_timestamps);
        let (value, after) = encode_value(entries[n - 1].1, with_key, o);
        (written + key + value, after)
    }
}

/// The document that stands for `v`.
pub open spec fn encode(
    v: ValueView,
    full_precision_floats: bool,
    detect_utc_timestamps: bool,
) -> Seq<char> {
    encode_value(
        v,
        Interned::empty(),
        Options { full_precision_floats, detect_utc_timestamps },
    ).0
}

} // verus!

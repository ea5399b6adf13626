//! What holds of the codec as a whole.
use vstd::prelude::*;
use crate::constants::{
    ARRAY_REPEAT_COUNT_THRESHOLD, ARRAY_REPEAT_MANY_TOKEN, ARRAY_REPEAT_TOKEN, DATE_LOW_PRECISION,
};
use crate::date::{is_date_shaped, is_decimal, rfc3339_millis, utc_text};
use crate::dict::{Interned, position};
use crate::error::Error;
use crate::grammar::{decode, is_small_token, Resolved, upsert};
use crate::integer::{integer_literal, lemma_integer_literal_len, lemma_parse_integer_literal};
use crate::round_trip::{lemma_stands_char, lemma_stands_split, reader_of};
use crate::round_trip::growth::lemma_encoded;
use crate::round_trip::values::lemma_decode_encoded;
use crate::value::{FloatView, ValueView};
use crate::wire::{array_body, encode, encode_integer, encode_value, Options, Run, run_length};

verus! {

/// Round trip: reading the document written for a value gives the
/// value back, as `as_read` says: null for undefined, for a float what its
/// literal holds, and for a string written as a date the text of its instant
/// in UTC.
///
/// It holds for every value whose floats have decimal digits and whose dates
/// have a text, in which different date strings name different instants,
/// and in which no array or index outgrows a 64-bit integer.
pub proof fn lemma_round_trip(
    v: ValueView,
    full_precision_floats: bool,
    detect_utc_timestamps: bool,
)
    requires
        readable(v, Options { full_precision_floats, detect_utc_timestamps }),
        distinct_instants(date_strings(v, detect_utc_timestamps)),
        fits(
            encode_value(
                v,
                Interned::empty(),
                Options { full_precision_floats, detect_utc_timestamps },
            ).1,
        ),
    ensures
        decode(encode(v, full_precision_floats, detect_utc_timestamps)) == Ok::<ValueView, Error>(
            as_read(v, Options { full_precision_floats, detect_utc_timestamps }),
        ),
{
    let o = Options { full_precision_floats, detect_utc_timestamps };
    lemma_well_formed_among_own(v, o, Set::full());
    lemma_round_trip_among(
        v,
        full_precision_floats,
        detect_utc_timestamps,
        date_strings(v, detect_utc_timestamps),
    );
}

/// Round trip, exactly: reading the document written for a value gives
/// the very value back, if it is one that is read back as it is.
pub proof fn lemma_round_trip_exact(
    v: ValueView,
    full_precision_floats: bool,
    detect_utc_timestamps: bool,
)
    requires
        reads_as_written(v, Options { full_precision_floats, detect_utc_timestamps }),
        readable(v, Options { full_precision_floats, detect_utc_timestamps }),
        fits(
            encode_value(
                v,
                Interned::empty(),
                Options { full_precision_floats, detect_utc_timestamps },
            ).1,
        ),
    ensures
        decode(encode(v, full_precision_floats, detect_utc_timestamps)) == Ok::<ValueView, Error>(
            v,
        ),
{
    let o = Options { full_precision_floats, detect_utc_timestamps };
    lemma_read_as_written(v, o);
    lemma_no_dates(v, o);
    lemma_round_trip(v, full_precision_floats, detect_utc_timestamps);
}

/// Round trip, for a value whose date strings are among `dates`, a set in
/// which different strings name different instants.
pub proof fn lemma_round_trip_among(
    v: ValueView,
    full_precision_floats: bool,
    detect_utc_timestamps: bool,
    dates: Set<Seq<char>>,
)
    requires
        well_formed(v, Options { full_precision_floats, detect_utc_timestamps }, dates),
        distinct_instants(dates),
        fits(
            encode_value(
                v,
                Interned::empty(),
                Options { full_precision_floats, detect_utc_timestamps },
            ).1,
        ),
    ensures
        decode(encode(v, full_precision_floats, detect_utc_timestamps)) == Ok::<ValueView, Error>(
            as_read(v, Options { full_precision_floats, detect_utc_timestamps }),
        ),
{
    let o = Options { full_precision_floats, detect_utc_timestamps };
    let text = encode(v, full_precision_floats, detect_utc_timestamps);
    assert(text.subrange(0, text.len() as int) =~= text);
    assert(reader_of(Interned::empty()) =~= Resolved::empty()) by {
        assert(reader_of(Interned::empty()).floats =~= Seq::empty());
        assert(reader_of(Interned::empty()).dates =~= Seq::empty());
        assert(reader_of(Interned::empty()).lp_dates =~= Seq::empty());
    }
    lemma_decode_encoded(v, Interned::empty(), o, dates, text, 0);
}

/// Small-integer boundary: the integers from -9 to 9 are written as one
/// character, a small-integer token, and register nothing; all others
/// are written as a token of another kind and at least one digit.
pub proof fn lemma_small_integer_boundary(v: i64, e: Interned)
    ensures
        -9 <= v <= 9 ==> encode_integer(v, e).0.len() == 1 && is_small_token(
            encode_integer(v, e).0[0],
        ) && encode_integer(v, e).1 == e,
        !(-9 <= v <= 9) ==> encode_integer(v, e).0.len() >= 2 && !is_small_token(
            encode_integer(v, e).0[0],
        ),
{
    if !(-9 <= v <= 9) {
        lemma_integer_literal_len(v as int);
        if e.integers.contains(v) {
            lemma_integer_literal_len(position(e.integers, v));
        }
    }
}

/// Date normalization: a string that is written as a date is read back
/// as the text of its instant in UTC, whatever offset it was given with. If
/// its instant has no such text, reading fails.
pub proof fn lemma_date_normalized(s: Seq<char>, full_precision_floats: bool)
    requires
        is_date_shaped(s),
        rfc3339_millis(s) is Some,
    ensures
        decode(encode(ValueView::Str(s), full_precision_floats, true)) == (match utc_text(
            rfc3339_millis(s)->0,
        ) {
            Some(text) => Ok::<ValueView, Error>(ValueView::Str(text)),
            None => Err::<ValueView, Error>(
                if (rfc3339_millis(s)->0 as int) % (DATE_LOW_PRECISION as int) == 0 {
                    Error::ExpectedLpDate
                } else {
                    Error::ExpectedDate
                },
            ),
        }),
{
    let o = Options { full_precision_floats, detect_utc_timestamps: true };
    let millis = rfc3339_millis(s)->0;
    if utc_text(millis) is Some {
        lemma_encoded(ValueView::Str(s), Interned::empty(), o);
        lemma_round_trip_among(ValueView::Str(s), full_precision_floats, true, set![s]);
    } else {
        let text = encode(ValueView::Str(s), full_precision_floats, true);
        assert(text.subrange(0, text.len() as int) =~= text);
        let number = if (millis as int) % (DATE_LOW_PRECISION as int) == 0 {
            ((millis as int) / (DATE_LOW_PRECISION as int)) as i64
        } else {
            millis
        };
        let literal = integer_literal(number as int);
        lemma_integer_literal_len(number as int);
        lemma_stands_char(text, 0, text, 0);
        lemma_stands_split(text, 0, seq![text[0]], literal);
        lemma_parse_integer_literal(text, 1, number);
    }
}

/// Run-length threshold: an element followed by `repeats` elements with
/// the same text is written as its text, then a repeat token for each of the
/// first three repeats, then, from the fourth repeat on, one counted repeat
/// token with the number of the repeats that have no token of their own.
pub proof fn lemma_run_of_repeats(text: Seq<char>, repeats: nat)
    ensures
        run_length(Seq::new(repeats + 1, |i: int| text)).1 == (Run {
            last: Some(text),
            count: repeats,
        }),
        array_body(Seq::new(repeats + 1, |i: int| text)) == text + Seq::new(
            if repeats < 3 {
                repeats
            } else {
                3
            },
            |i: int| ARRAY_REPEAT_TOKEN,
        ) + if repeats < ARRAY_REPEAT_COUNT_THRESHOLD {
            Seq::<char>::empty()
        } else {
            seq![ARRAY_REPEAT_MANY_TOKEN] + integer_literal(repeats - 3)
        },
    decreases repeats,
{
    let texts = Seq::new(repeats + 1, |i: int| text);
    let marks = |n: nat| Seq::new(n, |i: int| ARRAY_REPEAT_TOKEN);
    if repeats == 0 {
        assert(texts.drop_last() =~= Seq::<Seq<char>>::empty());
        assert(run_length(texts.drop_last()).0 =~= Seq::<char>::empty());
        assert(array_body(texts) =~= text + marks(0) + Seq::<char>::empty());
    } else {
        let before = Seq::new(repeats, |i: int| text);
        lemma_run_of_repeats(text, (repeats - 1) as nat);
        lemma_run_written(text, (repeats - 1) as nat);
        lemma_run_written(text, repeats);
        assert(texts.drop_last() =~= before);
        assert(texts.last() == text);
        if repeats < ARRAY_REPEAT_COUNT_THRESHOLD {
            assert(array_body(texts) =~= text + marks(repeats) + Seq::<char>::empty());
        } else {
            assert(array_body(texts) =~= text + marks(3) + (seq![ARRAY_REPEAT_MANY_TOKEN]
                + integer_literal(repeats - 3)));
        }
    }
}

/// What is read back for a value: the value itself, but null for
/// undefined, for a float what its literal holds, for a string written as a
/// date the text of its instant in UTC, and for an object whose entries are
/// read back under one key only the last of them, in the place of the first.
pub open spec fn as_read(v: ValueView, o: Options) -> ValueView
    decreases v, 0nat,
{
    match v {
        ValueView::Undefined => ValueView::Null,
        ValueView::Null => ValueView::Null,
        ValueView::Bool(b) => ValueView::Bool(b),
        ValueView::Int(i) => ValueView::Int(i),
        ValueView::Float(f) => ValueView::Float(read_float(f, o.full_precision_floats)),
        ValueView::Str(s) => ValueView::Str(read_text(s, o.detect_utc_timestamps)),
        ValueView::Array(items) => ValueView::Array(read_items(items, items.len(), o)),
        ValueView::Object(entries) => ValueView::Object(read_entries(entries, entries.len(), o)),
    }
}

/// What is read back for the first `n` elements of an array.
pub open spec fn read_items(items: Seq<ValueView>, n: nat, o: Options) -> Seq<ValueView>
    decreases items, n,
{
    if n == 0 || n > items.len() {
        Seq::empty()
    } else {
        read_items(items, (n - 1) as nat, o).push(as_read(items[n - 1], o))
    }
}

/// What is read back for the first `n` entries of an object.
pub open spec fn read_entries(entries: Seq<(Seq<char>, ValueView)>, n: nat, o: Options) -> Seq<
    (Seq<char>, ValueView),
>
    decreases entries, n,
{
    if n == 0 || n > entries.len() {
        Seq::empty()
    } else {
        upsert(
            read_entries(entries, (n - 1) as nat, o),
            read_text(entries[n - 1].0, o.detect_utc_timestamps),
            as_read(entries[n - 1].1, o),
        )
    }
}

/// What is read back for a float: what its literal holds.
pub open spec fn read_float(f: FloatView, full_precision: bool) -> FloatView {
    if full_precision {
        FloatView {
            negative: f.integer < 0 || (f.negative && f.integer == 0 && f.digits.len() > 0),
            integer: f.integer,
            digits: if f.digits.len() > 0 {
                f.digits
            } else {
                seq!['0']
            },
            thousandths: 0,
        }
    } else {
        FloatView {
            negative: f.integer < 0,
            integer: f.integer,
            digits: Seq::empty(),
            thousandths: f.thousandths,
        }
    }
}

/// Whether `s` is written as a date.
pub open spec fn is_date(s: Seq<char>, detect_utc_timestamps: bool) -> bool {
    detect_utc_timestamps && is_date_shaped(s) && rfc3339_millis(s) is Some
}

/// What is read back for a string: the string itself, and for one written
/// as a date the text of its instant in UTC.
pub open spec fn read_text(s: Seq<char>, detect_utc_timestamps: bool) -> Seq<char> {
    if is_date(s, detect_utc_timestamps) {
        match utc_text(rfc3339_millis(s)->0) {
            Some(text) => text,
            None => s,
        }
    } else {
        s
    }
}

/// Whether a value can be read back: the digits of its floats are decimal
/// digits, the instants of its dates have a text, and no array has more
/// elements than a 64-bit integer counts.
pub open spec fn readable(v: ValueView, o: Options) -> bool {
    well_formed(v, o, Set::full())
}

/// Whether a value can be read back and its dates are among `dates`.
pub open spec fn well_formed(v: ValueView, o: Options, dates: Set<Seq<char>>) -> bool
    decreases v,
{
    match v {
        ValueView::Float(f) => float_ok(f),
        ValueView::Str(s) => text_ok(s, o.detect_utc_timestamps, dates),
        ValueView::Array(items) => items.len() <= i64::MAX && forall|i: int|
            0 <= i < items.len() ==> well_formed(#[trigger] items[i], o, dates),
        ValueView::Object(entries) => forall|i: int|
            0 <= i < entries.len() ==> text_ok(
                (#[trigger] entries[i]).0,
                o.detect_utc_timestamps,
                dates,
            ) && well_formed(entries[i].1, o, dates),
        _ => true,
    }
}

/// Whether a float can be read back: the digits of its fraction are
/// decimal digits.
pub open spec fn float_ok(f: FloatView) -> bool {
    forall|k: int| 0 <= k < f.digits.len() ==> is_decimal(#[trigger] f.digits[k])
}

/// Whether a string can be read back: if it is written as a date, it is
/// among `dates` and its instant has a text.
pub open spec fn text_ok(s: Seq<char>, detect_utc_timestamps: bool, dates: Set<Seq<char>>) -> bool {
    is_date(s, detect_utc_timestamps) ==> dates.contains(s) && utc_text(rfc3339_millis(s)->0)
        is Some
}

/// The strings in a value that are written as dates, keys of objects
/// among them.
pub open spec fn date_strings(v: ValueView, detect_utc_timestamps: bool) -> Set<Seq<char>>
    decreases v,
{
    match v {
        ValueView::Str(s) => if is_date(s, detect_utc_timestamps) {
            set![s]
        } else {
            Set::empty()
        },
        ValueView::Array(items) => Set::new(
            |s: Seq<char>|
                exists|i: int|
                    0 <= i < items.len() && date_strings(
                        #[trigger] items[i],
                        detect_utc_timestamps,
                    ).contains(s),
        ),
        ValueView::Object(entries) => Set::new(
            |s: Seq<char>|
                exists|i: int|
                    0 <= i < entries.len() && ((is_date(
                        (#[trigger] entries[i]).0,
                        detect_utc_timestamps,
                    ) && s == entries[i].0) || date_strings(
                        entries[i].1,
                        detect_utc_timestamps,
                    ).contains(s)),
        ),
        _ => Set::empty(),
    }
}

/// Whether different strings among `dates` are read back as different
/// texts.
pub open spec fn distinct_instants(dates: Set<Seq<char>>) -> bool {
    forall|a: Seq<char>, b: Seq<char>|
        dates.contains(a) && dates.contains(b) && read_text(a, true) == read_text(b, true) ==> a
            == b
}

/// Whether every index fits a 64-bit integer.
pub open spec fn fits(e: Interned) -> bool {
    &&& e.integers.len() <= i64::MAX
    &&& e.floats.len() <= i64::MAX
    &&& e.strings.len() <= i64::MAX
    &&& e.dates.len() <= i64::MAX
    &&& e.lp_dates.len() <= i64::MAX
}

/// Whether a value is read back as it is: nothing in it is undefined,
/// its floats hold what their literals hold, none of its strings is written
/// as a date, and no object has a key twice.
pub open spec fn reads_as_written(v: ValueView, o: Options) -> bool
    decreases v,
{
    match v {
        ValueView::Undefined => false,
        ValueView::Float(f) => read_float(f, o.full_precision_floats) == f,
        ValueView::Str(s) => !is_date(s, o.detect_utc_timestamps),
        ValueView::Array(items) => forall|i: int|
            0 <= i < items.len() ==> reads_as_written(#[trigger] items[i], o),
        ValueView::Object(entries) => {
            &&& forall|i: int|
                0 <= i < entries.len() ==> !is_date(
                    (#[trigger] entries[i]).0,
                    o.detect_utc_timestamps,
                ) && reads_as_written(entries[i].1, o)
            &&& forall|i: int, j: int|
                0 <= i < entries.len() && 0 <= j < entries.len() && i != j ==> (
                #[trigger] entries[i]).0 != (#[trigger] entries[j]).0
        },
        _ => true,
    }
}

/// A value of which `reads_as_written` holds is read back as itself.
pub proof fn lemma_read_as_written(v: ValueView, o: Options)
    requires
        reads_as_written(v, o),
    ensures
        as_read(v, o) == v,
    decreases v, 0nat,
{
    match v {
        ValueView::Array(items) => {
            lemma_read_items_as_written(items, items.len(), o);
            assert(items.take(items.len() as int) =~= items);
        },
        ValueView::Object(entries) => {
            lemma_read_entries_as_written(entries, entries.len(), o);
            assert(entries.take(entries.len() as int) =~= entries);
        },
        _ => {},
    }
}

/// The same for the first `n` elements of an array.
pub proof fn lemma_read_items_as_written(items: Seq<ValueView>, n: nat, o: Options)
    requires
        n <= items.len(),
        forall|i: int| 0 <= i < items.len() ==> reads_as_written(#[trigger] items[i], o),
    ensures
        read_items(items, n, o) == items.take(n as int),
    decreases items, n,
{
    if n > 0 {
        lemma_read_items_as_written(items, (n - 1) as nat, o);
        lemma_read_as_written(items[n - 1], o);
        assert(items.take(n as int) =~= items.take(n - 1).push(items[n - 1]));
    } else {
        assert(items.take(0) =~= Seq::<ValueView>::empty());
    }
}

/// The same for the first `n` entries of an object.
pub proof fn lemma_read_entries_as_written(entries: Seq<(Seq<char>, ValueView)>, n: nat, o: Options)
    requires
        n <= entries.len(),
        forall|i: int|
            0 <= i < entries.len() ==> !is_date(
                (#[trigger] entries[i]).0,
                o.detect_utc_timestamps,
            ) && reads_as_written(entries[i].1, o),
        forall|i: int, j: int|
            0 <= i < entries.len() && 0 <= j < entries.len() && i != j ==> (#[trigger] entries[i]).0
                != (#[trigger] entries[j]).0,
    ensures
        read_entries(entries, n, o) == entries.take(n as int),
    decreases entries, n,
{
    if n > 0 {
        lemma_read_entries_as_written(entries, (n - 1) as nat, o);
        let before = entries.take(n - 1);
        let entry = entries[n - 1];
        assert(!is_date(entry.0, o.detect_utc_timestamps) && reads_as_written(entry.1, o));
        lemma_read_as_written(entry.1, o);
        assert forall|i: int| 0 <= i < before.len() implies before[i].0 != entry.0 by {
            assert(before[i] == entries[i]);
            assert(entries[i].0 != entries[n - 1].0);
        }
        assert(entries.take(n as int) =~= before.push(entry));
    } else {
        assert(entries.take(0) =~= Seq::<(Seq<char>, ValueView)>::empty());
    }
}

/// A value that can be read back with its dates among some strings can be
/// read back with them among more.
pub proof fn lemma_well_formed_among_more(
    v: ValueView,
    o: Options,
    dates: Set<Seq<char>>,
    more: Set<Seq<char>>,
)
    requires
        well_formed(v, o, dates),
        dates.subset_of(more),
    ensures
        well_formed(v, o, more),
    decreases v,
{
    match v {
        ValueView::Array(items) => {
            assert forall|i: int| 0 <= i < items.len() implies well_formed(
                #[trigger] items[i],
                o,
                more,
            ) by {
                lemma_well_formed_among_more(items[i], o, dates, more);
            }
        },
        ValueView::Object(entries) => {
            assert forall|i: int| 0 <= i < entries.len() implies text_ok(
                (#[trigger] entries[i]).0,
                o.detect_utc_timestamps,
                more,
            ) && well_formed(entries[i].1, o, more) by {
                lemma_well_formed_among_more(entries[i].1, o, dates, more);
            }
        },
        _ => {},
    }
}

/// A value can be read back with its dates among its own date strings, if
/// it can be read back with them among any strings.
pub proof fn lemma_well_formed_among_own(v: ValueView, o: Options, dates: Set<Seq<char>>)
    requires
        well_formed(v, o, dates),
    ensures
        well_formed(v, o, date_strings(v, o.detect_utc_timestamps)),
    decreases v,
{
    let own = date_strings(v, o.detect_utc_timestamps);
    match v {
        ValueView::Array(items) => {
            assert forall|i: int| 0 <= i < items.len() implies well_formed(
                #[trigger] items[i],
                o,
                own,
            ) by {
                lemma_well_formed_among_own(items[i], o, dates);
                lemma_well_formed_among_more(
                    items[i],
                    o,
                    date_strings(items[i], o.detect_utc_timestamps),
                    own,
                );
            }
        },
        ValueView::Object(entries) => {
            assert forall|i: int| 0 <= i < entries.len() implies text_ok(
                (#[trigger] entries[i]).0,
                o.detect_utc_timestamps,
                own,
            ) && well_formed(entries[i].1, o, own) by {
                lemma_well_formed_among_own(entries[i].1, o, dates);
                lemma_well_formed_among_more(
                    entries[i].1,
                    o,
                    date_strings(entries[i].1, o.detect_utc_timestamps),
                    own,
                );
            }
        },
        _ => {},
    }
}

/// A value that is read back as it is has no date strings.
pub proof fn lemma_no_dates(v: ValueView, o: Options)
    requires
        reads_as_written(v, o),
    ensures
        date_strings(v, o.detect_utc_timestamps) == Set::<Seq<char>>::empty(),
    decreases v,
{
    let own = date_strings(v, o.detect_utc_timestamps);
    match v {
        ValueView::Array(items) => {
            assert forall|s: Seq<char>| !own.contains(s) by {
                if own.contains(s) {
                    let i = choose|i: int|
                        0 <= i < items.len() && date_strings(
                            #[trigger] items[i],
                            o.detect_utc_timestamps,
                        ).contains(s);
                    lemma_no_dates(items[i], o);
                }
            }
            assert(own =~= Set::<Seq<char>>::empty());
        },
        ValueView::Object(entries) => {
            assert forall|s: Seq<char>| !own.contains(s) by {
                if own.contains(s) {
                    let i = choose|i: int|
                        0 <= i < entries.len() && ((is_date(
                            (#[trigger] entries[i]).0,
                            o.detect_utc_timestamps,
                        ) && s == entries[i].0) || date_strings(
                            entries[i].1,
                            o.detect_utc_timestamps,
                        ).contains(s));
                    lemma_no_dates(entries[i].1, o);
                }
            }
            assert(own =~= Set::<Seq<char>>::empty());
        },
        _ => {},
    }
}

/// What is written for a run before it is known how it goes on.
pub proof fn lemma_run_written(text: Seq<char>, repeats: nat)
    ensures
        run_length(Seq::new(repeats + 1, |i: int| text)).1 == (Run {
            last: Some(text),
            count: repeats,
        }),
        run_length(Seq::new(repeats + 1, |i: int| text)).0 == if repeats == 0 {
            Seq::<char>::empty()
        } else {
            text + Seq::new(
                if repeats - 1 < 3 {
                    (repeats - 1) as nat
                } else {
                    3
                },
                |i: int| ARRAY_REPEAT_TOKEN,
            )
        },
    decreases repeats,
{
    let texts = Seq::new(repeats + 1, |i: int| text);
    if repeats == 0 {
        assert(texts.drop_last() =~= Seq::<Seq<char>>::empty());
        assert(run_length(texts.drop_last()).0 =~= Seq::<char>::empty());
        assert(run_length(texts).0 =~= Seq::<char>::empty());
    } else {
        let before = Seq::new(repeats, |i: int| text);
        lemma_run_written(text, (repeats - 1) as nat);
        assert(texts.drop_last() =~= before);
        assert(texts.last() == text);
        let marks = |n: nat| Seq::new(n, |i: int| ARRAY_REPEAT_TOKEN);
        if repeats == 1 {
            assert(run_length(texts).0 =~= text + marks(0));
        } else if repeats <= ARRAY_REPEAT_COUNT_THRESHOLD {
            assert(run_length(texts).0 =~= text + marks((repeats - 1) as nat));
        } else {
            assert(run_length(texts).0 =~= text + marks(3));
        }
    }
}

} // verus!

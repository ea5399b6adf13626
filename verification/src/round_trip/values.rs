//! Values of every kind are read back.
use vstd::prelude::*;
use crate::constants::{
    ARRAY_END_TOKEN, ARRAY_REPEAT_COUNT_THRESHOLD, ARRAY_REPEAT_MANY_TOKEN, ARRAY_START_TOKEN,
    DELIMITING_TOKENS_THRESHOLD, OBJECT_END_TOKEN, OBJECT_START_TOKEN,
};
use crate::dict::Interned;
use crate::error::Error;
use crate::grammar::{
    advanced, decode_elements, decode_entries, decode_text, decode_value, Decoded, next_element,
    Step, upsert,
};
use crate::integer::{integer_literal, lemma_integer_literal_len, lemma_parse_integer_literal};
use crate::laws::{
    as_read, distinct_instants, fits, read_entries, read_items, read_text, text_ok, well_formed,
};
use crate::round_trip::{
    entries_ok, float_of, items_ok, lemma_stands_char, lemma_stands_prefix, lemma_stands_split,
    reader_of, stands_at, starts_value, tidy, value_ends,
};
use crate::round_trip::arrays::{
    array_invariant, array_rest, last_read, lemma_array_next, lemma_array_rest, lemma_copies,
    lemma_pending, lemma_run_shape, lemma_written_step, read_so_far, registered_so_far, text_of,
    written,
};
use crate::round_trip::growth::{
    lemma_encoded, lemma_encoded_items, lemma_encoded_text, lemma_entries_prefix, lemma_fits,
    lemma_items_extend,
};
use crate::round_trip::registrations::{lemma_nothing_new, lemma_registered, same_added};
use crate::round_trip::scalars::{lemma_decode_float, lemma_decode_integer, lemma_decode_text};
use crate::value::ValueView;
use crate::wire::{
    array_body, encode_entries, encode_items, encode_string, encode_value, flush, Options, step,
};

verus! {

/// A written value is read back, and writer and reader stay in step: where
/// the text of `v`, written with `e` registered, stands in `input` at `pos`
/// before the end or a token, a reader that is in step reads there what `v`
/// is read back as, ends after the text, and is in step again.
pub proof fn lemma_decode_encoded(
    v: ValueView,
    e: Interned,
    o: Options,
    dates: Set<Seq<char>>,
    input: Seq<char>,
    pos: int,
)
    requires
        well_formed(v, o, dates),
        distinct_instants(dates),
        tidy(e, o.full_precision_floats, dates),
        fits(encode_value(v, e, o).1),
        stands_at(input, pos, encode_value(v, e, o).0),
        value_ends(input, pos + encode_value(v, e, o).0.len()),
    ensures
        decode_value(input, pos, reader_of(e)) == Ok::<Decoded, Error>(
            Decoded {
                value: as_read(v, o),
                next: pos + encode_value(v, e, o).0.len(),
                resolved: reader_of(encode_value(v, e, o).1),
            },
        ),
        tidy(encode_value(v, e, o).1, o.full_precision_floats, dates),
    decreases v, 0nat, 0nat,
{
    let text = encode_value(v, e, o).0;
    let d = reader_of(e);
    match v {
        ValueView::Undefined => {
            lemma_stands_char(input, pos, text, 0);
        },
        ValueView::Null => {
            lemma_stands_char(input, pos, text, 0);
        },
        ValueView::Bool(b) => {
            lemma_stands_char(input, pos, text, 0);
        },
        ValueView::Int(i) => {
            lemma_decode_integer(i, e, d, input, pos, o.full_precision_floats, dates);
        },
        ValueView::Float(f) => {
            lemma_decode_float(f, e, d, input, pos, o.full_precision_floats, dates);
        },
        ValueView::Str(s) => {
            lemma_decode_text(s, e, d, input, pos, o, dates);
        },
        ValueView::Array(items) => {
            let n = items.len();
            let texts = encode_items(items, n, e, o).0;
            let body = array_body(texts) + seq![ARRAY_END_TOKEN];
            assert(text =~= seq![ARRAY_START_TOKEN] + body);
            lemma_stands_split(input, pos, seq![ARRAY_START_TOKEN], body);
            lemma_stands_char(input, pos, text, 0);
            lemma_array_invariant(items, n, e, o, dates, input, pos + 1);
            let run = written(items, n, e, o).1;
            let at = pos + 1 + written(items, n, e, o).0.len();
            let last = flush(run, false);
            assert(array_rest(items, n, e, o) == last + seq![ARRAY_END_TOKEN]);
            lemma_stands_split(input, at, last, seq![ARRAY_END_TOKEN]);
            lemma_stands_char(input, at + last.len(), seq![ARRAY_END_TOKEN], 0);
            lemma_array_rest(items, n, e, o);
            if n > 0 {
                lemma_read_flush(items, n, e, o, dates, input, pos + 1, false);
            } else {
                assert(last =~= Seq::<char>::empty());
            }
            let end = at + last.len();
            assert(next_element(
                input,
                end,
                reader_of(encode_items(items, n, e, o).1),
                last_read(items, n, o),
                0,
            ) == Ok::<Step, Error>(Step::End { next: end + 1 }));
        },
        ValueView::Object(entries) => {
            let n = entries.len();
            let body = encode_entries(entries, n, e, o).0;
            assert(text =~= seq![OBJECT_START_TOKEN] + (body + seq![OBJECT_END_TOKEN]));
            lemma_stands_split(
                input,
                pos,
                seq![OBJECT_START_TOKEN],
                body + seq![OBJECT_END_TOKEN],
            );
            lemma_stands_char(input, pos, text, 0);
            lemma_object_prefix(entries, n, e, o, dates, input, pos + 1);
            lemma_stands_split(input, pos + 1, body, seq![OBJECT_END_TOKEN]);
            lemma_stands_char(input, pos + 1 + body.len(), seq![OBJECT_END_TOKEN], 0);
        },
    }
}

/// Two neighbours in an array with the same text are read back as the
/// same value, and neither registers anything.
pub proof fn lemma_same_text(
    items: Seq<ValueView>,
    i: int,
    e: Interned,
    o: Options,
    dates: Set<Seq<char>>,
)
    requires
        0 <= i,
        i + 1 < items.len(),
        well_formed(items[i], o, dates),
        well_formed(items[i + 1], o, dates),
        distinct_instants(dates),
        tidy(e, o.full_precision_floats, dates),
        fits(encode_value(items[i + 1], encode_value(items[i], e, o).1, o).1),
        encode_value(items[i], e, o).0 == encode_value(
            items[i + 1],
            encode_value(items[i], e, o).1,
            o,
        ).0,
    ensures
        encode_value(items[i], e, o).1 == e,
        encode_value(items[i + 1], e, o).1 == e,
        as_read(items[i], o) == as_read(items[i + 1], o),
    decreases items, 0nat, 0nat,
{
    let v = items[i];
    let w = items[i + 1];
    let t = encode_value(v, e, o).0;
    let e1 = encode_value(v, e, o).1;
    let e2 = encode_value(w, e1, o).1;
    lemma_encoded(v, e, o);
    lemma_encoded(w, e1, o);
    lemma_fits(e2, e1);
    assert(t.subrange(0, t.len() as int) =~= t);
    lemma_decode_encoded(v, e, o, dates, t, 0);
    lemma_decode_encoded(w, e1, o, dates, t, 0);
    let d = reader_of(e);
    let d1 = reader_of(e1);
    let d2 = reader_of(e2);
    lemma_registered(t, 0, d, d1);
    assert(same_added(d, d1, d1, d2));
    let same_integer = |x: i64| x;
    assert(Seq::new(e1.integers.len(), |k: int| same_integer(e1.integers[k])) =~= d1.integers);
    assert(Seq::new(e2.integers.len(), |k: int| same_integer(e2.integers[k])) =~= d2.integers);
    lemma_nothing_new(e.integers, e1.integers, e2.integers, same_integer);
    let same_string = |x: Seq<char>| x;
    assert(Seq::new(e1.strings.len(), |k: int| same_string(e1.strings[k])) =~= d1.strings);
    assert(Seq::new(e2.strings.len(), |k: int| same_string(e2.strings[k])) =~= d2.strings);
    lemma_nothing_new(e.strings, e1.strings, e2.strings, same_string);
    let float = |x: Seq<char>| float_of(x);
    assert(Seq::new(e1.floats.len(), |k: int| float(e1.floats[k])) =~= d1.floats);
    assert(Seq::new(e2.floats.len(), |k: int| float(e2.floats[k])) =~= d2.floats);
    lemma_nothing_new(e.floats, e1.floats, e2.floats, float);
    let read = |x: Seq<char>| read_text(x, true);
    assert(Seq::new(e1.dates.len(), |k: int| read(e1.dates[k])) =~= d1.dates);
    assert(Seq::new(e2.dates.len(), |k: int| read(e2.dates[k])) =~= d2.dates);
    lemma_nothing_new(e.dates, e1.dates, e2.dates, read);
    assert(Seq::new(e1.lp_dates.len(), |k: int| read(e1.lp_dates[k])) =~= d1.lp_dates);
    assert(Seq::new(e2.lp_dates.len(), |k: int| read(e2.lp_dates[k])) =~= d2.lp_dates);
    lemma_nothing_new(e.lp_dates, e1.lp_dates, e2.lp_dates, read);
}

/// Reading what the writer writes for the current run, when the next
/// element is known or the array ends, takes the reader to where the
/// writer then is.
pub proof fn lemma_read_flush(
    items: Seq<ValueView>,
    k: nat,
    e: Interned,
    o: Options,
    dates: Set<Seq<char>>,
    input: Seq<char>,
    start: int,
    is_repeat: bool,
)
    requires
        1 <= k <= items.len(),
        items_ok(items, o, dates),
        distinct_instants(dates),
        fits(encode_items(items, items.len(), e, o).1),
        array_invariant(items, k, e, o, dates, input, start),
        is_repeat ==> encode_items(items, k, e, o).1 == encode_items(
            items,
            registered_so_far(k, written(items, k, e, o).1.count),
            e,
            o,
        ).1,
        stands_at(
            input,
            start + written(items, k, e, o).0.len(),
            flush(written(items, k, e, o).1, is_repeat),
        ),
        start + written(items, k, e, o).0.len() + flush(written(items, k, e, o).1, is_repeat).len()
            < input.len(),
        written(items, k, e, o).1.count == 0 || (written(items, k, e, o).1.count
            >= ARRAY_REPEAT_COUNT_THRESHOLD && !is_repeat) ==> value_ends(
            input,
            start + written(items, k, e, o).0.len() + flush(
                written(items, k, e, o).1,
                is_repeat,
            ).len(),
        ),
    ensures
        decode_elements(input, start, reader_of(e), None, 0, Seq::empty()) == decode_elements(
            input,
            start + written(items, k, e, o).0.len() + flush(
                written(items, k, e, o).1,
                is_repeat,
            ).len(),
            reader_of(encode_items(items, k, e, o).1),
            last_read(
                items,
                if is_repeat && written(items, k, e, o).1.count >= ARRAY_REPEAT_COUNT_THRESHOLD {
                    read_so_far(k, written(items, k, e, o).1.count)
                } else {
                    k
                },
                o,
            ),
            0,
            read_items(
                items,
                if is_repeat && written(items, k, e, o).1.count >= ARRAY_REPEAT_COUNT_THRESHOLD {
                    read_so_far(k, written(items, k, e, o).1.count)
                } else {
                    k
                },
                o,
            ),
        ),
        tidy(encode_items(items, k, e, o).1, o.full_precision_floats, dates),
    decreases items, 1nat, 0nat,
{
    let run = written(items, k, e, o).1;
    let at = start + written(items, k, e, o).0.len();
    let c = run.count;
    let done = read_so_far(k, c);
    let text = flush(run, is_repeat);
    lemma_run_shape(encode_items(items, k, e, o).0);
    lemma_encoded_items(items, k, e, o);
    let acc = read_items(items, done, o);
    let last = last_read(items, done, o);
    if c == 0 {
        let before = encode_items(items, (k - 1) as nat, e, o).1;
        let item = items[k - 1];
        lemma_written_step(items, (k - 1) as nat, e, o);
        lemma_items_extend(items, k, items.len(), e, o);
        lemma_fits(encode_items(items, items.len(), e, o).1, encode_items(items, k, e, o).1);
        assert(text == encode_value(item, before, o).0);
        lemma_encoded(item, before, o);
        lemma_stands_char(input, at, text, 0);
        lemma_decode_encoded(item, before, o, dates, input, at);
        let value = as_read(item, o);
        assert(next_element(input, at, reader_of(before), last, 0) == Ok::<Step, Error>(
            Step::Element {
                value,
                next: at + text.len(),
                resolved: reader_of(encode_items(items, k, e, o).1),
                repeat: 0,
            },
        ));
        assert(advanced(input.len(), at, 0, at + text.len(), 0));
    } else if c < ARRAY_REPEAT_COUNT_THRESHOLD {
        lemma_stands_char(input, at, text, 0);
        let value = as_read(items[k - 1], o);
        assert(last == Some(value));
        assert(next_element(input, at, reader_of(encode_items(items, k, e, o).1), last, 0) == Ok::<
            Step,
            Error,
        >(
            Step::Element {
                value,
                next: at + 1,
                resolved: reader_of(encode_items(items, k, e, o).1),
                repeat: 0,
            },
        ));
        assert(advanced(input.len(), at, 0, at + 1, 0));
    } else if !is_repeat {
        let count = (c - ARRAY_REPEAT_COUNT_THRESHOLD + 1) as i64;
        let literal = integer_literal(count as int);
        lemma_integer_literal_len(count as int);
        assert(text == seq![ARRAY_REPEAT_MANY_TOKEN] + literal);
        lemma_stands_split(input, at, seq![ARRAY_REPEAT_MANY_TOKEN], literal);
        lemma_stands_char(input, at, text, 0);
        lemma_parse_integer_literal(input, at + 1, count);
        let value = as_read(items[k - 1], o);
        assert(last == Some(value));
        let d = reader_of(encode_items(items, k, e, o).1);
        let next = at + text.len();
        assert(advanced(input.len(), at, 0, next, 0));
        assert(next_element(input, at, d, last, 0) == Ok::<Step, Error>(
            Step::Element { value, next, resolved: d, repeat: (count - 1) as nat },
        ));
        assert(advanced(input.len(), at, 0, next, (count - 1) as nat));
        lemma_pending(input, next, d, value, (count - 1) as nat, acc.push(value));
        lemma_copies(items, done, k, o, value);
        assert(acc.push(value) + Seq::new((count - 1) as nat, |i: int| value) =~= acc + Seq::new(
            (k - done) as nat,
            |i: int| value,
        ));
    }
}

/// Reading what the writer of an array has written after `k` elements
/// takes the reader to where the writer is.
pub proof fn lemma_array_invariant(
    items: Seq<ValueView>,
    k: nat,
    e: Interned,
    o: Options,
    dates: Set<Seq<char>>,
    input: Seq<char>,
    start: int,
)
    requires
        k <= items.len(),
        items_ok(items, o, dates),
        distinct_instants(dates),
        tidy(e, o.full_precision_floats, dates),
        fits(encode_items(items, items.len(), e, o).1),
        stands_at(
            input,
            start,
            array_body(encode_items(items, items.len(), e, o).0) + seq![ARRAY_END_TOKEN],
        ),
    ensures
        array_invariant(items, k, e, o, dates, input, start),
    decreases items, 3nat, k,
{
    if k == 0 {
        lemma_array_rest(items, 0, e, o);
        assert(written(items, 0, e, o).0 + array_rest(items, 0, e, o) =~= array_rest(
            items,
            0,
            e,
            o,
        ));
    } else {
        lemma_array_invariant(items, (k - 1) as nat, e, o, dates, input, start);
        lemma_array_step(items, (k - 1) as nat, e, o, dates, input, start);
    }
}

/// One more element: reading what the writer writes for it takes the
/// reader from where the writer was to where it then is.
#[verifier::rlimit(60)]
#[verifier::spinoff_prover]
pub proof fn lemma_array_step(
    items: Seq<ValueView>,
    j: nat,
    e: Interned,
    o: Options,
    dates: Set<Seq<char>>,
    input: Seq<char>,
    start: int,
)
    requires
        j < items.len(),
        items_ok(items, o, dates),
        distinct_instants(dates),
        fits(encode_items(items, items.len(), e, o).1),
        array_invariant(items, j, e, o, dates, input, start),
    ensures
        array_invariant(items, j + 1, e, o, dates, input, start),
    decreases items, 2nat, 0nat,
{
    let k = j + 1;
    lemma_written_step(items, j, e, o);
    lemma_run_shape(encode_items(items, j, e, o).0);
    lemma_encoded_items(items, j, e, o);
    let run = written(items, j, e, o).1;
    let c = run.count;
    let at = start + written(items, j, e, o).0.len();
    let t = text_of(items, j, e, o);
    let more = step(run, t).0;
    let after = step(run, t).1;
    assert(written(items, k, e, o).1 == after);
    assert(written(items, k, e, o).0.len() == written(items, j, e, o).0.len() + more.len());
    assert(array_rest(items, j, e, o) == more + array_rest(items, k, e, o));
    lemma_stands_split(input, at, more, array_rest(items, k, e, o));
    lemma_items_extend(items, k, items.len(), e, o);
    lemma_fits(encode_items(items, items.len(), e, o).1, encode_items(items, k, e, o).1);
    let e_j = encode_items(items, j, e, o).1;
    let e_k = encode_items(items, k, e, o).1;
    assert(e_k == encode_value(items[j as int], e_j, o).1);
    if j == 0 {
        assert(more =~= Seq::<char>::empty());
        assert(after.count == 0);
        assert(read_so_far(k, 0) == 0);
        assert(registered_so_far(k, 0) == 0);
    } else {
        let is_repeat = run.last == Some(t);
        assert(more == flush(run, is_repeat));
        assert(after.count == if is_repeat {
            c + 1
        } else {
            0
        });
        let e_i = encode_items(items, (j - 1) as nat, e, o).1;
        lemma_written_step(items, (j - 1) as nat, e, o);
        assert(c >= 1 ==> e_j == e_i);
        assert(tidy(e_i, o.full_precision_floats, dates));
        if is_repeat {
            assert(encode_items(items, j, e, o).0[j - 1] == text_of(items, (j - 1) as nat, e, o));
            assert(text_of(items, (j - 1) as nat, e, o) == t);
            lemma_same_text(items, j - 1, e_i, o, dates);
            assert(e_j == e_i);
            assert(e_k == e_j);
            assert(as_read(items[j - 1], o) == as_read(items[j as int], o));
        }
        lemma_array_next(items, k, e, o);
        lemma_stands_char(input, at + more.len(), array_rest(items, k, e, o), 0);
        lemma_read_flush(items, j, e, o, dates, input, start, is_repeat);
        let done = read_so_far(k, after.count);
        let m = registered_so_far(k, after.count);
        let reached = if is_repeat && c >= ARRAY_REPEAT_COUNT_THRESHOLD {
            read_so_far(j, c)
        } else {
            j
        };
        assert(done == reached);
        assert(encode_items(items, m, e, o).1 == e_j);
        if is_repeat {
            assert forall|i: int| done - 1 <= i < k implies as_read(#[trigger] items[i], o)
                == as_read(items[k - 1], o) by {
                if i < j - 1 {
                    assert(read_so_far(j, c) - 1 <= i);
                }
            }
        }
    }
}

/// Reading the first `k` entries of a written object takes the reader to
/// where the writer is after them.
#[verifier::rlimit(60)]
#[verifier::spinoff_prover]
pub proof fn lemma_object_prefix(
    entries: Seq<(Seq<char>, ValueView)>,
    k: nat,
    e: Interned,
    o: Options,
    dates: Set<Seq<char>>,
    input: Seq<char>,
    start: int,
)
    requires
        k <= entries.len(),
        entries_ok(entries, o, dates),
        distinct_instants(dates),
        tidy(e, o.full_precision_floats, dates),
        fits(encode_entries(entries, entries.len(), e, o).1),
        stands_at(
            input,
            start,
            encode_entries(entries, entries.len(), e, o).0 + seq![OBJECT_END_TOKEN],
        ),
    ensures
        decode_entries(input, start, reader_of(e), Seq::empty()) == decode_entries(
            input,
            start + encode_entries(entries, k, e, o).0.len(),
            reader_of(encode_entries(entries, k, e, o).1),
            read_entries(entries, k, o),
        ),
        tidy(encode_entries(entries, k, e, o).1, o.full_precision_floats, dates),
    decreases entries, 1nat, k,
{
    if k > 0 {
        let j = (k - 1) as nat;
        lemma_object_prefix(entries, j, e, o, dates, input, start);
        let whole = encode_entries(entries, entries.len(), e, o).0 + seq![OBJECT_END_TOKEN];
        let before = encode_entries(entries, j, e, o);
        let detect = o.detect_utc_timestamps;
        let key = encode_string(entries[j as int].0, before.1, detect);
        let value = encode_value(entries[j as int].1, key.1, o);
        let at = start + before.0.len();
        let mid = at + key.0.len();
        let end = mid + value.0.len();
        let written = encode_entries(entries, k, e, o).0;
        assert(written == before.0 + key.0 + value.0);
        assert(encode_entries(entries, k, e, o).1 == value.1);
        assert(entries_ok(entries, o, dates));
        assert(text_ok(entries[j as int].0, detect, dates) && well_formed(
            entries[j as int].1,
            o,
            dates,
        ));
        assert(stands_at(input, at, key.0) && stands_at(input, mid, value.0) && end < input.len()
            && input[end] as u32 > DELIMITING_TOKENS_THRESHOLD) by {
            lemma_entries_prefix(entries, k, entries.len(), e, o);
            assert(written.is_prefix_of(whole));
            lemma_stands_prefix(input, start, whole, written);
            lemma_stands_split(input, start, before.0 + key.0, value.0);
            lemma_stands_split(input, start, before.0, key.0);
            if k < entries.len() {
                lemma_entries_prefix(entries, k + 1, entries.len(), e, o);
                let next_key = encode_string(entries[k as int].0, value.1, detect);
                lemma_encoded_text(entries[k as int].0, value.1, detect);
                let longer = encode_entries(entries, k + 1, e, o).0;
                assert(longer[written.len() as int] == next_key.0[0]);
                assert(whole[written.len() as int] == longer[written.len() as int]);
            } else {
                assert(whole[written.len() as int] == OBJECT_END_TOKEN);
            }
            lemma_stands_char(input, start, whole, written.len() as int);
        }
        assert(key.0.len() >= 1 && starts_value(key.0[0]) && value.0.len() >= 1 && starts_value(
            value.0[0],
        ) && fits(key.1) && fits(value.1)) by {
            lemma_entries_prefix(entries, k, entries.len(), e, o);
            lemma_encoded_text(entries[j as int].0, before.1, detect);
            lemma_encoded(entries[j as int].1, key.1, o);
            lemma_fits(encode_entries(entries, entries.len(), e, o).1, value.1);
            lemma_fits(value.1, key.1);
        }
        lemma_stands_char(input, at, key.0, 0);
        lemma_stands_char(input, mid, value.0, 0);
        lemma_decode_text(entries[j as int].0, before.1, reader_of(before.1), input, at, o, dates);
        lemma_decode_encoded(entries[j as int].1, key.1, o, dates, input, mid);
        let acc = read_entries(entries, j, o);
        let read_key = decode_text(input, at, reader_of(before.1))->Ok_0;
        assert(read_key.next == mid && read_key.resolved == reader_of(key.1) && read_key.text
            == read_text(entries[j as int].0, detect));
        assert(advanced(input.len(), at, 0, mid, 0));
        assert(advanced(input.len(), mid, 0, end, 0));
        assert(input[at] != OBJECT_END_TOKEN);
        assert(decode_entries(input, at, reader_of(before.1), acc) == decode_entries(
            input,
            end,
            reader_of(value.1),
            upsert(acc, read_key.text, as_read(entries[j as int].1, o)),
        ));
    }
}

} // verus!

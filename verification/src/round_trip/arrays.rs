//! Where the writer and the reader of an array stand after each element.
use vstd::prelude::*;
use crate::constants::{ARRAY_END_TOKEN, ARRAY_REPEAT_COUNT_THRESHOLD, DELIMITING_TOKENS_THRESHOLD};
use crate::dict::Interned;
use crate::error::Error;
use crate::grammar::{advanced, decode_elements, next_element, Resolved, Step};
use crate::laws::{as_read, read_items};
use crate::round_trip::{reader_of, stands_at, tidy};
use crate::round_trip::growth::{lemma_encoded, lemma_encoded_items};
use crate::value::ValueView;
use crate::wire::{array_body, encode_items, encode_value, flush, Options, Run, run_length, step};

verus! {

/// The element that a repeat token stands for after `done` elements.
pub open spec fn last_read(items: Seq<ValueView>, done: nat, o: Options) -> Option<ValueView> {
    if done == 0 || done > items.len() {
        None
    } else {
        Some(as_read(items[done - 1], o))
    }
}

/// What the writer of an array has written after `k` elements, and where
/// it stands.
pub open spec fn written(items: Seq<ValueView>, k: nat, e: Interned, o: Options) -> (
    Seq<char>,
    Run,
) {
    run_length(encode_items(items, k, e, o).0)
}

/// The text of element `k`, written with what the elements before it
/// registered.
pub open spec fn text_of(items: Seq<ValueView>, k: nat, e: Interned, o: Options) -> Seq<char> {
    encode_value(items[k as int], encode_items(items, k, e, o).1, o).0
}

/// What the writer of an array writes after its first `k` elements, end
/// token included.
pub open spec fn array_rest(items: Seq<ValueView>, k: nat, e: Interned, o: Options) -> Seq<char>
    decreases items.len() - k,
{
    if k >= items.len() {
        flush(written(items, items.len(), e, o).1, false) + seq![ARRAY_END_TOKEN]
    } else {
        step(written(items, k, e, o).1, text_of(items, k, e, o)).0 + array_rest(
            items,
            k + 1,
            e,
            o,
        )
    }
}

/// How many elements the reader has read when it has read what the writer
/// has written after `k` elements, in a run with `count` repeats.
pub open spec fn read_so_far(k: nat, count: nat) -> nat {
    if k == 0 {
        0
    } else if count < ARRAY_REPEAT_COUNT_THRESHOLD {
        (k - 1) as nat
    } else {
        (k + 3 - count) as nat
    }
}

/// Of how many elements the reader has registered what they register, at
/// the same point.
pub open spec fn registered_so_far(k: nat, count: nat) -> nat {
    if k >= 1 && count == 0 {
        (k - 1) as nat
    } else {
        k
    }
}

/// Where the reader of an array stands when it has read what the writer
/// has written after `k` elements: it has read the elements that are written
/// out, the element read last is what a repeat stands for, and it is in step
/// with the writer.
pub open spec fn array_invariant(
    items: Seq<ValueView>,
    k: nat,
    e: Interned,
    o: Options,
    dates: Set<Seq<char>>,
    input: Seq<char>,
    start: int,
) -> bool {
    let run = written(items, k, e, o).1;
    let at = start + written(items, k, e, o).0.len();
    let done = read_so_far(k, run.count);
    let m = registered_so_far(k, run.count);
    &&& decode_elements(input, start, reader_of(e), None, 0, Seq::empty()) == decode_elements(
        input,
        at,
        reader_of(encode_items(items, m, e, o).1),
        last_read(items, done, o),
        0,
        read_items(items, done, o),
    )
    &&& stands_at(input, at, array_rest(items, k, e, o))
    &&& tidy(encode_items(items, m, e, o).1, o.full_precision_floats, dates)
    &&& run.count >= 1 ==> {
        &&& encode_items(items, k, e, o).1 == encode_items(items, (k - 1) as nat, e, o).1
        &&& forall|i: int|
            done - 1 <= i < k ==> as_read(#[trigger] items[i], o) == as_read(items[k - 1], o)
    }
}

/// One more element takes the writer one step further.
pub proof fn lemma_written_step(items: Seq<ValueView>, k: nat, e: Interned, o: Options)
    requires
        k < items.len(),
    ensures
        encode_items(items, k + 1, e, o).0 == encode_items(items, k, e, o).0.push(
            text_of(items, k, e, o),
        ),
        encode_items(items, k + 1, e, o).1 == encode_value(
            items[k as int],
            encode_items(items, k, e, o).1,
            o,
        ).1,
        written(items, k + 1, e, o).0 == written(items, k, e, o).0 + step(
            written(items, k, e, o).1,
            text_of(items, k, e, o),
        ).0,
        written(items, k + 1, e, o).1 == step(written(items, k, e, o).1, text_of(items, k, e, o)).1,
{
    let texts = encode_items(items, k, e, o).0;
    let t = text_of(items, k, e, o);
    assert(texts.push(t).drop_last() =~= texts);
    assert(texts.push(t).last() == t);
}

/// What is written after `k` elements and what is written after that make
/// up what stands between the array's start token and its end.
pub proof fn lemma_array_rest(items: Seq<ValueView>, k: nat, e: Interned, o: Options)
    requires
        k <= items.len(),
    ensures
        written(items, k, e, o).0 + array_rest(items, k, e, o) == array_body(
            encode_items(items, items.len(), e, o).0,
        ) + seq![ARRAY_END_TOKEN],
    decreases items.len() - k,
{
    if k < items.len() {
        lemma_written_step(items, k, e, o);
        lemma_array_rest(items, k + 1, e, o);
        let w = written(items, k, e, o).0;
        let more = step(written(items, k, e, o).1, text_of(items, k, e, o)).0;
        assert(w + (more + array_rest(items, k + 1, e, o)) =~= (w + more) + array_rest(
            items,
            k + 1,
            e,
            o,
        ));
    } else {
        let w = written(items, k, e, o);
        assert(w.0 + (flush(w.1, false) + seq![ARRAY_END_TOKEN]) =~= (w.0 + flush(w.1, false))
            + seq![ARRAY_END_TOKEN]);
    }
}

/// A run holds the text that it started with, and every element since
/// has that text.
pub proof fn lemma_run_shape(texts: Seq<Seq<char>>)
    ensures
        texts.len() == 0 ==> run_length(texts).1.last is None && run_length(texts).1.count == 0,
        texts.len() > 0 ==> run_length(texts).1.count < texts.len() && run_length(texts).1.last
            == Some(texts[texts.len() - 1 - run_length(texts).1.count]) && forall|i: int|
            texts.len() - 1 - run_length(texts).1.count <= i < texts.len() ==> #[trigger] texts[i]
                == texts[texts.len() - 1 - run_length(texts).1.count],
    decreases texts.len(),
{
    if texts.len() > 0 {
        lemma_run_shape(texts.drop_last());
        let before = run_length(texts.drop_last()).1;
        let after = run_length(texts).1;
        assert(after == step(before, texts.last()).1);
        assert forall|i: int| texts.len() - 1 - after.count <= i < texts.len() implies #[trigger] texts[i]
            == texts[texts.len() - 1 - after.count] by {
            if i < texts.len() - 1 {
                assert(texts.drop_last()[i] == texts[i]);
            }
            assert(texts.drop_last()[texts.len() - 1 - after.count] == texts[texts.len() - 1
                - after.count] || after.count == 0);
        }
    }
}

/// Repeats that are due are read one by one, without moving on.
pub proof fn lemma_pending(
    input: Seq<char>,
    pos: int,
    d: Resolved,
    value: ValueView,
    repeat: nat,
    acc: Seq<ValueView>,
)
    requires
        0 <= pos < input.len(),
    ensures
        decode_elements(input, pos, d, Some(value), repeat, acc) == decode_elements(
            input,
            pos,
            d,
            Some(value),
            0,
            acc + Seq::new(repeat, |i: int| value),
        ),
    decreases repeat,
{
    if repeat > 0 {
        lemma_pending(input, pos, d, value, (repeat - 1) as nat, acc.push(value));
        assert(next_element(input, pos, d, Some(value), repeat) == Ok::<Step, Error>(
            Step::Element { value, next: pos, resolved: d, repeat: (repeat - 1) as nat },
        ));
        assert(advanced(input.len(), pos, repeat, pos, (repeat - 1) as nat));
        assert(decode_elements(input, pos, d, Some(value), repeat, acc) == decode_elements(
            input,
            pos,
            d,
            Some(value),
            (repeat - 1) as nat,
            acc.push(value),
        ));
        assert(acc.push(value) + Seq::new((repeat - 1) as nat, |i: int| value) =~= acc + Seq::new(
            repeat,
            |i: int| value,
        ));
    } else {
        assert(acc + Seq::new(repeat, |i: int| value) =~= acc);
    }
}

/// Where the elements from `done` up to `k` are all read back as `value`,
/// the first `k` are read back as the first `done` and then that often
/// `value`.
pub proof fn lemma_copies(items: Seq<ValueView>, done: nat, k: nat, o: Options, value: ValueView)
    requires
        done <= k <= items.len(),
        forall|i: int| done <= i < k ==> as_read(#[trigger] items[i], o) == value,
    ensures
        read_items(items, k, o) == read_items(items, done, o) + Seq::new(
            (k - done) as nat,
            |i: int| value,
        ),
    decreases k - done,
{
    if done < k {
        lemma_copies(items, done, (k - 1) as nat, o, value);
        assert(read_items(items, k, o) =~= read_items(items, done, o) + Seq::new(
            (k - done) as nat,
            |i: int| value,
        ));
    } else {
        assert(read_items(items, k, o) =~= read_items(items, done, o) + Seq::new(
            (k - done) as nat,
            |i: int| value,
        ));
    }
}

/// After an element's text or a counted repeat, a token follows.
pub proof fn lemma_array_next(items: Seq<ValueView>, k: nat, e: Interned, o: Options)
    requires
        1 <= k <= items.len(),
    ensures
        array_rest(items, k, e, o).len() >= 1,
        written(items, k, e, o).1.count < ARRAY_REPEAT_COUNT_THRESHOLD
            ==> array_rest(items, k, e, o)[0] as u32 > DELIMITING_TOKENS_THRESHOLD,
    decreases items.len() - k,
{
    lemma_run_shape(encode_items(items, k, e, o).0);
    lemma_encoded_items(items, k, e, o);
    lemma_written_step(items, (k - 1) as nat, e, o);
    lemma_encoded(items[k - 1], encode_items(items, (k - 1) as nat, e, o).1, o);
    if k < items.len() {
        lemma_array_next(items, k + 1, e, o);
        lemma_written_step(items, k, e, o);
    }
}

} // verus!

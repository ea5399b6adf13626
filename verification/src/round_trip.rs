//! How the round trip is proved: what it means that a reader is in step
//! with a writer, and the lemmas by which a written value is read back.
use vstd::prelude::*;
use crate::constants::{
    ARRAY_END_TOKEN, ARRAY_REPEAT_TOKEN, DELIMITING_TOKENS_THRESHOLD, OBJECT_END_TOKEN,
};
use crate::dict::Interned;
use crate::grammar::{parse_float, Resolved};
use crate::laws::{read_text, text_ok, well_formed};
use crate::value::{FloatView, ValueView};
use crate::wire::{float_literal, Options};

pub mod arrays;
pub mod growth;
pub mod registrations;
pub mod scalars;
pub mod values;

verus! {

/// Whether `text` stands in `input` at `pos`.
pub open spec fn stands_at(input: Seq<char>, pos: int, text: Seq<char>) -> bool {
    0 <= pos && pos + text.len() <= input.len() && input.subrange(pos, pos + text.len()) == text
}

/// Whether a value may end at `i`: at the end of the input or before a
/// token.
pub open spec fn value_ends(input: Seq<char>, i: int) -> bool {
    i >= input.len() || input[i] as u32 > DELIMITING_TOKENS_THRESHOLD
}

/// Whether `c` starts a value: it is a token, and none that ends an array
/// or an object or repeats an element.
pub open spec fn starts_value(c: char) -> bool {
    c as u32 > DELIMITING_TOKENS_THRESHOLD && c != ARRAY_END_TOKEN && c != ARRAY_REPEAT_TOKEN && c
        != OBJECT_END_TOKEN
}

/// Where two texts stand one after the other, each stands in its place.
pub proof fn lemma_stands_split(input: Seq<char>, pos: int, a: Seq<char>, b: Seq<char>)
    requires
        stands_at(input, pos, a + b),
    ensures
        stands_at(input, pos, a),
        stands_at(input, pos + a.len(), b),
{
    let whole = input.subrange(pos, pos + (a + b).len());
    assert forall|k: int| 0 <= k < a.len() implies input.subrange(pos, pos + a.len())[k] == a[k] by {
        assert(whole[k] == (a + b)[k]);
    }
    assert(input.subrange(pos, pos + a.len()) =~= a);
    assert forall|k: int| 0 <= k < b.len() implies input.subrange(
        pos + a.len(),
        pos + a.len() + b.len(),
    )[k] == b[k] by {
        assert(whole[a.len() + k] == (a + b)[a.len() + k]);
    }
    assert(input.subrange(pos + a.len(), pos + a.len() + b.len()) =~= b);
}

/// Where a text stands, its characters stand.
pub proof fn lemma_stands_char(input: Seq<char>, pos: int, text: Seq<char>, k: int)
    requires
        stands_at(input, pos, text),
        0 <= k < text.len(),
    ensures
        input[pos + k] == text[k],
{
    assert(input.subrange(pos, pos + text.len())[k] == text[k]);
}

/// Where a text stands, its beginning stands.
pub proof fn lemma_stands_prefix(input: Seq<char>, pos: int, whole: Seq<char>, part: Seq<char>)
    requires
        stands_at(input, pos, whole),
        part.is_prefix_of(whole),
    ensures
        stands_at(input, pos, part),
{
    assert(whole =~= part + whole.skip(part.len() as int));
    lemma_stands_split(input, pos, part, whole.skip(part.len() as int));
}

/// The float that a literal stands for.
pub open spec fn float_of(literal: Seq<char>) -> FloatView {
    match parse_float(literal, 0) {
        Ok((f, _)) => f,
        Err(_) => FloatView { negative: false, integer: 0, digits: Seq::empty(), thousandths: 0 },
    }
}

/// What the reader has registered when it is in step with a writer that
/// has registered `e`.
pub open spec fn reader_of(e: Interned) -> Resolved {
    Resolved {
        integers: e.integers,
        floats: Seq::new(e.floats.len(), |i: int| float_of(e.floats[i])),
        strings: e.strings,
        dates: Seq::new(e.dates.len(), |i: int| read_text(e.dates[i], true)),
        lp_dates: Seq::new(e.lp_dates.len(), |i: int| read_text(e.lp_dates[i], true)),
    }
}

/// Whether the reader has registered what the writer has: the same
/// integers and strings, for each float literal the float it stands for,
/// and for each date its text in UTC.
pub open spec fn in_step(e: Interned, d: Resolved) -> bool {
    &&& d.integers == e.integers
    &&& d.strings == e.strings
    &&& d.floats == Seq::new(e.floats.len(), |i: int| float_of(e.floats[i]))
    &&& d.dates == Seq::new(e.dates.len(), |i: int| read_text(e.dates[i], true))
    &&& d.lp_dates == Seq::new(e.lp_dates.len(), |i: int| read_text(e.lp_dates[i], true))
}

/// Whether `literal` is the literal of the float that it stands for.
pub open spec fn is_float_literal(literal: Seq<char>, full_precision: bool) -> bool {
    parse_float(literal, 0) is Ok && float_literal(float_of(literal), full_precision) == literal
}

/// Whether nothing is registered twice, the floats are registered under
/// their literals, and the dates are among `dates`.
pub open spec fn tidy(e: Interned, full_precision: bool, dates: Set<Seq<char>>) -> bool {
    &&& e.integers.no_duplicates()
    &&& e.strings.no_duplicates()
    &&& e.floats.no_duplicates()
    &&& e.dates.no_duplicates()
    &&& e.lp_dates.no_duplicates()
    &&& forall|i: int|
        0 <= i < e.floats.len() ==> is_float_literal(#[trigger] e.floats[i], full_precision)
    &&& forall|i: int| 0 <= i < e.dates.len() ==> dates.contains(#[trigger] e.dates[i])
    &&& forall|i: int| 0 <= i < e.lp_dates.len() ==> dates.contains(#[trigger] e.lp_dates[i])
}

/// Whether each kind of `before` is the beginning of that kind of `after`.
pub open spec fn extends(after: Interned, before: Interned) -> bool {
    &&& before.integers.is_prefix_of(after.integers)
    &&& before.floats.is_prefix_of(after.floats)
    &&& before.strings.is_prefix_of(after.strings)
    &&& before.dates.is_prefix_of(after.dates)
    &&& before.lp_dates.is_prefix_of(after.lp_dates)
}

/// Whether all elements of an array can be read back.
pub open spec fn items_ok(items: Seq<ValueView>, o: Options, dates: Set<Seq<char>>) -> bool {
    items.len() <= i64::MAX && forall|i: int|
        0 <= i < items.len() ==> well_formed(#[trigger] items[i], o, dates)
}

/// Whether all entries of an object can be read back.
pub open spec fn entries_ok(
    entries: Seq<(Seq<char>, ValueView)>,
    o: Options,
    dates: Set<Seq<char>>,
) -> bool {
    forall|i: int|
        0 <= i < entries.len() ==> text_ok(
            (#[trigger] entries[i]).0,
            o.detect_utc_timestamps,
            dates,
        ) && well_formed(entries[i].1, o, dates)
}

} // verus!

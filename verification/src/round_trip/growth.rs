//! What is registered is never taken back.
use vstd::prelude::*;
use crate::dict::Interned;
use crate::laws::fits;
use crate::round_trip::{extends, starts_value};
use crate::value::ValueView;
use crate::wire::{encode_entries, encode_items, encode_string, encode_value, Options};

verus! {

/// A written string starts with a token, and what was registered stays.
pub proof fn lemma_encoded_text(s: Seq<char>, e: Interned, detect: bool)
    ensures
        encode_string(s, e, detect).0.len() >= 1,
        starts_value(encode_string(s, e, detect).0[0]),
        extends(encode_string(s, e, detect).1, e),
{
}

/// A written value starts with a token, and what was registered stays.
pub proof fn lemma_encoded(v: ValueView, e: Interned, o: Options)
    ensures
        encode_value(v, e, o).0.len() >= 1,
        starts_value(encode_value(v, e, o).0[0]),
        extends(encode_value(v, e, o).1, e),
    decreases v, 0nat,
{
    match v {
        ValueView::Array(items) => {
            lemma_encoded_items(items, items.len(), e, o);
        },
        ValueView::Object(entries) => {
            lemma_encoded_entries(entries, entries.len(), e, o);
        },
        ValueView::Str(s) => {
            lemma_encoded_text(s, e, o.detect_utc_timestamps);
        },
        _ => {},
    }
}

/// Through the elements of an array, what was registered stays.
pub proof fn lemma_encoded_items(items: Seq<ValueView>, n: nat, e: Interned, o: Options)
    ensures
        extends(encode_items(items, n, e, o).1, e),
        n <= items.len() ==> encode_items(items, n, e, o).0.len() == n,
    decreases items, n,
{
    if n == 0 || n > items.len() {
    } else {
        lemma_encoded_items(items, (n - 1) as nat, e, o);
        lemma_encoded(items[n - 1], encode_items(items, (n - 1) as nat, e, o).1, o);
    }
}

/// Through the entries of an object, what was registered stays.
pub proof fn lemma_encoded_entries(
    entries: Seq<(Seq<char>, ValueView)>,
    n: nat,
    e: Interned,
    o: Options,
)
    ensures
        extends(encode_entries(entries, n, e, o).1, e),
    decreases entries, n,
{
    if n == 0 || n > entries.len() {
    } else {
        lemma_encoded_entries(entries, (n - 1) as nat, e, o);
        let before = encode_entries(entries, (n - 1) as nat, e, o).1;
        lemma_encoded_text(entries[n - 1].0, before, o.detect_utc_timestamps);
        let with_key = encode_string(entries[n - 1].0, before, o.detect_utc_timestamps).1;
        lemma_encoded(entries[n - 1].1, with_key, o);
    }
}

/// What fits still fits with less registered.
pub proof fn lemma_fits(after: Interned, before: Interned)
    requires
        extends(after, before),
        fits(after),
    ensures
        fits(before),
{
}

/// Between the elements of an array, what was registered stays.
pub proof fn lemma_items_extend(items: Seq<ValueView>, k: nat, n: nat, e: Interned, o: Options)
    requires
        k <= n <= items.len(),
    ensures
        extends(encode_items(items, n, e, o).1, encode_items(items, k, e, o).1),
    decreases n - k,
{
    if k < n {
        lemma_items_extend(items, k, (n - 1) as nat, e, o);
        lemma_encoded(items[n - 1], encode_items(items, (n - 1) as nat, e, o).1, o);
    }
}

/// The text of an object's first entries is the beginning of the text of
/// more of them, and what was registered stays.
pub proof fn lemma_entries_prefix(
    entries: Seq<(Seq<char>, ValueView)>,
    k: nat,
    n: nat,
    e: Interned,
    o: Options,
)
    requires
        k <= n <= entries.len(),
    ensures
        encode_entries(entries, k, e, o).0.is_prefix_of(encode_entries(entries, n, e, o).0),
        extends(encode_entries(entries, n, e, o).1, encode_entries(entries, k, e, o).1),
    decreases n - k,
{
    if k < n {
        lemma_entries_prefix(entries, k, (n - 1) as nat, e, o);
        let before = encode_entries(entries, (n - 1) as nat, e, o);
        lemma_encoded_text(entries[n - 1].0, before.1, o.detect_utc_timestamps);
        let with_key = encode_string(entries[n - 1].0, before.1, o.detect_utc_timestamps).1;
        lemma_encoded(entries[n - 1].1, with_key, o);
    }
}

} // verus!

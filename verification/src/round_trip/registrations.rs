//! What a text registers depends on the text alone.
use vstd::prelude::*;
use crate::constants::{
    ARRAY_END_TOKEN, ARRAY_REPEAT_MANY_TOKEN, ARRAY_REPEAT_TOKEN, ARRAY_START_TOKEN, FLOAT_TOKEN,
    INTEGER_TOKEN, OBJECT_END_TOKEN, OBJECT_START_TOKEN,
};
use crate::grammar::{
    decode_elements, decode_entries, decode_text, decode_value, is_text_token, next_element,
    parse_float, Resolved, Step, upsert,
};
use crate::integer::parse_integer;
use crate::value::ValueView;

verus! {

/// Whether each kind of `before` is the beginning of that kind of `after`.
pub open spec fn grown(before: Resolved, after: Resolved) -> bool {
    &&& before.integers.is_prefix_of(after.integers)
    &&& before.floats.is_prefix_of(after.floats)
    &&& before.strings.is_prefix_of(after.strings)
    &&& before.dates.is_prefix_of(after.dates)
    &&& before.lp_dates.is_prefix_of(after.lp_dates)
}

/// What `after` has registered beyond `before`.
pub open spec fn added(before: Resolved, after: Resolved) -> Resolved {
    Resolved {
        integers: after.integers.skip(before.integers.len() as int),
        floats: after.floats.skip(before.floats.len() as int),
        strings: after.strings.skip(before.strings.len() as int),
        dates: after.dates.skip(before.dates.len() as int),
        lp_dates: after.lp_dates.skip(before.lp_dates.len() as int),
    }
}

/// Whether two readings registered the same, each beyond its own start.
pub open spec fn same_added(d: Resolved, after: Resolved, x: Resolved, after_x: Resolved) -> bool {
    grown(d, after) && grown(x, after_x) && added(d, after) == added(x, after_x)
}

/// What two sequences got in two steps, each the same as the other, they
/// got the same in all.
pub proof fn lemma_skip_chain<A>(a: Seq<A>, b: Seq<A>, c: Seq<A>, x: Seq<A>, y: Seq<A>, z: Seq<A>)
    requires
        a.is_prefix_of(b),
        b.is_prefix_of(c),
        x.is_prefix_of(y),
        y.is_prefix_of(z),
        b.skip(a.len() as int) == y.skip(x.len() as int),
        c.skip(b.len() as int) == z.skip(y.len() as int),
    ensures
        a.is_prefix_of(c),
        x.is_prefix_of(z),
        c.skip(a.len() as int) == z.skip(x.len() as int),
{
    let p = b.skip(a.len() as int);
    let q = c.skip(b.len() as int);
    assert(p.len() == b.len() - a.len());
    assert(y.skip(x.len() as int).len() == y.len() - x.len());
    assert(q.len() == c.len() - b.len());
    assert(z.skip(y.len() as int).len() == z.len() - y.len());
    assert forall|i: int| 0 <= i < c.len() - a.len() implies c.skip(a.len() as int)[i] == z.skip(
        x.len() as int,
    )[i] by {
        if i < p.len() {
            assert(c[a.len() + i] == b[a.len() + i]);
            assert(z[x.len() + i] == y[x.len() + i]);
            assert(p[i] == b[a.len() + i]);
            assert(y.skip(x.len() as int)[i] == y[x.len() + i]);
        } else {
            assert(q[i - p.len()] == c[b.len() + i - p.len()]);
            assert(z.skip(y.len() as int)[i - p.len()] == z[y.len() + i - p.len()]);
        }
    }
    assert(c.skip(a.len() as int) =~= z.skip(x.len() as int));
}

/// Registering the same twice in a row is registering the same.
pub proof fn lemma_same_added_chain(
    d: Resolved,
    d1: Resolved,
    d2: Resolved,
    x: Resolved,
    x1: Resolved,
    x2: Resolved,
)
    requires
        same_added(d, d1, x, x1),
        same_added(d1, d2, x1, x2),
    ensures
        same_added(d, d2, x, x2),
{
    lemma_skip_chain(d.integers, d1.integers, d2.integers, x.integers, x1.integers, x2.integers);
    lemma_skip_chain(d.floats, d1.floats, d2.floats, x.floats, x1.floats, x2.floats);
    lemma_skip_chain(d.strings, d1.strings, d2.strings, x.strings, x1.strings, x2.strings);
    lemma_skip_chain(d.dates, d1.dates, d2.dates, x.dates, x1.dates, x2.dates);
    lemma_skip_chain(d.lp_dates, d1.lp_dates, d2.lp_dates, x.lp_dates, x1.lp_dates, x2.lp_dates);
}

/// Two sequences that get the same value, or nothing, get the same.
pub proof fn lemma_same_added_push<A>(a: Seq<A>, x: Seq<A>, v: A)
    ensures
        a.is_prefix_of(a.push(v)),
        x.is_prefix_of(x.push(v)),
        a.push(v).skip(a.len() as int) == x.push(v).skip(x.len() as int),
        a.skip(a.len() as int) == x.skip(x.len() as int),
{
    assert(a.push(v).skip(a.len() as int) =~= x.push(v).skip(x.len() as int));
    assert(a.skip(a.len() as int) =~= x.skip(x.len() as int));
}

/// Two readings that register nothing register the same.
pub proof fn lemma_same_added_none(d: Resolved, x: Resolved)
    ensures
        same_added(d, d, x, x),
{
    lemma_same_added_push(d.integers, x.integers, arbitrary());
    lemma_same_added_push(d.floats, x.floats, arbitrary());
    lemma_same_added_push(d.strings, x.strings, arbitrary());
    lemma_same_added_push(d.dates, x.dates, arbitrary());
    lemma_same_added_push(d.lp_dates, x.lp_dates, arbitrary());
}

/// What reading a string or a date registers depends on the text alone.
pub proof fn lemma_registered_text(input: Seq<char>, pos: int, d: Resolved, x: Resolved)
    requires
        decode_text(input, pos, d) is Ok,
        decode_text(input, pos, x) is Ok,
    ensures
        decode_text(input, pos, d)->Ok_0.next == decode_text(input, pos, x)->Ok_0.next,
        same_added(
            d,
            decode_text(input, pos, d)->Ok_0.resolved,
            x,
            decode_text(input, pos, x)->Ok_0.resolved,
        ),
{
    lemma_same_added_none(d, x);
    let t = decode_text(input, pos, d)->Ok_0;
    lemma_same_added_push(d.strings, x.strings, t.text);
    lemma_same_added_push(d.dates, x.dates, t.text);
    lemma_same_added_push(d.lp_dates, x.lp_dates, t.text);
}

/// What reading a value registers, and where it ends, depends on the text
/// alone, not on what was registered before.
pub proof fn lemma_registered(input: Seq<char>, pos: int, d: Resolved, x: Resolved)
    requires
        decode_value(input, pos, d) is Ok,
        decode_value(input, pos, x) is Ok,
    ensures
        decode_value(input, pos, d)->Ok_0.next == decode_value(input, pos, x)->Ok_0.next,
        same_added(
            d,
            decode_value(input, pos, d)->Ok_0.resolved,
            x,
            decode_value(input, pos, x)->Ok_0.resolved,
        ),
    decreases input.len() - pos, 0nat, 0nat,
{
    lemma_same_added_none(d, x);
    let c = input[pos];
    if c == ARRAY_START_TOKEN {
        lemma_registered_elements(input, pos + 1, d, x, None, None, 0, Seq::empty(), Seq::empty());
    } else if c == OBJECT_START_TOKEN {
        lemma_registered_entries(input, pos + 1, d, x, Seq::empty(), Seq::empty());
    } else if is_text_token(c) {
        lemma_registered_text(input, pos, d, x);
    } else if c == INTEGER_TOKEN {
        let v = parse_integer(input, pos + 1)->Ok_0.0;
        lemma_same_added_push(d.integers, x.integers, v);
    } else if c == FLOAT_TOKEN {
        let f = parse_float(input, pos + 1)->Ok_0.0;
        lemma_same_added_push(d.floats, x.floats, f);
    }
}

/// The same for one step of reading an array.
pub proof fn lemma_registered_step(
    input: Seq<char>,
    pos: int,
    d: Resolved,
    x: Resolved,
    last: Option<ValueView>,
    last_x: Option<ValueView>,
    repeat: nat,
)
    requires
        next_element(input, pos, d, last, repeat) is Ok,
        next_element(input, pos, x, last_x, repeat) is Ok,
        last is Some == last_x is Some,
    ensures
        match (
            next_element(input, pos, d, last, repeat)->Ok_0,
            next_element(input, pos, x, last_x, repeat)->Ok_0,
        ) {
            (Step::End { next }, Step::End { next: next_x }) => next == next_x,
            (
                Step::Element { next, resolved, repeat: due, .. },
                Step::Element { next: next_x, resolved: resolved_x, repeat: due_x, .. },
            ) => next == next_x && due == due_x && same_added(d, resolved, x, resolved_x),
            _ => false,
        },
    decreases input.len() - pos, repeat, 1nat,
{
    lemma_same_added_none(d, x);
    if repeat > 0 {
    } else if input[pos] == ARRAY_END_TOKEN {
    } else if input[pos] == ARRAY_REPEAT_TOKEN {
    } else if input[pos] == ARRAY_REPEAT_MANY_TOKEN {
        let (count, next) = parse_integer(input, pos + 1)->Ok_0;
        if count <= 0 {
            lemma_registered_step(input, next, d, x, last, last_x, 0);
        }
    } else {
        lemma_registered(input, pos, d, x);
    }
}

/// The same for the rest of an array.
pub proof fn lemma_registered_elements(
    input: Seq<char>,
    pos: int,
    d: Resolved,
    x: Resolved,
    last: Option<ValueView>,
    last_x: Option<ValueView>,
    repeat: nat,
    acc: Seq<ValueView>,
    acc_x: Seq<ValueView>,
)
    requires
        decode_elements(input, pos, d, last, repeat, acc) is Ok,
        decode_elements(input, pos, x, last_x, repeat, acc_x) is Ok,
        last is Some == last_x is Some,
    ensures
        decode_elements(input, pos, d, last, repeat, acc)->Ok_0.next == decode_elements(
            input,
            pos,
            x,
            last_x,
            repeat,
            acc_x,
        )->Ok_0.next,
        same_added(
            d,
            decode_elements(input, pos, d, last, repeat, acc)->Ok_0.resolved,
            x,
            decode_elements(input, pos, x, last_x, repeat, acc_x)->Ok_0.resolved,
        ),
    decreases input.len() - pos, repeat, 2nat,
{
    lemma_same_added_none(d, x);
    lemma_registered_step(input, pos, d, x, last, last_x, repeat);
    match (
        next_element(input, pos, d, last, repeat)->Ok_0,
        next_element(input, pos, x, last_x, repeat)->Ok_0,
    ) {
        (
            Step::Element { value, next, resolved, repeat: due },
            Step::Element { value: value_x, resolved: resolved_x, .. },
        ) => {
            lemma_registered_elements(
                input,
                next,
                resolved,
                resolved_x,
                Some(value),
                Some(value_x),
                due,
                acc.push(value),
                acc_x.push(value_x),
            );
            lemma_same_added_chain(
                d,
                resolved,
                decode_elements(input, pos, d, last, repeat, acc)->Ok_0.resolved,
                x,
                resolved_x,
                decode_elements(input, pos, x, last_x, repeat, acc_x)->Ok_0.resolved,
            );
        },
        _ => {},
    }
}

/// The same for the rest of an object.
pub proof fn lemma_registered_entries(
    input: Seq<char>,
    pos: int,
    d: Resolved,
    x: Resolved,
    acc: Seq<(Seq<char>, ValueView)>,
    acc_x: Seq<(Seq<char>, ValueView)>,
)
    requires
        decode_entries(input, pos, d, acc) is Ok,
        decode_entries(input, pos, x, acc_x) is Ok,
    ensures
        decode_entries(input, pos, d, acc)->Ok_0.next == decode_entries(
            input,
            pos,
            x,
            acc_x,
        )->Ok_0.next,
        same_added(
            d,
            decode_entries(input, pos, d, acc)->Ok_0.resolved,
            x,
            decode_entries(input, pos, x, acc_x)->Ok_0.resolved,
        ),
    decreases input.len() - pos, 0nat, 2nat,
{
    lemma_same_added_none(d, x);
    if input[pos] != OBJECT_END_TOKEN {
        lemma_registered_text(input, pos, d, x);
        let key = decode_text(input, pos, d)->Ok_0;
        let key_x = decode_text(input, pos, x)->Ok_0;
        lemma_registered(input, key.next, key.resolved, key_x.resolved);
        let value = decode_value(input, key.next, key.resolved)->Ok_0;
        let value_x = decode_value(input, key.next, key_x.resolved)->Ok_0;
        lemma_registered_entries(
            input,
            value.next,
            value.resolved,
            value_x.resolved,
            upsert(acc, key.text, value.value),
            upsert(acc_x, key_x.text, value_x.value),
        );
        lemma_same_added_chain(
            d,
            key.resolved,
            value.resolved,
            x,
            key_x.resolved,
            value_x.resolved,
        );
        lemma_same_added_chain(
            d,
            value.resolved,
            decode_entries(input, pos, d, acc)->Ok_0.resolved,
            x,
            value_x.resolved,
            decode_entries(input, pos, x, acc_x)->Ok_0.resolved,
        );
    }
}

/// Where a third registration repeats what the second added, and nothing
/// may be registered twice, neither added anything.
pub proof fn lemma_nothing_new<A, B>(a: Seq<A>, b: Seq<A>, c: Seq<A>, f: spec_fn(A) -> B)
    requires
        a.is_prefix_of(b),
        b.is_prefix_of(c),
        c.no_duplicates(),
        Seq::new(b.len(), |i: int| f(b[i])).skip(a.len() as int) == Seq::new(
            c.len(),
            |i: int| f(c[i]),
        ).skip(b.len() as int),
        forall|i: int, j: int|
            0 <= i < c.len() && 0 <= j < c.len() && f(c[i]) == f(c[j]) ==> c[i] == c[j],
    ensures
        a == b,
        b == c,
{
    let mb = Seq::new(b.len(), |i: int| f(b[i]));
    let mc = Seq::new(c.len(), |i: int| f(c[i]));
    assert(mb.skip(a.len() as int).len() == b.len() - a.len());
    assert(mc.skip(b.len() as int).len() == c.len() - b.len());
    if b.len() > a.len() {
        assert(mb.skip(a.len() as int)[0] == f(b[a.len() as int]));
        assert(mc.skip(b.len() as int)[0] == f(c[b.len() as int]));
        assert(c[a.len() as int] == b[a.len() as int]);
        assert(c[a.len() as int] == c[b.len() as int]);
        assert(false);
    }
    assert(a =~= b);
    assert(b =~= c);
}

} // verus!

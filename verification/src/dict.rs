//! The writer's dictionaries: what has been registered, and under which
//! index.
use vstd::prelude::*;
use indexmap::IndexMap;
use std::collections::hash_map::RandomState;
use crate::integer::integer_literal;

verus! {

/// `indexmap::IndexMap`: a hash map that keeps its entries in the order in
/// which their keys were inserted. Of a map only that is known which the
/// functions below say.
#[verifier::external_type_specification]
#[verifier::external_body]
#[verifier::reject_recursive_types(K)]
#[verifier::reject_recursive_types(V)]
#[verifier::reject_recursive_types(S)]
pub struct ExIndexMap<K, V, S>(IndexMap<K, V, S>);

/// What a map from integers holds: its entries, in the order in which their
/// keys were first inserted.
pub uninterp spec fn integer_entries(m: IndexMap<i64, String, RandomState>) -> Seq<
    (i64, Seq<char>),
>;

/// What a map from strings holds: its entries, in the order in which their
/// keys were first inserted.
pub uninterp spec fn text_entries(m: IndexMap<String, String, RandomState>) -> Seq<
    (Seq<char>, Seq<char>),
>;

/// `IndexMap::new`: a map without entries.
#[verifier::external_body]
pub(crate) fn integers_new() -> (m: IndexMap<i64, String, RandomState>)
    ensures
        integer_entries(m) == Seq::<(i64, Seq<char>)>::empty(),
{
    IndexMap::new()
}

/// `IndexMap::len`: the number of entries.
#[verifier::external_body]
pub(crate) fn integers_len(m: &IndexMap<i64, String, RandomState>) -> (n: usize)
    ensures
        n == integer_entries(*m).len(),
{
    m.len()
}

/// `IndexMap::get`: the value stored for `key`, and `None` where no entry
/// has that key.
#[verifier::external_body]
pub(crate) fn integers_get(m: &IndexMap<i64, String, RandomState>, key: i64) -> (found: Option<
    &String,
>)
    ensures
        match found {
            Some(value) => exists|i: int|
                0 <= i < integer_entries(*m).len() && integer_entries(*m)[i] == (key, value@),
            None => forall|i: int|
                0 <= i < integer_entries(*m).len() ==> integer_entries(*m)[i].0 != key,
        },
{
    m.get(&key)
}

/// `IndexMap::insert`: a key that no entry has is added with its value as
/// the last entry; for a key that an entry has, that entry keeps its place
/// and gets the new value.
#[verifier::external_body]
pub(crate) fn integers_insert(m: &mut IndexMap<i64, String, RandomState>, key: i64, value: String)
    ensures
        (forall|i: int|
            0 <= i < integer_entries(*old(m)).len() ==> integer_entries(*old(m))[i].0 != key)
            ==> integer_entries(*final(m)) == integer_entries(*old(m)).push((key, value@)),
        (exists|i: int|
            0 <= i < integer_entries(*old(m)).len() && integer_entries(*old(m))[i].0 == key)
            ==> exists|i: int|
            0 <= i < integer_entries(*old(m)).len() && integer_entries(*old(m))[i].0 == key
                && integer_entries(*final(m)) == integer_entries(*old(m)).update(i, (key, value@)),
{
    m.insert(key, value);
}

/// `IndexMap::new`: a map without entries.
#[verifier::external_body]
pub(crate) fn texts_new() -> (m: IndexMap<String, String, RandomState>)
    ensures
        text_entries(m) == Seq::<(Seq<char>, Seq<char>)>::empty(),
{
    IndexMap::new()
}

/// `IndexMap::len`: the number of entries.
#[verifier::external_body]
pub(crate) fn texts_len(m: &IndexMap<String, String, RandomState>) -> (n: usize)
    ensures
        n == text_entries(*m).len(),
{
    m.len()
}

/// `IndexMap::get`: the value stored for `key`, and `None` where no entry
/// has that key.
#[verifier::external_body]
pub(crate) fn texts_get<'a>(m: &'a IndexMap<String, String, RandomState>, key: &str) -> (found:
    Option<&'a String>)
    ensures
        match found {
            Some(value) => exists|i: int|
                0 <= i < text_entries(*m).len() && text_entries(*m)[i] == (key@, value@),
            None => forall|i: int|
                0 <= i < text_entries(*m).len() ==> text_entries(*m)[i].0 != key@,
        },
{
    m.get(key)
}

/// `IndexMap::insert`: a key that no entry has is added with its value as
/// the last entry; for a key that an entry has, that entry keeps its place
/// and gets the new value.
#[verifier::external_body]
pub(crate) fn texts_insert(
    m: &mut IndexMap<String, String, RandomState>,
    key: String,
    value: String,
)
    ensures
        (forall|i: int| 0 <= i < text_entries(*old(m)).len() ==> text_entries(*old(m))[i].0 != key@)
            ==> text_entries(*final(m)) == text_entries(*old(m)).push((key@, value@)),
        (exists|i: int| 0 <= i < text_entries(*old(m)).len() && text_entries(*old(m))[i].0 == key@)
            ==> exists|i: int|
            0 <= i < text_entries(*old(m)).len() && text_entries(*old(m))[i].0 == key@
                && text_entries(*final(m)) == text_entries(*old(m)).update(i, (key@, value@)),
{
    m.insert(key, value);
}

/// The keys of a dictionary's entries, in order.
pub open spec fn keys<K>(entries: Seq<(K, Seq<char>)>) -> Seq<K> {
    Seq::new(entries.len(), |i: int| entries[i].0)
}

/// Whether each entry holds the text of its own position, and no key
/// occurs twice.
pub open spec fn indexed<K>(entries: Seq<(K, Seq<char>)>) -> bool {
    &&& forall|i: int| 0 <= i < entries.len() ==> (#[trigger] entries[i]).1 == integer_literal(i)
    &&& forall|i: int, j: int|
        0 <= i < entries.len() && 0 <= j < entries.len() && i != j ==> (#[trigger] entries[i]).0
            != (#[trigger] entries[j]).0
}

/// The position at which `key` was registered.
pub open spec fn position<K>(registered: Seq<K>, key: K) -> int {
    choose|i: int| 0 <= i < registered.len() && registered[i] == key
}

/// What has been registered so far, kind by kind, each in the order of
/// registration: a value's position is the index that refers to it.
pub struct Interned {
    pub integers: Seq<i64>,
    pub floats: Seq<Seq<char>>,
    pub strings: Seq<Seq<char>>,
    pub dates: Seq<Seq<char>>,
    pub lp_dates: Seq<Seq<char>>,
}

impl Interned {
    /// Nothing registered.
    pub open spec fn empty() -> Interned {
        Interned {
            integers: Seq::empty(),
            floats: Seq::empty(),
            strings: Seq::empty(),
            dates: Seq::empty(),
            lp_dates: Seq::empty(),
        }
    }
}

/// The writer's dictionaries: for each registered value the text of the
/// index it was registered under.
pub(crate) struct InvertedIndex {
    pub(crate) integers: IndexMap<i64, String, RandomState>,
    pub(crate) floats: IndexMap<String, String, RandomState>,
    pub(crate) strings: IndexMap<String, String, RandomState>,
    pub(crate) dates: IndexMap<String, String, RandomState>,
    pub(crate) lp_dates: IndexMap<String, String, RandomState>,
}

impl View for InvertedIndex {
    type V = Interned;

    closed spec fn view(&self) -> Interned {
        Interned {
            integers: keys(integer_entries(self.integers)),
            floats: keys(text_entries(self.floats)),
            strings: keys(text_entries(self.strings)),
            dates: keys(text_entries(self.dates)),
            lp_dates: keys(text_entries(self.lp_dates)),
        }
    }
}

impl InvertedIndex {
    /// Every entry holds the text of its own position, and no key occurs
    /// twice.
    pub(crate) closed spec fn wf(&self) -> bool {
        &&& indexed(integer_entries(self.integers))
        &&& indexed(text_entries(self.floats))
        &&& indexed(text_entries(self.strings))
        &&& indexed(text_entries(self.dates))
        &&& indexed(text_entries(self.lp_dates))
    }

    /// Nothing registered.
    pub(crate) fn new() -> (index: Self)
        ensures
            index.wf(),
            index@ == Interned::empty(),
    {
        let index = InvertedIndex {
            integers: integers_new(),
            floats: texts_new(),
            strings: texts_new(),
            dates: texts_new(),
            lp_dates: texts_new(),
        };
        assert(index@.integers =~= Seq::<i64>::empty());
        assert(index@.floats =~= Seq::<Seq<char>>::empty());
        assert(index@.strings =~= Seq::<Seq<char>>::empty());
        assert(index@.dates =~= Seq::<Seq<char>>::empty());
        assert(index@.lp_dates =~= Seq::<Seq<char>>::empty());
        index
    }

    /// How many integers are registered.
    pub(crate) fn integers_len(&self) -> (n: usize)
        ensures
            n == self@.integers.len(),
    {
        integers_len(&self.integers)
    }

    /// The text of the index that `key` is registered under, if it is.
    pub(crate) fn get_integer(&self, key: i64) -> (found: Option<&String>)
        requires
            self.wf(),
        ensures
            found is Some == self@.integers.contains(key),
            found matches Some(text) ==> text@ == integer_literal(
                position(self@.integers, key),
            ),
    {
        let found = integers_get(&self.integers, key);
        proof {
            match found {
                Some(text) => lemma_found(integer_entries(self.integers), key, text@),
                None => lemma_absent(integer_entries(self.integers), key),
            }
        }
        found
    }

    /// Registers `key`, which is new, under the next index, whose text is
    /// `value`.
    pub(crate) fn add_integer(&mut self, key: i64, value: String)
        requires
            old(self).wf(),
            !old(self)@.integers.contains(key),
            value@ == integer_literal(old(self)@.integers.len() as int),
        ensures
            final(self).wf(),
            final(self)@ == (Interned { integers: old(self)@.integers.push(key), ..old(self)@ }),
    {
        proof {
            lemma_registered(integer_entries(self.integers), key);
        }
        integers_insert(&mut self.integers, key, value);
    }

    /// How many floats are registered.
    pub(crate) fn floats_len(&self) -> (n: usize)
        ensures
            n == self@.floats.len(),
    {
        texts_len(&self.floats)
    }

    /// The text of the index that the float literal `key` is registered
    /// under, if it is.
    pub(crate) fn get_float(&self, key: &str) -> (found: Option<&String>)
        requires
            self.wf(),
        ensures
            found is Some == self@.floats.contains(key@),
            found matches Some(text) ==> text@ == integer_literal(position(self@.floats, key@)),
    {
        find(&self.floats, key)
    }

    /// Registers the float literal `key`, which is new, under the next
    /// index, whose text is `value`.
    pub(crate) fn add_float(&mut self, key: String, value: String)
        requires
            old(self).wf(),
            !old(self)@.floats.contains(key@),
            value@ == integer_literal(old(self)@.floats.len() as int),
        ensures
            final(self).wf(),
            final(self)@ == (Interned { floats: old(self)@.floats.push(key@), ..old(self)@ }),
    {
        register(&mut self.floats, key, value);
    }

    /// How many strings are registered.
    pub(crate) fn strings_len(&self) -> (n: usize)
        ensures
            n == self@.strings.len(),
    {
        texts_len(&self.strings)
    }

    /// The text of the index that the string `key` is registered under,
    /// if it is.
    pub(crate) fn get_string(&self, key: &str) -> (found: Option<&String>)
        requires
            self.wf(),
        ensures
            found is Some == self@.strings.contains(key@),
            found matches Some(text) ==> text@ == integer_literal(position(self@.strings, key@)),
    {
        find(&self.strings, key)
    }

    /// Registers the string `key`, which is new, under the next index,
    /// whose text is `value`.
    pub(crate) fn add_string(&mut self, key: String, value: String)
        requires
            old(self).wf(),
            !old(self)@.strings.contains(key@),
            value@ == integer_literal(old(self)@.strings.len() as int),
        ensures
            final(self).wf(),
            final(self)@ == (Interned { strings: old(self)@.strings.push(key@), ..old(self)@ }),
    {
        register(&mut self.strings, key, value);
    }

    /// How many dates are registered.
    pub(crate) fn dates_len(&self) -> (n: usize)
        ensures
            n == self@.dates.len(),
    {
        texts_len(&self.dates)
    }

    /// The text of the index that the date `key` is registered under, if
    /// it is.
    pub(crate) fn get_date(&self, key: &str) -> (found: Option<&String>)
        requires
            self.wf(),
        ensures
            found is Some == self@.dates.contains(key@),
            found matches Some(text) ==> text@ == integer_literal(position(self@.dates, key@)),
    {
        find(&self.dates, key)
    }

    /// Registers the date `key`, which is new, under the next index, whose
    /// text is `value`.
    pub(crate) fn add_date(&mut self, key: String, value: String)
        requires
            old(self).wf(),
            !old(self)@.dates.contains(key@),
            value@ == integer_literal(old(self)@.dates.len() as int),
        ensures
            final(self).wf(),
            final(self)@ == (Interned { dates: old(self)@.dates.push(key@), ..old(self)@ }),
    {
        register(&mut self.dates, key, value);
    }

    /// How many low-precision dates are registered.
    pub(crate) fn lp_dates_len(&self) -> (n: usize)
        ensures
            n == self@.lp_dates.len(),
    {
        texts_len(&self.lp_dates)
    }

    /// The text of the index that the low-precision date `key` is
    /// registered under, if it is.
    pub(crate) fn get_lp_date(&self, key: &str) -> (found: Option<&String>)
        requires
            self.wf(),
        ensures
            found is Some == self@.lp_dates.contains(key@),
            found matches Some(text) ==> text@ == integer_literal(
                position(self@.lp_dates, key@),
            ),
    {
        find(&self.lp_dates, key)
    }

    /// Registers the low-precision date `key`, which is new, under the
    /// next index, whose text is `value`.
    pub(crate) fn add_lp_date(&mut self, key: String, value: String)
        requires
            old(self).wf(),
            !old(self)@.lp_dates.contains(key@),
            value@ == integer_literal(old(self)@.lp_dates.len() as int),
        ensures
            final(self).wf(),
            final(self)@ == (Interned { lp_dates: old(self)@.lp_dates.push(key@), ..old(self)@ }),
    {
        register(&mut self.lp_dates, key, value);
    }
}

/// The text of the index that `key` is registered under in `m`, if it
/// is.
fn find<'a>(m: &'a IndexMap<String, String, RandomState>, key: &str) -> (found: Option<
    &'a String,
>)
    requires
        indexed(text_entries(*m)),
    ensures
        found is Some == keys(text_entries(*m)).contains(key@),
        found matches Some(text) ==> text@ == integer_literal(
            position(keys(text_entries(*m)), key@),
        ),
{
    let found = texts_get(m, key);
    proof {
        match found {
            Some(text) => lemma_found(text_entries(*m), key@, text@),
            None => lemma_absent(text_entries(*m), key@),
        }
    }
    found
}

/// Registers `key`, which is new, in `m` under the next index, whose text
/// is `value`.
fn register(m: &mut IndexMap<String, String, RandomState>, key: String, value: String)
    requires
        indexed(text_entries(*old(m))),
        !keys(text_entries(*old(m))).contains(key@),
        value@ == integer_literal(text_entries(*old(m)).len() as int),
    ensures
        indexed(text_entries(*final(m))),
        keys(text_entries(*final(m))) == keys(text_entries(*old(m))).push(key@),
{
    proof {
        lemma_registered(text_entries(*m), key@);
    }
    texts_insert(m, key, value);
}


/// In a dictionary whose entries hold their positions, the entry found for a
/// key holds the text of that key's position.
pub proof fn lemma_found<K>(entries: Seq<(K, Seq<char>)>, key: K, value: Seq<char>)
    requires
        indexed(entries),
        exists|i: int| 0 <= i < entries.len() && entries[i] == (key, value),
    ensures
        keys(entries).contains(key),
        value == integer_literal(position(keys(entries), key)),
{
    let i = choose|i: int| 0 <= i < entries.len() && entries[i] == (key, value);
    assert(keys(entries)[i] == key);
    let j = position(keys(entries), key);
    assert(0 <= j < entries.len() && keys(entries)[j] == key);
    assert(entries[j].0 == key);
    assert(i == j);
}

/// A key that no entry has is not among the keys.
pub proof fn lemma_absent<K>(entries: Seq<(K, Seq<char>)>, key: K)
    requires
        forall|i: int| 0 <= i < entries.len() ==> entries[i].0 != key,
    ensures
        !keys(entries).contains(key),
{
    if keys(entries).contains(key) {
        let i = choose|i: int| 0 <= i < keys(entries).len() && keys(entries)[i] == key;
        assert(entries[i].0 == key);
    }
}

/// Adding a new key with the text of the next position keeps a dictionary
/// in order.
pub proof fn lemma_registered<K>(entries: Seq<(K, Seq<char>)>, key: K)
    requires
        indexed(entries),
        !keys(entries).contains(key),
    ensures
        indexed(entries.push((key, integer_literal(entries.len() as int)))),
        keys(entries.push((key, integer_literal(entries.len() as int)))) == keys(entries).push(
            key,
        ),
        forall|i: int| 0 <= i < entries.len() ==> entries[i].0 != key,
{
    let after = entries.push((key, integer_literal(entries.len() as int)));
    assert forall|i: int| 0 <= i < entries.len() implies entries[i].0 != key by {
        assert(keys(entries)[i] == entries[i].0);
    }
    assert(keys(after) =~= keys(entries).push(key));
    assert forall|i: int, j: int|
        0 <= i < after.len() && 0 <= j < after.len() && i != j implies (#[trigger] after[i]).0 != (
    #[trigger] after[j]).0 by {
        if i < entries.len() && j < entries.len() {
            assert(after[i] == entries[i]);
            assert(after[j] == entries[j]);
        }
    }
    assert forall|i: int| 0 <= i < after.len() implies (#[trigger] after[i]).1 == integer_literal(
        i,
    ) by {
        if i < entries.len() {
            assert(after[i] == entries[i]);
        }
    }
}

} // verus!

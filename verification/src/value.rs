//! The values that a document holds.
use vstd::prelude::*;

verus! {

/// A floating-point number as the codec sees it: the parts of its decimal
/// text, and its fraction in thousandths. The codec computes with none
/// of them; it writes and reads them.
///
/// With all decimals a float is written from `negative`, `integer` and
/// `digits`, and with three decimals from `integer` and `thousandths`. A
/// float that was read holds what its literal held: no digits and the
/// thousandths, or the digits and no thousandths.
#[derive(Debug, Clone, PartialEq, Eq)]
pub struct Float {
    /// Whether the decimal text starts with a minus sign.
    pub negative: bool,
    /// The integer part, rounded toward zero.
    pub integer: i64,
    /// The decimal digits after the point; none where the text has no point.
    pub digits: String,
    /// The fraction in thousandths, rounded, with the sign of the number.
    pub thousandths: i64,
}

/// What a `Float` holds.
pub struct FloatView {
    pub negative: bool,
    pub integer: i64,
    pub digits: Seq<char>,
    pub thousandths: i64,
}

impl View for Float {
    type V = FloatView;

    open spec fn view(&self) -> FloatView {
        FloatView {
            negative: self.negative,
            integer: self.integer,
            digits: self.digits@,
            thousandths: self.thousandths,
        }
    }
}

/// A number: an integer or a float.
#[derive(Debug, Clone, PartialEq, Eq)]
pub enum Number {
    Int(i64),
    Float(Float),
}

/// What a document can hold.
#[derive(Debug, PartialEq, Eq)]
pub enum Value {
    /// An absent value. It is written as null is.
    Undefined,
    Null,
    Bool(bool),
    Number(Number),
    String(String),
    Array(Vec<Value>),
    /// The entries of an object, in their order. An object that was read
    /// has no key twice.
    Object(Vec<(String, Value)>),
}

/// What a `Value` holds.
pub enum ValueView {
    Undefined,
    Null,
    Bool(bool),
    Int(i64),
    Float(FloatView),
    Str(Seq<char>),
    Array(Seq<ValueView>),
    Object(Seq<(Seq<char>, ValueView)>),
}

/// What `v` holds.
pub open spec fn value_view(v: Value) -> ValueView
    decreases v,
{
    match v {
        Value::Undefined => ValueView::Undefined,
        Value::Null => ValueView::Null,
        Value::Bool(b) => ValueView::Bool(b),
        Value::Number(Number::Int(i)) => ValueView::Int(i),
        Value::Number(Number::Float(f)) => ValueView::Float(f@),
        Value::String(s) => ValueView::Str(s@),
        Value::Array(items) => ValueView::Array(
            Seq::new(
                items@.len(),
                |i: int|
                    if 0 <= i < items@.len() {
                        value_view(items@[i])
                    } else {
                        ValueView::Null
                    },
            ),
        ),
        Value::Object(entries) => ValueView::Object(
            Seq::new(
                entries@.len(),
                |i: int|
                    if 0 <= i < entries@.len() {
                        (entries@[i].0@, value_view(entries@[i].1))
                    } else {
                        (Seq::empty(), ValueView::Null)
                    },
            ),
        ),
    }
}

impl View for Value {
    type V = ValueView;

    open spec fn view(&self) -> ValueView {
        value_view(*self)
    }
}

/// What each of the values holds.
pub open spec fn views(items: Seq<Value>) -> Seq<ValueView> {
    Seq::new(items.len(), |i: int| items[i]@)
}

/// What each of the entries holds.
pub open spec fn entry_views(entries: Seq<(String, Value)>) -> Seq<(Seq<char>, ValueView)> {
    Seq::new(entries.len(), |i: int| (entries[i].0@, entries[i].1@))
}

/// An array holds what its elements hold.
pub proof fn lemma_view_array(v: Value)
    requires
        v is Array,
    ensures
        v@ == ValueView::Array(views(v->Array_0@)),
{
    assert(v@->Array_0 =~= views(v->Array_0@));
}

/// An object holds what its entries hold.
pub proof fn lemma_view_object(v: Value)
    requires
        v is Object,
    ensures
        v@ == ValueView::Object(entry_views(v->Object_0@)),
{
    assert(v@->Object_0 =~= entry_views(v->Object_0@));
}

impl Clone for Value {
    /// A value that holds the same.
    fn clone(&self) -> (r: Value)
        ensures
            r@ == self@,
    {
        copy_value(self)
    }
}

/// A value that holds the same.
fn copy_value(v: &Value) -> (r: Value)
    ensures
        r@ == v@,
    decreases v, 1nat,
{
    match v {
        Value::Undefined => Value::Undefined,
        Value::Null => Value::Null,
        Value::Bool(b) => Value::Bool(*b),
        Value::Number(Number::Int(i)) => Value::Number(Number::Int(*i)),
        Value::Number(Number::Float(f)) => Value::Number(Number::Float(Float {
            negative: f.negative,
            integer: f.integer,
            digits: f.digits.clone(),
            thousandths: f.thousandths,
        })),
        Value::String(s) => Value::String(s.clone()),
        Value::Array(items) => {
            let out = copy_items(items);
            let r = Value::Array(out);
            proof {
                lemma_view_array(r);
                lemma_view_array(*v);
            }
            r
        },
        Value::Object(entries) => {
            let out = copy_entries(entries);
            let r = Value::Object(out);
            proof {
                lemma_view_object(r);
                lemma_view_object(*v);
            }
            r
        },
    }
}

/// Values that hold the same.
fn copy_items(items: &Vec<Value>) -> (out: Vec<Value>)
    ensures
        views(out@) == views(items@),
    decreases items, 0nat,
{
    let mut out: Vec<Value> = Vec::new();
    let mut i: usize = 0;
    while i < items.len()
        invariant
            i <= items.len(),
            out.len() == i,
            forall|j: int| 0 <= j < i ==> out@[j]@ == items@[j]@,
        decreases items.len() - i,
    {
        let c = copy_value(&items[i]);
        out.push(c);
        i += 1;
    }
    assert(views(out@) =~= views(items@));
    out
}

/// Entries that hold the same.
fn copy_entries(entries: &Vec<(String, Value)>) -> (out: Vec<(String, Value)>)
    ensures
        entry_views(out@) == entry_views(entries@),
    decreases entries, 0nat,
{
    let mut out: Vec<(String, Value)> = Vec::new();
    let mut i: usize = 0;
    while i < entries.len()
        invariant
            i <= entries.len(),
            out.len() == i,
            forall|j: int|
                0 <= j < i ==> out@[j].0@ == entries@[j].0@ && out@[j].1@ == entries@[j].1@,
        decreases entries.len() - i,
    {
        let c = copy_value(&entries[i].1);
        out.push((entries[i].0.clone(), c));
        i += 1;
    }
    assert(entry_views(out@) =~= entry_views(entries@));
    out
}

} // verus!

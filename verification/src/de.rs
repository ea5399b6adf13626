//! Reading a document.
use vstd::prelude::*;
use crate::constants::{
    ARRAY_END_TOKEN, ARRAY_REPEAT_MANY_TOKEN, ARRAY_REPEAT_TOKEN, ARRAY_START_TOKEN,
    BOOLEAN_FALSE_TOKEN, BOOLEAN_TRUE_TOKEN, DATE_LOW_PRECISION, DATE_TOKEN,
    FLOAT_FULL_PRECISION_DELIMITER, FLOAT_REDUCED_PRECISION_DELIMITER, FLOAT_TOKEN,
    INTEGER_SMALL_TOKEN_EXCLUSIVE_BOUND_LOWER, INTEGER_SMALL_TOKEN_EXCLUSIVE_BOUND_UPPER,
    INTEGER_SMALL_TOKEN_OFFSET, INTEGER_TOKEN, LP_DATE_TOKEN, NULL_TOKEN, OBJECT_END_TOKEN,
    OBJECT_START_TOKEN, REF_DATE_TOKEN, REF_FLOAT_TOKEN, REF_INTEGER_TOKEN, REF_LP_DATE_TOKEN,
    REF_STRING_TOKEN, STRING_TOKEN, UNREFERENCED_DATE_TOKEN, UNREFERENCED_FLOAT_TOKEN,
    UNREFERENCED_INTEGER_TOKEN, UNREFERENCED_LP_DATE_TOKEN, UNREFERENCED_STRING_TOKEN,
};
use crate::date::{decimal_run_end, utc_rfc3339};
use crate::error::{Error, Result};
use crate::escape::parse_string_at;
use crate::grammar;
use crate::grammar::{advanced, Decoded, Resolved, Step, Text};
use crate::integer::parse_integer_at;
use crate::text::{chars_of, code_point, string_of};
use crate::value::{
    entry_views, Float, lemma_view_array, lemma_view_object, Number, Value, ValueView,
    views,
};
use crate::{escape, integer};

verus! {

/// The reader's dictionaries: what was registered, kind by kind, in the
/// order of registration.
pub struct OrderedIndex {
    strings: Vec<String>,
    integers: Vec<i64>,
    floats: Vec<Float>,
    dates: Vec<String>,
    lp_dates: Vec<String>,
}

/// What the strings are.
pub open spec fn texts(strings: Seq<String>) -> Seq<Seq<char>> {
    Seq::new(strings.len(), |i: int| strings[i]@)
}

impl View for OrderedIndex {
    type V = Resolved;

    closed spec fn view(&self) -> Resolved {
        Resolved {
            integers: self.integers@,
            floats: Seq::new(self.floats@.len(), |i: int| self.floats@[i]@),
            strings: texts(self.strings@),
            dates: texts(self.dates@),
            lp_dates: texts(self.lp_dates@),
        }
    }
}

/// A float that holds the same.
fn copy_float(f: &Float) -> (r: Float)
    ensures
        r@ == f@,
{
    Float {
        negative: f.negative,
        integer: f.integer,
        digits: f.digits.clone(),
        thousandths: f.thousandths,
    }
}

impl OrderedIndex {
    /// Nothing registered.
    pub fn new() -> (index: Self)
        ensures
            index@ == Resolved::empty(),
    {
        let index = OrderedIndex {
            strings: Vec::new(),
            integers: Vec::new(),
            floats: Vec::new(),
            dates: Vec::new(),
            lp_dates: Vec::new(),
        };
        assert(index@.floats =~= Seq::empty());
        assert(index@.strings =~= Seq::empty());
        assert(index@.dates =~= Seq::empty());
        assert(index@.lp_dates =~= Seq::empty());
        index
    }

    /// Registers an integer.
    fn add_integer(&mut self, v: i64)
        ensures
            final(self)@ == (Resolved { integers: old(self)@.integers.push(v), ..old(self)@ }),
    {
        self.integers.push(v);
    }

    /// The integer registered at `i`.
    fn integer_at(&self, i: usize) -> (v: i64)
        requires
            i < self@.integers.len(),
        ensures
            v == self@.integers[i as int],
    {
        self.integers[i]
    }

    /// Registers a float.
    fn add_float(&mut self, f: Float)
        ensures
            final(self)@ == (Resolved { floats: old(self)@.floats.push(f@), ..old(self)@ }),
    {
        self.floats.push(f);
        assert(self@.floats =~= old(self)@.floats.push(f@));
    }

    /// The float registered at `i`.
    fn float_at(&self, i: usize) -> (f: Float)
        requires
            i < self@.floats.len(),
        ensures
            f@ == self@.floats[i as int],
    {
        copy_float(&self.floats[i])
    }

    /// Registers a string.
    fn add_string(&mut self, s: String)
        ensures
            final(self)@ == (Resolved { strings: old(self)@.strings.push(s@), ..old(self)@ }),
    {
        self.strings.push(s);
        assert(self@.strings =~= old(self)@.strings.push(s@));
    }

    /// The string registered at `i`.
    fn string_at(&self, i: usize) -> (s: String)
        requires
            i < self@.strings.len(),
        ensures
            s@ == self@.strings[i as int],
    {
        self.strings[i].clone()
    }

    /// Registers a date.
    fn add_date(&mut self, s: String)
        ensures
            final(self)@ == (Resolved { dates: old(self)@.dates.push(s@), ..old(self)@ }),
    {
        self.dates.push(s);
        assert(self@.dates =~= old(self)@.dates.push(s@));
    }

    /// The date registered at `i`.
    fn date_at(&self, i: usize) -> (s: String)
        requires
            i < self@.dates.len(),
        ensures
            s@ == self@.dates[i as int],
    {
        self.dates[i].clone()
    }

    /// Registers a low-precision date.
    fn add_lp_date(&mut self, s: String)
        ensures
            final(self)@ == (Resolved { lp_dates: old(self)@.lp_dates.push(s@), ..old(self)@ }),
    {
        self.lp_dates.push(s);
        assert(self@.lp_dates =~= old(self)@.lp_dates.push(s@));
    }

    /// The low-precision date registered at `i`.
    fn lp_date_at(&self, i: usize) -> (s: String)
        requires
            i < self@.lp_dates.len(),
        ensures
            s@ == self@.lp_dates[i as int],
    {
        self.lp_dates[i].clone()
    }
}

/// Reads one document: its characters, the position of the next one to
/// read, and what has been registered.
pub struct Deserializer {
    input: Vec<char>,
    pos: usize,
    index: OrderedIndex,
}

impl Deserializer {
    /// The document.
    pub closed spec fn input(&self) -> Seq<char> {
        self.input@
    }

    /// The position of the next character to read.
    pub closed spec fn position(&self) -> int {
        self.pos as int
    }

    /// What has been registered.
    pub closed spec fn resolved(&self) -> Resolved {
        self.index@
    }

    /// The position is within the document or at its end.
    pub closed spec fn wf(&self) -> bool {
        self.pos <= self.input@.len()
    }

    /// Whether this reader is `before` moved on to `next`, with `resolved`
    /// registered.
    pub open spec fn moved(&self, before: &Deserializer, next: int, resolved: Resolved) -> bool {
        &&& self.wf()
        &&& self.input() == before.input()
        &&& self.position() == next
        &&& self.resolved() == resolved
    }

    /// Whether `got` is the outcome `want`, and this reader is `before` after
    /// it: moved on, by at least one character, where it is a value.
    pub open spec fn decoded(
        &self,
        before: &Deserializer,
        got: Result<Value>,
        want: core::result::Result<Decoded, Error>,
    ) -> bool {
        match want {
            Ok(d) => got matches Ok(v) && v@ == d.value && self.moved(before, d.next, d.resolved)
                && before.position() < d.next,
            Err(e) => got matches Err(x) && x == e && self.wf(),
        }
    }

    /// The same for a string.
    pub open spec fn decoded_text(
        &self,
        before: &Deserializer,
        got: Result<String>,
        want: core::result::Result<Text, Error>,
    ) -> bool {
        match want {
            Ok(t) => got matches Ok(s) && s@ == t.text && self.moved(before, t.next, t.resolved)
                && before.position() < t.next,
            Err(e) => got matches Err(x) && x == e && self.wf(),
        }
    }

    /// A reader at the start of `input`, with nothing registered.
    pub fn from_str(input: &str) -> (de: Self)
        ensures
            de.wf(),
            de.input() == input@,
            de.position() == 0,
            de.resolved() == Resolved::empty(),
    {
        Deserializer { input: chars_of(input), pos: 0, index: OrderedIndex::new() }
    }

    /// Whether all of the document has been read.
    pub fn is_at_end(&self) -> (r: bool)
        requires
            self.wf(),
        ensures
            r == (self.position() == self.input().len()),
    {
        self.pos == self.input.len()
    }

    /// The next character, which stays to be read.
    pub fn peek_char(&self) -> (r: Result<char>)
        requires
            self.wf(),
        ensures
            r == if self.position() < self.input().len() {
                Ok::<char, Error>(self.input()[self.position()])
            } else {
                Err::<char, Error>(Error::Eof)
            },
    {
        if self.pos < self.input.len() {
            Ok(self.input[self.pos])
        } else {
            Err(Error::Eof)
        }
    }

    /// Reads the next character.
    pub fn next_char(&mut self) -> (r: Result<char>)
        requires
            old(self).wf(),
        ensures
            r == old(self).peek_char_spec(),
            final(self).wf(),
            r is Ok ==> final(self).moved(
                old(self),
                old(self).position() + 1,
                old(self).resolved(),
            ),
    {
        if self.pos < self.input.len() {
            let ch = self.input[self.pos];
            self.pos = self.pos + 1;
            Ok(ch)
        } else {
            Err(Error::Eof)
        }
    }

    /// What `peek_char` returns.
    pub open spec fn peek_char_spec(&self) -> Result<char> {
        if self.position() < self.input().len() {
            Ok(self.input()[self.position()])
        } else {
            Err(Error::Eof)
        }
    }

    /// Reads an integer's literal.
    pub fn parse_integer(&mut self) -> (r: Result<i64>)
        requires
            old(self).wf(),
        ensures
            match integer::parse_integer(old(self).input(), old(self).position()) {
                Ok((v, next)) => r == Ok::<i64, Error>(v) && final(self).moved(
                    old(self),
                    next,
                    old(self).resolved(),
                ) && old(self).position() < next,
                Err(e) => r == Err::<i64, Error>(e),
            },
            final(self).wf(),
    {
        match parse_integer_at(&self.input, self.pos) {
            Ok((v, next)) => {
                self.pos = next;
                Ok(v)
            },
            Err(e) => Err(e),
        }
    }

    /// Reads a float's literal.
    pub fn parse_float(&mut self) -> (r: Result<Float>)
        requires
            old(self).wf(),
        ensures
            match grammar::parse_float(old(self).input(), old(self).position()) {
                Ok((f, next)) => r matches Ok(v) && v@ == f && final(self).moved(
                    old(self),
                    next,
                    old(self).resolved(),
                ) && old(self).position() < next,
                Err(e) => r matches Err(x) && x == e,
            },
            final(self).wf(),
    {
        let negative = self.peek_char()? == '-';
        let integer = self.parse_integer()?;
        let delimiter_token = self.next_char()?;
        if delimiter_token == FLOAT_REDUCED_PRECISION_DELIMITER {
            let thousandths = self.parse_integer()?;
            Ok(Float { negative, integer, digits: String::new(), thousandths })
        } else if delimiter_token == FLOAT_FULL_PRECISION_DELIMITER {
            let start = self.pos;
            let n = self.input.len();
            while self.pos < n && '0' <= self.input[self.pos] && self.input[self.pos] <= '9'
                invariant
                    start <= self.pos <= n,
                    n == self.input@.len(),
                    self.input@ == old(self).input@,
                    self.index@ == old(self).index@,
                    decimal_run_end(self.input@, self.pos as int) == decimal_run_end(
                        self.input@,
                        start as int,
                    ),
                decreases n - self.pos,
            {
                self.pos = self.pos + 1;
            }
            let mut digits: Vec<char> = Vec::new();
            let mut i = start;
            while i < self.pos
                invariant
                    start <= i <= self.pos <= self.input@.len(),
                    digits@ == self.input@.subrange(start as int, i as int),
                decreases self.pos - i,
            {
                digits.push(self.input[i]);
                i += 1;
                assert(self.input@.subrange(start as int, i as int) =~= self.input@.subrange(
                    start as int,
                    i - 1,
                ).push(self.input@[i - 1]));
            }
            Ok(Float { negative, integer, digits: string_of(&digits), thousandths: 0 })
        } else {
            Err(Error::ExpectedFloat)
        }
    }

    /// Reads a string, delimiters included.
    pub fn parse_string(&mut self) -> (r: Result<String>)
        requires
            old(self).wf(),
        ensures
            match escape::parse_string(old(self).input(), old(self).position()) {
                Ok((s, next)) => r matches Ok(v) && v@ == s && final(self).moved(
                    old(self),
                    next,
                    old(self).resolved(),
                ) && old(self).position() < next,
                Err(e) => r matches Err(x) && x == e,
            },
            final(self).wf(),
    {
        match parse_string_at(&self.input, self.pos) {
            Ok((chars, next)) => {
                self.pos = next;
                Ok(string_of(&chars))
            },
            Err(e) => Err(e),
        }
    }

    /// Reads a date's literal.
    pub fn parse_date(&mut self) -> (r: Result<String>)
        requires
            old(self).wf(),
        ensures
            match grammar::parse_date(old(self).input(), old(self).position()) {
                Ok((s, next)) => r matches Ok(v) && v@ == s && final(self).moved(
                    old(self),
                    next,
                    old(self).resolved(),
                ) && old(self).position() < next,
                Err(e) => r matches Err(x) && x == e,
            },
            final(self).wf(),
    {
        let integer = self.parse_integer()?;
        match utc_rfc3339(integer) {
            Some(value) => Ok(value),
            None => Err(Error::ExpectedDate),
        }
    }

    /// Reads a low-precision date's literal.
    pub fn parse_lp_date(&mut self) -> (r: Result<String>)
        requires
            old(self).wf(),
        ensures
            match grammar::parse_lp_date(old(self).input(), old(self).position()) {
                Ok((s, next)) => r matches Ok(v) && v@ == s && final(self).moved(
                    old(self),
                    next,
                    old(self).resolved(),
                ) && old(self).position() < next,
                Err(e) => r matches Err(x) && x == e,
            },
            final(self).wf(),
    {
        let tenths = self.parse_integer()?;
        let integer = match tenths.checked_mul(DATE_LOW_PRECISION) {
            Some(integer) => integer,
            None => {
                return Err(Error::ExpectedLpDate);
            },
        };
        match utc_rfc3339(integer) {
            Some(value) => Ok(value),
            None => Err(Error::ExpectedLpDate),
        }
    }

    /// Reads a reference's index, which must be below `count`.
    fn parse_reference(&mut self, count: usize) -> (r: Result<usize>)
        requires
            old(self).wf(),
        ensures
            match grammar::parse_reference(old(self).input(), old(self).position(), count as nat) {
                Ok((index, next)) => r == Ok::<usize, Error>(index as usize) && index < count
                    && final(self).moved(old(self), next, old(self).resolved())
                    && old(self).position() < next,
                Err(e) => r == Err::<usize, Error>(e),
            },
            final(self).wf(),
    {
        let index = self.parse_integer()?;
        if index < 0 || index as u64 >= count as u64 {
            return Err(Error::DanglingReference);
        }
        Ok(index as usize)
    }

    /// Reads an integer, token included.
    pub fn deserialize_integer(&mut self) -> (r: Result<Value>)
        requires
            old(self).wf(),
        ensures
            final(self).decoded(
                old(self),
                r,
                grammar::decode_integer(
                    old(self).input(),
                    old(self).position(),
                    old(self).resolved(),
                ),
            ),
    {
        let token = self.next_char()?;
        let code = code_point(token);
        if code > INTEGER_SMALL_TOKEN_EXCLUSIVE_BOUND_LOWER && code
            < INTEGER_SMALL_TOKEN_EXCLUSIVE_BOUND_UPPER {
            Ok(Value::Number(Number::Int(code as i64 - INTEGER_SMALL_TOKEN_OFFSET)))
        } else if token == INTEGER_TOKEN {
            let value = self.parse_integer()?;
            self.index.add_integer(value);
            Ok(Value::Number(Number::Int(value)))
        } else if token == UNREFERENCED_INTEGER_TOKEN {
            let value = self.parse_integer()?;
            Ok(Value::Number(Number::Int(value)))
        } else if token == REF_INTEGER_TOKEN {
            let count = self.index.integers.len();
            let ref_index = self.parse_reference(count)?;
            Ok(Value::Number(Number::Int(self.index.integer_at(ref_index))))
        } else {
            Err(Error::ExpectedInteger)
        }
    }

    /// Reads a float, token included.
    pub fn deserialize_float(&mut self) -> (r: Result<Value>)
        requires
            old(self).wf(),
        ensures
            final(self).decoded(
                old(self),
                r,
                grammar::decode_float(
                    old(self).input(),
                    old(self).position(),
                    old(self).resolved(),
                ),
            ),
    {
        let token = self.next_char()?;
        if token == FLOAT_TOKEN {
            let value = self.parse_float()?;
            self.index.add_float(copy_float(&value));
            Ok(Value::Number(Number::Float(value)))
        } else if token == UNREFERENCED_FLOAT_TOKEN {
            let value = self.parse_float()?;
            Ok(Value::Number(Number::Float(value)))
        } else if token == REF_FLOAT_TOKEN {
            let count = self.index.floats.len();
            let ref_index = self.parse_reference(count)?;
            Ok(Value::Number(Number::Float(self.index.float_at(ref_index))))
        } else {
            Err(Error::ExpectedFloat)
        }
    }

    /// Reads a string, token included.
    pub fn deserialize_string(&mut self) -> (r: Result<String>)
        requires
            old(self).wf(),
        ensures
            final(self).decoded_text(
                old(self),
                r,
                grammar::decode_string(
                    old(self).input(),
                    old(self).position(),
                    old(self).resolved(),
                ),
            ),
    {
        let token = self.peek_char()?;
        if token == STRING_TOKEN {
            let value = self.parse_string()?;
            self.index.add_string(value.clone());
            Ok(value)
        } else if token == UNREFERENCED_STRING_TOKEN {
            self.parse_string()
        } else if token == REF_STRING_TOKEN {
            self.next_char()?;
            let count = self.index.strings.len();
            let ref_index = self.parse_reference(count)?;
            Ok(self.index.string_at(ref_index))
        } else {
            Err(Error::ExpectedString)
        }
    }

    /// Reads a date, token included.
    pub fn deserialize_date(&mut self) -> (r: Result<String>)
        requires
            old(self).wf(),
        ensures
            final(self).decoded_text(
                old(self),
                r,
                grammar::decode_date(old(self).input(), old(self).position(), old(self).resolved()),
            ),
    {
        let token = self.next_char()?;
        if token == DATE_TOKEN {
            let value = self.parse_date()?;
            self.index.add_date(value.clone());
            Ok(value)
        } else if token == UNREFERENCED_DATE_TOKEN {
            self.parse_date()
        } else if token == REF_DATE_TOKEN {
            let count = self.index.dates.len();
            let ref_index = self.parse_reference(count)?;
            Ok(self.index.date_at(ref_index))
        } else {
            Err(Error::ExpectedDate)
        }
    }

    /// Reads a low-precision date, token included.
    pub fn deserialize_lp_date(&mut self) -> (r: Result<String>)
        requires
            old(self).wf(),
        ensures
            final(self).decoded_text(
                old(self),
                r,
                grammar::decode_lp_date(
                    old(self).input(),
                    old(self).position(),
                    old(self).resolved(),
                ),
            ),
    {
        let token = self.next_char()?;
        if token == LP_DATE_TOKEN {
            let value = self.parse_lp_date()?;
            self.index.add_lp_date(value.clone());
            Ok(value)
        } else if token == UNREFERENCED_LP_DATE_TOKEN {
            self.parse_lp_date()
        } else if token == REF_LP_DATE_TOKEN {
            let count = self.index.lp_dates.len();
            let ref_index = self.parse_reference(count)?;
            Ok(self.index.lp_date_at(ref_index))
        } else {
            Err(Error::ExpectedLpDate)
        }
    }

    /// Reads a string or a date, token included.
    pub fn deserialize_str(&mut self) -> (r: Result<String>)
        requires
            old(self).wf(),
        ensures
            final(self).decoded_text(
                old(self),
                r,
                grammar::decode_text(old(self).input(), old(self).position(), old(self).resolved()),
            ),
    {
        let token = self.peek_char()?;
        if token == DATE_TOKEN || token == UNREFERENCED_DATE_TOKEN || token == REF_DATE_TOKEN {
            self.deserialize_date()
        } else if token == LP_DATE_TOKEN || token == UNREFERENCED_LP_DATE_TOKEN || token
            == REF_LP_DATE_TOKEN {
            self.deserialize_lp_date()
        } else {
            self.deserialize_string()
        }
    }

    /// Reads a boolean.
    pub fn deserialize_bool(&mut self) -> (r: Result<Value>)
        requires
            old(self).wf(),
        ensures
            final(self).decoded(
                old(self),
                r,
                match old(self).peek_char_spec() {
                    Err(e) => Err(e),
                    Ok(c) => if c == BOOLEAN_TRUE_TOKEN || c == BOOLEAN_FALSE_TOKEN {
                        Ok(
                            Decoded {
                                value: ValueView::Bool(c == BOOLEAN_TRUE_TOKEN),
                                next: old(self).position() + 1,
                                resolved: old(self).resolved(),
                            },
                        )
                    } else {
                        Err(Error::ExpectedBoolean)
                    },
                },
            ),
    {
        let ch = self.next_char()?;
        if ch == BOOLEAN_TRUE_TOKEN {
            Ok(Value::Bool(true))
        } else if ch == BOOLEAN_FALSE_TOKEN {
            Ok(Value::Bool(false))
        } else {
            Err(Error::ExpectedBoolean)
        }
    }

    /// Reads the token that the reader stands at as null.
    pub fn deserialize_unit(&mut self) -> (r: Result<Value>)
        requires
            old(self).wf(),
        ensures
            final(self).decoded(
                old(self),
                r,
                match old(self).peek_char_spec() {
                    Err(e) => Err(e),
                    Ok(_) => Ok(
                        Decoded {
                            value: ValueView::Null,
                            next: old(self).position() + 1,
                            resolved: old(self).resolved(),
                        },
                    ),
                },
            ),
    {
        self.next_char()?;
        Ok(Value::Null)
    }

    /// Reads a value that may be absent: nothing for null, and else the
    /// value.
    pub fn deserialize_option(&mut self) -> (r: Result<Option<Value>>)
        requires
            old(self).wf(),
        ensures
            final(self).wf(),
            match old(self).peek_char_spec() {
                Err(e) => r matches Err(x) && x == e,
                Ok(c) => if c == NULL_TOKEN {
                    r matches Ok(None) && final(self).moved(
                        old(self),
                        old(self).position() + 1,
                        old(self).resolved(),
                    )
                } else {
                    match grammar::decode_value(
                        old(self).input(),
                        old(self).position(),
                        old(self).resolved(),
                    ) {
                        Ok(d) => r matches Ok(Some(v)) && v@ == d.value && final(self).moved(
                            old(self),
                            d.next,
                            d.resolved,
                        ),
                        Err(e) => r matches Err(x) && x == e,
                    }
                },
            },
    {
        let token = self.peek_char()?;
        if token == NULL_TOKEN {
            self.next_char()?;
            Ok(None)
        } else {
            match self.deserialize_any() {
                Ok(value) => Ok(Some(value)),
                Err(e) => Err(e),
            }
        }
    }

    /// Reads a value of any kind.
    pub fn deserialize_any(&mut self) -> (r: Result<Value>)
        requires
            old(self).wf(),
        ensures
            final(self).decoded(
                old(self),
                r,
                grammar::decode_value(
                    old(self).input(),
                    old(self).position(),
                    old(self).resolved(),
                ),
            ),
        decreases old(self).input().len() - old(self).position(), 0nat, 1nat,
    {
        let token = self.peek_char()?;
        let code = code_point(token);
        if token == NULL_TOKEN {
            self.deserialize_unit()
        } else if token == BOOLEAN_TRUE_TOKEN || token == BOOLEAN_FALSE_TOKEN {
            self.deserialize_bool()
        } else if (code > INTEGER_SMALL_TOKEN_EXCLUSIVE_BOUND_LOWER && code
            < INTEGER_SMALL_TOKEN_EXCLUSIVE_BOUND_UPPER) || token == INTEGER_TOKEN || token
            == UNREFERENCED_INTEGER_TOKEN || token == REF_INTEGER_TOKEN {
            self.deserialize_integer()
        } else if token == FLOAT_TOKEN || token == UNREFERENCED_FLOAT_TOKEN || token
            == REF_FLOAT_TOKEN {
            self.deserialize_float()
        } else if token == STRING_TOKEN || token == UNREFERENCED_STRING_TOKEN || token
            == REF_STRING_TOKEN || token == DATE_TOKEN || token == UNREFERENCED_DATE_TOKEN || token
            == REF_DATE_TOKEN || token == LP_DATE_TOKEN || token == UNREFERENCED_LP_DATE_TOKEN
            || token == REF_LP_DATE_TOKEN {
            match self.deserialize_str() {
                Ok(text) => Ok(Value::String(text)),
                Err(e) => Err(e),
            }
        } else if token == ARRAY_START_TOKEN {
            self.deserialize_seq()
        } else if token == OBJECT_START_TOKEN {
            self.deserialize_map()
        } else {
            Err(Error::Syntax)
        }
    }

    /// Reads an array, whose start token the reader stands at.
    pub fn deserialize_seq(&mut self) -> (r: Result<Value>)
        requires
            old(self).wf(),
        ensures
            final(self).decoded(
                old(self),
                r,
                if old(self).position() >= old(self).input().len() {
                    Err(Error::Eof)
                } else {
                    grammar::decode_elements(
                        old(self).input(),
                        old(self).position() + 1,
                        old(self).resolved(),
                        None,
                        0,
                        Seq::empty(),
                    )
                },
            ),
        decreases old(self).input().len() - old(self).position(), 0nat, 0nat,
    {
        let _ = self.next_char()?;
        let mut access = SeqAccess::new();
        let mut items: Vec<Value> = Vec::new();
        let ghost start = self.position();
        assert(views(items@) =~= Seq::empty());
        loop
            invariant
                self.wf(),
                self.input() == old(self).input(),
                old(self).position() < old(self).input().len(),
                start == old(self).position() + 1,
                start <= self.position(),
                grammar::decode_elements(
                    self.input(),
                    self.position(),
                    self.resolved(),
                    access.last(),
                    access.due(),
                    views(items@),
                ) == grammar::decode_elements(
                    self.input(),
                    start,
                    old(self).resolved(),
                    None,
                    0,
                    Seq::empty(),
                ),
            decreases self.input().len() - self.position(), access.due(),
        {
            match access.next_element(self) {
                Err(e) => {
                    return Err(e);
                },
                Ok(None) => {
                    let r = Value::Array(items);
                    proof {
                        lemma_view_array(r);
                    }
                    return Ok(r);
                },
                Ok(Some(value)) => {
                    assert(views(items@.push(value)) =~= views(items@).push(value@));
                    items.push(value);
                },
            }
        }
    }

    /// Reads an object, whose start token the reader stands at.
    pub fn deserialize_map(&mut self) -> (r: Result<Value>)
        requires
            old(self).wf(),
        ensures
            final(self).decoded(
                old(self),
                r,
                if old(self).position() >= old(self).input().len() {
                    Err(Error::Eof)
                } else {
                    grammar::decode_entries(
                        old(self).input(),
                        old(self).position() + 1,
                        old(self).resolved(),
                        Seq::empty(),
                    )
                },
            ),
        decreases old(self).input().len() - old(self).position(), 0nat, 0nat,
    {
        let _ = self.next_char()?;
        let mut access = MapAccess::new();
        let mut entries: Vec<(String, Value)> = Vec::new();
        let ghost start = self.position();
        assert(entry_views(entries@) =~= Seq::empty());
        loop
            invariant
                self.wf(),
                self.input() == old(self).input(),
                old(self).position() < old(self).input().len(),
                start == old(self).position() + 1,
                start <= self.position(),
                grammar::decode_entries(
                    self.input(),
                    self.position(),
                    self.resolved(),
                    entry_views(entries@),
                ) == grammar::decode_entries(
                    self.input(),
                    start,
                    old(self).resolved(),
                    Seq::empty(),
                ),
            decreases self.input().len() - self.position(),
        {
            let key = match access.next_key(self) {
                Err(e) => {
                    return Err(e);
                },
                Ok(None) => {
                    let r = Value::Object(entries);
                    proof {
                        lemma_view_object(r);
                    }
                    return Ok(r);
                },
                Ok(Some(key)) => key,
            };
            let value = access.next_value(self)?;
            insert_entry(&mut entries, key, value);
        }
    }
}

/// Reads the elements of one array: the element read or repeated last, and
/// the number of its repeats that are still due.
pub struct SeqAccess {
    last_value: Option<Value>,
    repeat: u64,
}

impl SeqAccess {
    /// The element that a repeat token stands for, if there is one.
    pub closed spec fn last(&self) -> Option<ValueView> {
        match self.last_value {
            Some(value) => Some(value@),
            None => None,
        }
    }

    /// The number of repeats that are due.
    pub closed spec fn due(&self) -> nat {
        self.repeat as nat
    }

    /// At the start of an array.
    pub fn new() -> (access: Self)
        ensures
            access.last() == None::<ValueView>,
            access.due() == 0,
    {
        SeqAccess { last_value: None, repeat: 0 }
    }

    /// The last element once more. One repeat fewer is due afterwards, if
    /// any was.
    pub fn get_last(&mut self, de: &Deserializer) -> (r: Result<Value>)
        requires
            de.wf(),
        ensures
            match de.peek_char_spec() {
                Err(e) => r matches Err(x) && x == e,
                Ok(_) => match old(self).last() {
                    None => r matches Err(x) && x == Error::UnexpectedRepeatToken,
                    Some(value) => r matches Ok(v) && v@ == value && final(self).last() == Some(
                        value,
                    ) && final(self).due() == if old(self).due() > 0 {
                        (old(self).due() - 1) as nat
                    } else {
                        0
                    },
                },
            },
    {
        let _ = de.peek_char()?;
        let res = match &self.last_value {
            Some(value) => value.clone(),
            None => {
                return Err(Error::UnexpectedRepeatToken);
            },
        };
        if self.repeat > 0 {
            self.repeat -= 1;
        }
        Ok(res)
    }

    /// Reads or repeats the array's next element; `None` at its end.
    pub fn next_element(&mut self, de: &mut Deserializer) -> (r: Result<Option<Value>>)
        requires
            old(de).wf(),
        ensures
            match grammar::next_element(
                old(de).input(),
                old(de).position(),
                old(de).resolved(),
                old(self).last(),
                old(self).due(),
            ) {
                Err(e) => r matches Err(x) && x == e && final(de).wf(),
                Ok(Step::End { next }) => r matches Ok(None) && final(de).moved(
                    old(de),
                    next,
                    old(de).resolved(),
                ) && old(de).position() < next,
                Ok(Step::Element { value, next, resolved, repeat }) => r matches Ok(Some(v)) && v@
                    == value && final(de).moved(old(de), next, resolved) && final(self).last()
                    == Some(value) && final(self).due() == repeat && advanced(
                    old(de).input().len(),
                    old(de).position(),
                    old(self).due(),
                    next,
                    repeat,
                ),
            },
        decreases old(de).input().len() - old(de).position(), old(self).due(), 2nat,
    {
        if self.repeat > 0 {
            let last_value = self.get_last(de)?;
            return Ok(Some(last_value));
        }
        let token = de.peek_char()?;
        if token == ARRAY_END_TOKEN {
            de.next_char()?;
            Ok(None)
        } else if token == ARRAY_REPEAT_TOKEN {
            de.next_char()?;
            let last_value = self.get_last(de)?;
            Ok(Some(last_value))
        } else if token == ARRAY_REPEAT_MANY_TOKEN {
            de.next_char()?;
            let count = de.parse_integer()?;
            if count <= 0 {
                self.repeat = 0;
                return self.next_element(de);
            }
            self.repeat = count as u64;
            let last_value = self.get_last(de)?;
            Ok(Some(last_value))
        } else {
            let v = de.deserialize_any()?;
            self.last_value = Some(v.clone());
            Ok(Some(v))
        }
    }
}

/// Reads the entries of one object.
pub struct MapAccess {}

impl MapAccess {
    /// At the start of an object.
    pub fn new() -> Self {
        MapAccess {  }
    }

    /// Reads the key of the object's next entry; `None` at its end.
    pub fn next_key(&mut self, de: &mut Deserializer) -> (r: Result<Option<String>>)
        requires
            old(de).wf(),
        ensures
            final(de).wf(),
            match old(de).peek_char_spec() {
                Err(e) => r matches Err(x) && x == e,
                Ok(c) => if c == OBJECT_END_TOKEN {
                    r matches Ok(None) && final(de).moved(
                        old(de),
                        old(de).position() + 1,
                        old(de).resolved(),
                    )
                } else {
                    match grammar::decode_text(
                        old(de).input(),
                        old(de).position(),
                        old(de).resolved(),
                    ) {
                        Err(e) => r matches Err(x) && x == e,
                        Ok(t) => r matches Ok(Some(key)) && key@ == t.text && final(de).moved(
                            old(de),
                            t.next,
                            t.resolved,
                        ) && old(de).position() < t.next,
                    }
                },
            },
    {
        let token = de.peek_char()?;
        if token == OBJECT_END_TOKEN {
            de.next_char()?;
            Ok(None)
        } else {
            match de.deserialize_str() {
                Ok(key) => Ok(Some(key)),
                Err(e) => Err(e),
            }
        }
    }

    /// Reads the value of the entry whose key was read.
    pub fn next_value(&mut self, de: &mut Deserializer) -> (r: Result<Value>)
        requires
            old(de).wf(),
        ensures
            final(de).decoded(
                old(de),
                r,
                grammar::decode_value(old(de).input(), old(de).position(), old(de).resolved()),
            ),
        decreases old(de).input().len() - old(de).position(), 0nat, 2nat,
    {
        de.deserialize_any()
    }
}

/// Stores `value` for `key`: in place of the value of the first entry that
/// has the key, or as a new last entry.
pub fn insert_entry(entries: &mut Vec<(String, Value)>, key: String, value: Value)
    ensures
        entry_views(final(entries)@) == grammar::upsert(entry_views(old(entries)@), key@, value@),
{
    let ghost before = entry_views(entries@);
    let mut i: usize = 0;
    while i < entries.len()
        invariant
            i <= entries.len(),
            entries@ == old(entries)@,
            before == entry_views(entries@),
            forall|j: int| 0 <= j < i ==> before[j].0 != key@,
        decreases entries.len() - i,
    {
        if entries[i].0 == key {
            assert(before[i as int].0 == key@);
            assert(grammar::first_with(before, key@) == i);
            entries.set(i, (key, value));
            assert(entry_views(entries@) =~= before.update(i as int, (key@, value@)));
            return ;
        }
        i += 1;
    }
    entries.push((key, value));
    assert(entry_views(entries@) =~= before.push((key@, value@)));
}

/// The value that the document `s` stands for.
pub fn from_str(s: &str) -> (r: Result<Value>)
    ensures
        match grammar::decode(s@) {
            Ok(value) => r matches Ok(v) && v@ == value,
            Err(e) => r matches Err(x) && x == e,
        },
{
    let mut deserializer = Deserializer::from_str(s);
    let t = deserializer.deserialize_any()?;
    if deserializer.is_at_end() {
        Ok(t)
    } else {
        Err(Error::TrailingCharacters)
    }
}

} // verus!

//! Writing a document.
use vstd::prelude::*;
use crate::constants::{
    ARRAY_END_TOKEN, ARRAY_REPEAT_COUNT_THRESHOLD, ARRAY_REPEAT_MANY_TOKEN, ARRAY_REPEAT_TOKEN,
    ARRAY_START_TOKEN, BOOLEAN_FALSE_TOKEN, BOOLEAN_TRUE_TOKEN, DATE_LOW_PRECISION, DATE_TOKEN,
    FLOAT_FULL_PRECISION_DELIMITER, FLOAT_REDUCED_PRECISION_DELIMITER, FLOAT_TOKEN,
    INTEGER_SMALL_EXCLUSIVE_BOUND_LOWER, INTEGER_SMALL_EXCLUSIVE_BOUND_UPPER,
    INTEGER_SMALL_TOKEN_OFFSET, INTEGER_TOKEN, LP_DATE_TOKEN, NULL_TOKEN, OBJECT_END_TOKEN,
    OBJECT_START_TOKEN, REF_DATE_TOKEN, REF_FLOAT_TOKEN, REF_INTEGER_TOKEN, REF_LP_DATE_TOKEN,
    REF_STRING_TOKEN, STRING_TOKEN, UNREFERENCED_DATE_TOKEN, UNREFERENCED_FLOAT_TOKEN,
    UNREFERENCED_INTEGER_TOKEN, UNREFERENCED_LP_DATE_TOKEN, UNREFERENCED_STRING_TOKEN,
};
use crate::date::{date_shaped, parse_rfc3339_millis, rfc3339_millis};
use crate::dict::{Interned, InvertedIndex, position};
use crate::error::Result;
use crate::escape::escape_chars;
use crate::integer::{integer_chars, integer_literal, natural_chars};
use crate::text::{append, chars_of, same_text, string_of};
use crate::value::{
    entry_views, Float, lemma_view_array, lemma_view_object, Number, Value, ValueView, views,
};
use crate::wire::{
    array_body, encode, encode_date, encode_entries, encode_float, encode_integer, encode_items,
    encode_plain_string, encode_string, encode_value, float_literal, flush, Options, Run,
    run_length, small_integer_token, step,
};

verus! {

/// Writes one document: the text so far, what has been registered, and
/// the two choices the document is written with.
pub struct Serializer {
    output: Vec<char>,
    index: InvertedIndex,
    full_precision_floats: bool,
    detect_utc_timestamps: bool,
}

impl Serializer {
    /// The text written so far.
    pub closed spec fn output(&self) -> Seq<char> {
        self.output@
    }

    /// What has been registered so far.
    pub closed spec fn interned(&self) -> Interned {
        self.index@
    }

    /// The choices that the document is written with.
    pub closed spec fn options(&self) -> Options {
        Options {
            full_precision_floats: self.full_precision_floats,
            detect_utc_timestamps: self.detect_utc_timestamps,
        }
    }

    /// The dictionaries are in order.
    pub closed spec fn wf(&self) -> bool {
        self.index.wf()
    }

    /// Whether this writer is `before` after writing `step.0`, with
    /// `step.1` registered.
    pub open spec fn wrote(&self, before: &Serializer, step: (Seq<char>, Interned)) -> bool {
        &&& self.wf()
        &&& self.options() == before.options()
        &&& self.output() == before.output() + step.0
        &&& self.interned() == step.1
    }

    /// A writer with nothing written and nothing registered.
    pub fn new(full_precision_floats: bool, detect_utc_timestamps: bool) -> (serializer: Self)
        ensures
            serializer.wf(),
            serializer.output() == Seq::<char>::empty(),
            serializer.options() == (Options { full_precision_floats, detect_utc_timestamps }),
            serializer.interned() == Interned::empty(),
    {
        Serializer {
            output: Vec::new(),
            index: InvertedIndex::new(),
            full_precision_floats,
            detect_utc_timestamps,
        }
    }

    /// Ends the writing: the document written.
    pub fn into_string(self) -> (text: String)
        ensures
            text@ == self.output(),
    {
        string_of(&self.output)
    }

    /// The text of an integer.
    pub fn serialize_integer(v: i64) -> (r: Result<String>)
        ensures
            r matches Ok(text) && text@ == integer_literal(v as int),
    {
        Ok(string_of(&integer_chars(v)))
    }

    /// How many integers are registered.
    fn get_integers_len(&self) -> (n: usize)
        ensures
            n == self.interned().integers.len(),
    {
        self.index.integers_len()
    }

    /// Writes a reference to the integer `key`, if it is registered.
    fn try_index_integer(&mut self, key: &i64) -> (found: bool)
        requires
            old(self).wf(),
        ensures
            found == old(self).interned().integers.contains(*key),
            final(self).wrote(
                old(self),
                (
                    if found {
                        seq![REF_INTEGER_TOKEN] + integer_literal(
                            position(old(self).interned().integers, *key),
                        )
                    } else {
                        Seq::empty()
                    },
                    old(self).interned(),
                ),
            ),
    {
        let found_ref = self.index.get_integer(*key);
        if let Some(found) = found_ref {
            let text = chars_of(found.as_str());
            self.output.push(REF_INTEGER_TOKEN);
            append(&mut self.output, &text);
            assert(self.output@ =~= old(self).output@ + (seq![REF_INTEGER_TOKEN] + text@));
            true
        } else {
            assert(self.output@ =~= old(self).output@ + Seq::<char>::empty());
            false
        }
    }

    /// Registers the integer `key`, which is new, under the next index, whose
    /// text is `value`.
    fn add_integer(&mut self, key: i64, value: String)
        requires
            old(self).wf(),
            !old(self).interned().integers.contains(key),
            value@ == integer_literal(old(self).interned().integers.len() as int),
        ensures
            final(self).wrote(
                old(self),
                (
                    Seq::empty(),
                    Interned {
                        integers: old(self).interned().integers.push(key),
                        ..old(self).interned()
                    },
                ),
            ),
    {
        self.index.add_integer(key, value);
        assert(self.output@ =~= old(self).output@ + Seq::<char>::empty());
    }

    /// How many floats are registered.
    fn get_floats_len(&self) -> (n: usize)
        ensures
            n == self.interned().floats.len(),
    {
        self.index.floats_len()
    }

    /// Writes a reference to the float literal `key`, if it is registered.
    fn try_index_float(&mut self, key: &str) -> (found: bool)
        requires
            old(self).wf(),
        ensures
            found == old(self).interned().floats.contains(key@),
            final(self).wrote(
                old(self),
                (
                    if found {
                        seq![REF_FLOAT_TOKEN] + integer_literal(
                            position(old(self).interned().floats, key@),
                        )
                    } else {
                        Seq::empty()
                    },
                    old(self).interned(),
                ),
            ),
    {
        let found_ref = self.index.get_float(key);
        if let Some(found) = found_ref {
            let text = chars_of(found.as_str());
            self.output.push(REF_FLOAT_TOKEN);
            append(&mut self.output, &text);
            assert(self.output@ =~= old(self).output@ + (seq![REF_FLOAT_TOKEN] + text@));
            true
        } else {
            assert(self.output@ =~= old(self).output@ + Seq::<char>::empty());
            false
        }
    }

    /// Registers the float literal `key`, which is new, under the next index, whose
    /// text is `value`.
    fn add_float(&mut self, key: String, value: String)
        requires
            old(self).wf(),
            !old(self).interned().floats.contains(key@),
            value@ == integer_literal(old(self).interned().floats.len() as int),
        ensures
            final(self).wrote(
                old(self),
                (
                    Seq::empty(),
                    Interned {
                        floats: old(self).interned().floats.push(key@),
                        ..old(self).interned()
                    },
                ),
            ),
    {
        self.index.add_float(key, value);
        assert(self.output@ =~= old(self).output@ + Seq::<char>::empty());
    }

    /// How many strings are registered.
    fn get_strings_len(&self) -> (n: usize)
        ensures
            n == self.interned().strings.len(),
    {
        self.index.strings_len()
    }

    /// Writes a reference to the string `key`, if it is registered.
    fn try_index_string(&mut self, key: &str) -> (found: bool)
        requires
            old(self).wf(),
        ensures
            found == old(self).interned().strings.contains(key@),
            final(self).wrote(
                old(self),
                (
                    if found {
                        seq![REF_STRING_TOKEN] + integer_literal(
                            position(old(self).interned().strings, key@),
                        )
                    } else {
                        Seq::empty()
                    },
                    old(self).interned(),
                ),
            ),
    {
        let found_ref = self.index.get_string(key);
        if let Some(found) = found_ref {
            let text = chars_of(found.as_str());
            self.output.push(REF_STRING_TOKEN);
            append(&mut self.output, &text);
            assert(self.output@ =~= old(self).output@ + (seq![REF_STRING_TOKEN] + text@));
            true
        } else {
            assert(self.output@ =~= old(self).output@ + Seq::<char>::empty());
            false
        }
    }

    /// Registers the string `key`, which is new, under the next index, whose
    /// text is `value`.
    fn add_string(&mut self, key: String, value: String)
        requires
            old(self).wf(),
            !old(self).interned().strings.contains(key@),
            value@ == integer_literal(old(self).interned().strings.len() as int),
        ensures
            final(self).wrote(
                old(self),
                (
                    Seq::empty(),
                    Interned {
                        strings: old(self).interned().strings.push(key@),
                        ..old(self).interned()
                    },
                ),
            ),
    {
        self.index.add_string(key, value);
        assert(self.output@ =~= old(self).output@ + Seq::<char>::empty());
    }

    /// How many dates are registered.
    fn get_dates_len(&self) -> (n: usize)
        ensures
            n == self.interned().dates.len(),
    {
        self.index.dates_len()
    }

    /// Writes a reference to the date `key`, if it is registered.
    fn try_index_date(&mut self, key: &str) -> (found: bool)
        requires
            old(self).wf(),
        ensures
            found == old(self).interned().dates.contains(key@),
            final(self).wrote(
                old(self),
                (
                    if found {
                        seq![REF_DATE_TOKEN] + integer_literal(
                            position(old(self).interned().dates, key@),
                        )
                    } else {
                        Seq::empty()
                    },
                    old(self).interned(),
                ),
            ),
    {
        let found_ref = self.index.get_date(key);
        if let Some(found) = found_ref {
            let text = chars_of(found.as_str());
            self.output.push(REF_DATE_TOKEN);
            append(&mut self.output, &text);
            assert(self.output@ =~= old(self).output@ + (seq![REF_DATE_TOKEN] + text@));
            true
        } else {
            assert(self.output@ =~= old(self).output@ + Seq::<char>::empty());
            false
        }
    }

    /// Registers the date `key`, which is new, under the next index, whose
    /// text is `value`.
    fn add_date(&mut self, key: String, value: String)
        requires
            old(self).wf(),
            !old(self).interned().dates.contains(key@),
            value@ == integer_literal(old(self).interned().dates.len() as int),
        ensures
            final(self).wrote(
                old(self),
                (
                    Seq::empty(),
                    Interned {
                        dates: old(self).interned().dates.push(key@),
                        ..old(self).interned()
                    },
                ),
            ),
    {
        self.index.add_date(key, value);
        assert(self.output@ =~= old(self).output@ + Seq::<char>::empty());
    }

    /// How many low-precision dates are registered.
    fn get_lp_dates_len(&self) -> (n: usize)
        ensures
            n == self.interned().lp_dates.len(),
    {
        self.index.lp_dates_len()
    }

    /// Writes a reference to the low-precision date `key`, if it is registered.
    fn try_index_lp_date(&mut self, key: &str) -> (found: bool)
        requires
            old(self).wf(),
        ensures
            found == old(self).interned().lp_dates.contains(key@),
            final(self).wrote(
                old(self),
                (
                    if found {
                        seq![REF_LP_DATE_TOKEN] + integer_literal(
                            position(old(self).interned().lp_dates, key@),
                        )
                    } else {
                        Seq::empty()
                    },
                    old(self).interned(),
                ),
            ),
    {
        let found_ref = self.index.get_lp_date(key);
        if let Some(found) = found_ref {
            let text = chars_of(found.as_str());
            self.output.push(REF_LP_DATE_TOKEN);
            append(&mut self.output, &text);
            assert(self.output@ =~= old(self).output@ + (seq![REF_LP_DATE_TOKEN] + text@));
            true
        } else {
            assert(self.output@ =~= old(self).output@ + Seq::<char>::empty());
            false
        }
    }

    /// Registers the low-precision date `key`, which is new, under the next index, whose
    /// text is `value`.
    fn add_lp_date(&mut self, key: String, value: String)
        requires
            old(self).wf(),
            !old(self).interned().lp_dates.contains(key@),
            value@ == integer_literal(old(self).interned().lp_dates.len() as int),
        ensures
            final(self).wrote(
                old(self),
                (
                    Seq::empty(),
                    Interned {
                        lp_dates: old(self).interned().lp_dates.push(key@),
                        ..old(self).interned()
                    },
                ),
            ),
    {
        self.index.add_lp_date(key, value);
        assert(self.output@ =~= old(self).output@ + Seq::<char>::empty());
    }

    /// Writes an integer.
    pub fn serialize_i64(&mut self, v: i64) -> (r: Result<()>)
        requires
            old(self).wf(),
        ensures
            r is Ok,
            final(self).wrote(old(self), encode_integer(v, old(self).interned())),
    {
        if v > INTEGER_SMALL_EXCLUSIVE_BOUND_LOWER && v < INTEGER_SMALL_EXCLUSIVE_BOUND_UPPER {
            self.output.push(((v + INTEGER_SMALL_TOKEN_OFFSET) as u8) as char);
            assert(self.output@ =~= old(self).output@ + seq![small_integer_token(v)]);
            return Ok(());
        }
        if self.try_index_integer(&v) {
            return Ok(());
        }
        let ghost before = self.output@;
        assert(before =~= old(self).output@);
        let res = integer_chars(v);
        let index = natural_chars(self.get_integers_len() as u64);
        if index.len() < res.len() {
            self.add_integer(v, string_of(&index));
            self.output.push(INTEGER_TOKEN);
            append(&mut self.output, &res);
            assert(self.output@ =~= old(self).output@ + (seq![INTEGER_TOKEN] + res@));
        } else {
            self.output.push(UNREFERENCED_INTEGER_TOKEN);
            append(&mut self.output, &res);
            assert(self.output@ =~= old(self).output@ + (seq![UNREFERENCED_INTEGER_TOKEN]
                + res@));
        }
        Ok(())
    }

    /// The literal of a float.
    pub fn serialize_float(&self, v: &Float) -> (r: Result<String>)
        ensures
            r matches Ok(text) && text@ == float_literal(v@, self.options().full_precision_floats),
    {
        Ok(string_of(&self.float_chars(v)))
    }

    /// The characters of a float's literal.
    fn float_chars(&self, v: &Float) -> (out: Vec<char>)
        ensures
            out@ == float_literal(v@, self.options().full_precision_floats),
    {
        let mut out: Vec<char> = Vec::new();
        if self.full_precision_floats {
            let has_digits = !v.digits.as_str().is_empty();
            if v.negative && v.integer == 0 && has_digits {
                out.push('-');
            }
            let ghost sign = out@;
            let integer = integer_chars(v.integer);
            append(&mut out, &integer);
            out.push(FLOAT_FULL_PRECISION_DELIMITER);
            if has_digits {
                let digits = chars_of(v.digits.as_str());
                append(&mut out, &digits);
                assert(out@ =~= sign + integer@ + seq![FLOAT_FULL_PRECISION_DELIMITER] + digits@);
            } else {
                out.push('0');
                assert(out@ =~= sign + integer@ + seq![FLOAT_FULL_PRECISION_DELIMITER] + seq!['0']);
            }
        } else {
            let integer = integer_chars(v.integer);
            let fraction = integer_chars(v.thousandths);
            append(&mut out, &integer);
            out.push(FLOAT_REDUCED_PRECISION_DELIMITER);
            append(&mut out, &fraction);
            assert(out@ =~= integer@ + seq![FLOAT_REDUCED_PRECISION_DELIMITER] + fraction@);
        }
        out
    }

    /// Writes a float.
    pub fn serialize_f64(&mut self, v: &Float) -> (r: Result<()>)
        requires
            old(self).wf(),
        ensures
            r is Ok,
            final(self).wrote(
                old(self),
                encode_float(v@, old(self).interned(), old(self).options().full_precision_floats),
            ),
    {
        let res = self.float_chars(v);
        let key = string_of(&res);
        if self.try_index_float(key.as_str()) {
            return Ok(());
        }
        assert(self.output@ =~= old(self).output@);
        let index = natural_chars(self.get_floats_len() as u64);
        if index.len() < res.len() {
            self.add_float(key, string_of(&index));
            self.output.push(FLOAT_TOKEN);
            append(&mut self.output, &res);
            assert(self.output@ =~= old(self).output@ + (seq![FLOAT_TOKEN] + res@));
        } else {
            self.output.push(UNREFERENCED_FLOAT_TOKEN);
            append(&mut self.output, &res);
            assert(self.output@ =~= old(self).output@ + (seq![UNREFERENCED_FLOAT_TOKEN] + res@));
        }
        Ok(())
    }

    /// Writes a string that is not taken as a date.
    pub fn serialize_string(&mut self, v: &str) -> (r: Result<()>)
        requires
            old(self).wf(),
        ensures
            r is Ok,
            final(self).wrote(old(self), encode_plain_string(v@, old(self).interned())),
    {
        if self.try_index_string(v) {
            return Ok(());
        }
        assert(self.output@ =~= old(self).output@);
        let chars = chars_of(v);
        let escaped_token = escape_chars(&chars, STRING_TOKEN);
        let index = natural_chars(self.get_strings_len() as u64);
        if index.len() < escaped_token.len() {
            self.add_string(string_of(&chars), string_of(&index));
            self.output.push(STRING_TOKEN);
            append(&mut self.output, &escaped_token);
            self.output.push(STRING_TOKEN);
            assert(self.output@ =~= old(self).output@ + (seq![STRING_TOKEN] + escaped_token@
                + seq![STRING_TOKEN]));
        } else {
            let escaped = escape_chars(&chars, UNREFERENCED_STRING_TOKEN);
            self.output.push(UNREFERENCED_STRING_TOKEN);
            append(&mut self.output, &escaped);
            self.output.push(UNREFERENCED_STRING_TOKEN);
            assert(self.output@ =~= old(self).output@ + (seq![UNREFERENCED_STRING_TOKEN]
                + escaped@ + seq![UNREFERENCED_STRING_TOKEN]));
        }
        Ok(())
    }

    /// Writes a string that has the shape of a timestamp: as a date if it
    /// is a valid one, and as a plain string otherwise.
    pub fn serialize_date(&mut self, v: &str) -> (r: Result<()>)
        requires
            old(self).wf(),
        ensures
            r is Ok,
            final(self).wrote(
                old(self),
                match rfc3339_millis(v@) {
                    Some(millis) => encode_date(v@, millis, old(self).interned()),
                    None => encode_plain_string(v@, old(self).interned()),
                },
            ),
    {
        match parse_rfc3339_millis(v) {
            Some(millis) => {
                match low_precision(millis) {
                    Some(tenths) => {
                        if self.try_index_lp_date(v) {
                            return Ok(());
                        }
                        assert(self.output@ =~= old(self).output@);
                        let res = integer_chars(tenths);
                        let index = natural_chars(self.get_lp_dates_len() as u64);
                        if index.len() < res.len() {
                            self.add_lp_date(string_of(&chars_of(v)), string_of(&index));
                            self.output.push(LP_DATE_TOKEN);
                            append(&mut self.output, &res);
                            assert(self.output@ =~= old(self).output@ + (seq![LP_DATE_TOKEN]
                                + res@));
                        } else {
                            self.output.push(UNREFERENCED_LP_DATE_TOKEN);
                            append(&mut self.output, &res);
                            assert(self.output@ =~= old(self).output@ + (
                            seq![UNREFERENCED_LP_DATE_TOKEN] + res@));
                        }
                    },
                    None => {
                        if self.try_index_date(v) {
                            return Ok(());
                        }
                        assert(self.output@ =~= old(self).output@);
                        let res = integer_chars(millis);
                        let index = natural_chars(self.get_dates_len() as u64);
                        if index.len() < res.len() {
                            self.add_date(string_of(&chars_of(v)), string_of(&index));
                            self.output.push(DATE_TOKEN);
                            append(&mut self.output, &res);
                            assert(self.output@ =~= old(self).output@ + (seq![DATE_TOKEN] + res@));
                        } else {
                            self.output.push(UNREFERENCED_DATE_TOKEN);
                            append(&mut self.output, &res);
                            assert(self.output@ =~= old(self).output@ + (
                            seq![UNREFERENCED_DATE_TOKEN] + res@));
                        }
                    },
                }
                Ok(())
            },
            None => self.serialize_string(v),
        }
    }

    /// Writes a string.
    pub fn serialize_str(&mut self, v: &str) -> (r: Result<()>)
        requires
            old(self).wf(),
        ensures
            r is Ok,
            final(self).wrote(
                old(self),
                encode_string(v@, old(self).interned(), old(self).options().detect_utc_timestamps),
            ),
    {
        if self.detect_utc_timestamps && date_shaped(&chars_of(v)) {
            return self.serialize_date(v);
        }
        self.serialize_string(v)
    }

    /// Writes a boolean.
    pub fn serialize_bool(&mut self, v: bool) -> (r: Result<()>)
        requires
            old(self).wf(),
        ensures
            r is Ok,
            final(self).wrote(
                old(self),
                (
                    seq![if v {
                        BOOLEAN_TRUE_TOKEN
                    } else {
                        BOOLEAN_FALSE_TOKEN
                    }],
                    old(self).interned(),
                ),
            ),
    {
        self.output.push(
            if v {
                BOOLEAN_TRUE_TOKEN
            } else {
                BOOLEAN_FALSE_TOKEN
            },
        );
        assert(self.output@ =~= old(self).output@ + seq![if v {
            BOOLEAN_TRUE_TOKEN
        } else {
            BOOLEAN_FALSE_TOKEN
        }]);
        Ok(())
    }

    /// Writes the one token that stands for null and for undefined.
    pub fn serialize_unit(&mut self) -> (r: Result<()>)
        requires
            old(self).wf(),
        ensures
            r is Ok,
            final(self).wrote(old(self), (seq![NULL_TOKEN], old(self).interned())),
    {
        self.output.push(NULL_TOKEN);
        assert(self.output@ =~= old(self).output@ + seq![NULL_TOKEN]);
        Ok(())
    }

    /// Opens an array.
    pub fn serialize_seq(&mut self) -> (r: Result<SerializeSeq>)
        requires
            old(self).wf(),
        ensures
            r matches Ok(seq) && seq@ == (Run { last: None, count: 0 }),
            final(self).wrote(old(self), (seq![ARRAY_START_TOKEN], old(self).interned())),
    {
        self.output.push(ARRAY_START_TOKEN);
        assert(self.output@ =~= old(self).output@ + seq![ARRAY_START_TOKEN]);
        Ok(SerializeSeq { last_value: None, repeat_count: 0 })
    }

    /// Opens an object.
    pub fn serialize_map(&mut self) -> (r: Result<SerializeSeq>)
        requires
            old(self).wf(),
        ensures
            r matches Ok(seq) && seq@ == (Run { last: None, count: 0 }),
            final(self).wrote(old(self), (seq![OBJECT_START_TOKEN], old(self).interned())),
    {
        self.output.push(OBJECT_START_TOKEN);
        assert(self.output@ =~= old(self).output@ + seq![OBJECT_START_TOKEN]);
        Ok(SerializeSeq { last_value: None, repeat_count: 0 })
    }

    /// Writes a value.
    pub fn serialize_value(&mut self, value: &Value) -> (r: Result<()>)
        requires
            old(self).wf(),
        ensures
            r is Ok,
            final(self).wrote(
                old(self),
                encode_value(value@, old(self).interned(), old(self).options()),
            ),
        decreases value, 0nat,
    {
        match value {
            Value::Undefined => self.serialize_unit(),
            Value::Null => self.serialize_unit(),
            Value::Bool(v) => self.serialize_bool(*v),
            Value::Number(Number::Int(v)) => self.serialize_i64(*v),
            Value::Number(Number::Float(v)) => self.serialize_f64(v),
            Value::String(v) => self.serialize_str(v.as_str()),
            Value::Array(items) => {
                proof {
                    lemma_view_array(*value);
                }
                self.serialize_items(items)
            },
            Value::Object(entries) => {
                proof {
                    lemma_view_object(*value);
                }
                self.serialize_entries(entries)
            },
        }
    }

    /// Writes an array.
    fn serialize_items(&mut self, items: &Vec<Value>) -> (r: Result<()>)
        requires
            old(self).wf(),
        ensures
            r is Ok,
            final(self).wrote(
                old(self),
                encode_value(
                    ValueView::Array(views(items@)),
                    old(self).interned(),
                    old(self).options(),
                ),
            ),
        decreases items, 3nat,
    {
        let ghost d = self.interned();
        let ghost o = self.options();
        let ghost all = views(items@);
        let mut seq = self.serialize_seq()?;
        let mut i: usize = 0;
        while i < items.len()
            invariant
                i <= items.len(),
                all == views(items@),
                self.wf(),
                self.options() == o,
                seq@.count <= i,
                self.output() == old(self).output() + seq![ARRAY_START_TOKEN] + run_length(
                    encode_items(all, i as nat, d, o).0,
                ).0,
                seq@ == run_length(encode_items(all, i as nat, d, o).0).1,
                self.interned() == encode_items(all, i as nat, d, o).1,
            decreases items.len() - i,
        {
            let ghost texts = encode_items(all, i as nat, d, o).0;
            let ghost before = self.output();
            seq.serialize_element(self, &items[i])?;
            proof {
                let text = encode_value(all[i as int], encode_items(all, i as nat, d, o).1, o).0;
                assert(encode_items(all, (i + 1) as nat, d, o).0 == texts.push(text));
                assert(texts.push(text).drop_last() =~= texts);
                assert(self.output() =~= old(self).output() + seq![ARRAY_START_TOKEN] + run_length(
                    texts.push(text),
                ).0);
            }
            i += 1;
        }
        let r = seq.end(self);
        proof {
            let texts = encode_items(all, items.len() as nat, d, o).0;
            assert(self.output() =~= old(self).output() + (seq![ARRAY_START_TOKEN] + array_body(texts)
                + seq![ARRAY_END_TOKEN]));
        }
        r
    }

    /// Writes an object.
    fn serialize_entries(&mut self, entries: &Vec<(String, Value)>) -> (r: Result<()>)
        requires
            old(self).wf(),
        ensures
            r is Ok,
            final(self).wrote(
                old(self),
                encode_value(
                    ValueView::Object(entry_views(entries@)),
                    old(self).interned(),
                    old(self).options(),
                ),
            ),
        decreases entries, 3nat,
    {
        let ghost d = self.interned();
        let ghost o = self.options();
        let ghost all = entry_views(entries@);
        let mut map = self.serialize_map()?;
        let mut i: usize = 0;
        while i < entries.len()
            invariant
                i <= entries.len(),
                all == entry_views(entries@),
                self.wf(),
                self.options() == o,
                self.output() == old(self).output() + seq![OBJECT_START_TOKEN] + encode_entries(
                    all,
                    i as nat,
                    d,
                    o,
                ).0,
                self.interned() == encode_entries(all, i as nat, d, o).1,
            decreases entries.len() - i,
        {
            let ghost written = encode_entries(all, i as nat, d, o).0;
            let ghost before = encode_entries(all, i as nat, d, o).1;
            map.serialize_field(self, entries[i].0.as_str(), &entries[i].1)?;
            proof {
                let key = encode_string(all[i as int].0, before, o.detect_utc_timestamps);
                let value = encode_value(all[i as int].1, key.1, o);
                assert(encode_entries(all, (i + 1) as nat, d, o).0 == written + key.0 + value.0);
                assert(self.output() =~= old(self).output() + seq![OBJECT_START_TOKEN] + (written
                    + key.0 + value.0));
            }
            i += 1;
        }
        let r = map.end_map(self);
        proof {
            let text = encode_entries(all, entries.len() as nat, d, o).0;
            assert(self.output() =~= old(self).output() + (seq![OBJECT_START_TOKEN] + text
                + seq![OBJECT_END_TOKEN]));
        }
        r
    }
}

/// Writes the elements of one array, or the entries of one object, into a
/// `Serializer`. For an array it holds the text of the element that the
/// current run started with and the number of its repeats.
pub struct SerializeSeq {
    last_value: Option<Vec<char>>,
    repeat_count: usize,
}

impl View for SerializeSeq {
    type V = Run;

    closed spec fn view(&self) -> Run {
        Run {
            last: match self.last_value {
                Some(text) => Some(text@),
                None => None,
            },
            count: self.repeat_count as nat,
        }
    }
}

impl SerializeSeq {
    /// Writes what is due for the current run, now that the next element is
    /// known (`is_repeat`: it continues the run) or the array ends.
    pub fn handle_last_value(&self, serializer: &mut Serializer, is_repeat: bool) -> (r: Result<()>)
        requires
            old(serializer).wf(),
        ensures
            r is Ok,
            final(serializer).wrote(
                old(serializer),
                (flush(self@, is_repeat), old(serializer).interned()),
            ),
    {
        if let Some(ref last_value) = self.last_value {
            if self.repeat_count == 0 {
                append(&mut serializer.output, last_value);
            } else if self.repeat_count < ARRAY_REPEAT_COUNT_THRESHOLD {
                serializer.output.push(ARRAY_REPEAT_TOKEN);
                assert(serializer.output@ =~= old(serializer).output@ + seq![ARRAY_REPEAT_TOKEN]);
            } else if !is_repeat {
                let count = natural_chars(
                    (self.repeat_count - ARRAY_REPEAT_COUNT_THRESHOLD + 1) as u64,
                );
                serializer.output.push(ARRAY_REPEAT_MANY_TOKEN);
                append(&mut serializer.output, &count);
                assert(serializer.output@ =~= old(serializer).output@ + (
                seq![ARRAY_REPEAT_MANY_TOKEN] + count@));
            } else {
                assert(serializer.output@ =~= old(serializer).output@ + Seq::<char>::empty());
            }
        } else {
            assert(serializer.output@ =~= old(serializer).output@ + Seq::<char>::empty());
        }
        Ok(())
    }

    /// Takes the next element of the array: computes its text, with what
    /// is registered, and compares it with the text that the current run
    /// started with.
    pub fn serialize_element(&mut self, serializer: &mut Serializer, value: &Value) -> (r: Result<
        (),
    >)
        requires
            old(serializer).wf(),
            old(self)@.count < usize::MAX,
        ensures
            r is Ok,
            final(serializer).wrote(
                old(serializer),
                (
                    step(
                        old(self)@,
                        encode_value(value@, old(serializer).interned(), old(serializer).options()).0,
                    ).0,
                    encode_value(value@, old(serializer).interned(), old(serializer).options()).1,
                ),
            ),
            final(self)@ == step(
                old(self)@,
                encode_value(value@, old(serializer).interned(), old(serializer).options()).0,
            ).1,
        decreases value, 2nat,
    {
        let value_string = to_string_nested(value, serializer)?;
        let is_repeat = match &self.last_value {
            None => {
                self.last_value = Some(value_string);
                assert(serializer.output@ =~= old(serializer).output@ + Seq::<char>::empty());
                return Ok(());
            },
            Some(last_value) => same_text(last_value, &value_string),
        };
        self.handle_last_value(serializer, is_repeat)?;
        if is_repeat {
            self.repeat_count += 1;
        } else {
            self.last_value = Some(value_string);
            self.repeat_count = 0;
        }
        Ok(())
    }

    /// Closes the array.
    pub fn end(self, serializer: &mut Serializer) -> (r: Result<()>)
        requires
            old(serializer).wf(),
        ensures
            r is Ok,
            final(serializer).wrote(
                old(serializer),
                (flush(self@, false) + seq![ARRAY_END_TOKEN], old(serializer).interned()),
            ),
    {
        self.handle_last_value(serializer, false)?;
        serializer.output.push(ARRAY_END_TOKEN);
        assert(serializer.output@ =~= old(serializer).output@ + (flush(self@, false)
            + seq![ARRAY_END_TOKEN]));
        Ok(())
    }

    /// Writes the key of an object's next entry, as a string is written.
    pub fn serialize_key(&mut self, serializer: &mut Serializer, key: &str) -> (r: Result<()>)
        requires
            old(serializer).wf(),
        ensures
            r is Ok,
            final(self)@ == old(self)@,
            final(serializer).wrote(
                old(serializer),
                encode_string(
                    key@,
                    old(serializer).interned(),
                    old(serializer).options().detect_utc_timestamps,
                ),
            ),
    {
        serializer.serialize_str(key)
    }

    /// Writes the value of an object's entry.
    pub fn serialize_value(&mut self, serializer: &mut Serializer, value: &Value) -> (r: Result<
        (),
    >)
        requires
            old(serializer).wf(),
        ensures
            r is Ok,
            final(self)@ == old(self)@,
            final(serializer).wrote(
                old(serializer),
                encode_value(value@, old(serializer).interned(), old(serializer).options()),
            ),
        decreases value, 2nat,
    {
        let value_string = to_string_nested(value, serializer)?;
        append(&mut serializer.output, &value_string);
        Ok(())
    }

    /// Writes an entry of an object: its key, and then its value.
    pub fn serialize_field(&mut self, serializer: &mut Serializer, key: &str, value: &Value) -> (r:
        Result<()>)
        requires
            old(serializer).wf(),
        ensures
            r is Ok,
            final(self)@ == old(self)@,
            final(serializer).wrote(
                old(serializer),
                (
                    encode_string(
                        key@,
                        old(serializer).interned(),
                        old(serializer).options().detect_utc_timestamps,
                    ).0 + encode_value(
                        value@,
                        encode_string(
                            key@,
                            old(serializer).interned(),
                            old(serializer).options().detect_utc_timestamps,
                        ).1,
                        old(serializer).options(),
                    ).0,
                    encode_value(
                        value@,
                        encode_string(
                            key@,
                            old(serializer).interned(),
                            old(serializer).options().detect_utc_timestamps,
                        ).1,
                        old(serializer).options(),
                    ).1,
                ),
            ),
        decreases value, 3nat,
    {
        self.serialize_key(serializer, key)?;
        self.serialize_value(serializer, value)?;
        proof {
            let key_text = encode_string(
                key@,
                old(serializer).interned(),
                old(serializer).options().detect_utc_timestamps,
            );
            let value_text = encode_value(value@, key_text.1, old(serializer).options());
            assert(serializer.output() =~= old(serializer).output() + (key_text.0 + value_text.0));
        }
        Ok(())
    }

    /// Closes the object.
    pub fn end_map(self, serializer: &mut Serializer) -> (r: Result<()>)
        requires
            old(serializer).wf(),
        ensures
            r is Ok,
            final(serializer).wrote(
                old(serializer),
                (seq![OBJECT_END_TOKEN], old(serializer).interned()),
            ),
    {
        serializer.output.push(OBJECT_END_TOKEN);
        assert(serializer.output@ =~= old(serializer).output@ + seq![OBJECT_END_TOKEN]);
        Ok(())
    }
}

/// The text of `value` by itself, written with what `serializer` has
/// registered, which goes on from there; its own text stays as it is.
fn to_string_nested(value: &Value, serializer: &mut Serializer) -> (r: Result<Vec<char>>)
    requires
        old(serializer).wf(),
    ensures
        r matches Ok(text) && text@ == encode_value(
            value@,
            old(serializer).interned(),
            old(serializer).options(),
        ).0,
        final(serializer).wrote(
            old(serializer),
            (
                Seq::empty(),
                encode_value(value@, old(serializer).interned(), old(serializer).options()).1,
            ),
        ),
    decreases value, 1nat,
{
    let mut text: Vec<char> = Vec::new();
    core::mem::swap(&mut serializer.output, &mut text);
    let r = serializer.serialize_value(value);
    core::mem::swap(&mut serializer.output, &mut text);
    assert(serializer.output@ =~= old(serializer).output@ + Seq::<char>::empty());
    assert(text@ =~= Seq::<char>::empty() + text@);
    match r {
        Ok(()) => Ok(text),
        Err(e) => Err(e),
    }
}

/// The document that stands for `value`.
pub fn to_string(value: &Value, full_precision_floats: bool, detect_utc_timestamps: bool) -> (r:
    Result<String>)
    ensures
        r matches Ok(text) && text@ == encode(
            value@,
            full_precision_floats,
            detect_utc_timestamps,
        ),
{
    let mut serializer = Serializer::new(full_precision_floats, detect_utc_timestamps);
    serializer.serialize_value(value)?;
    assert(serializer.output@ =~= encode(value@, full_precision_floats, detect_utc_timestamps));
    Ok(serializer.into_string())
}

/// The units of a hundred milliseconds that `millis` is, where that is exact.
fn low_precision(millis: i64) -> (tenths: Option<i64>)
    ensures
        tenths == if (millis as int) % (DATE_LOW_PRECISION as int) == 0 {
            Some(((millis as int) / (DATE_LOW_PRECISION as int)) as i64)
        } else {
            None
        },
{
    if millis % DATE_LOW_PRECISION == 0 {
        Some(millis / DATE_LOW_PRECISION)
    } else {
        None
    }
}

} // verus!

//! Timestamps: which strings have the shape of one, and what chrono makes
//! of them.
use vstd::prelude::*;

verus! {

/// Whether `c` is a decimal digit.
pub open spec fn is_decimal(c: char) -> bool {
    '0' <= c && c <= '9'
}

/// Where the run of decimal digits that starts at `i` ends.
pub open spec fn decimal_run_end(s: Seq<char>, i: int) -> int
    decreases s.len() - i,
{
    if 0 <= i < s.len() && is_decimal(s[i]) {
        decimal_run_end(s, i + 1)
    } else {
        i
    }
}

/// A run of decimal digits ends at or after its start, and within the
/// input.
pub proof fn lemma_decimal_run_end_bounds(s: Seq<char>, i: int)
    requires
        0 <= i <= s.len(),
    ensures
        i <= decimal_run_end(s, i) <= s.len(),
    decreases s.len() - i,
{
    if i < s.len() && is_decimal(s[i]) {
        lemma_decimal_run_end_bounds(s, i + 1);
    }
}

/// Whether `s` begins `YYYY-MM-DDThh:mm:ss`, each letter a decimal digit.
pub open spec fn has_date_time(s: Seq<char>) -> bool {
    &&& s.len() >= 19
    &&& is_decimal(s[0]) && is_decimal(s[1]) && is_decimal(s[2]) && is_decimal(s[3])
    &&& s[4] == '-'
    &&& is_decimal(s[5]) && is_decimal(s[6])
    &&& s[7] == '-'
    &&& is_decimal(s[8]) && is_decimal(s[9])
    &&& s[10] == 'T'
    &&& is_decimal(s[11]) && is_decimal(s[12])
    &&& s[13] == ':'
    &&& is_decimal(s[14]) && is_decimal(s[15])
    &&& s[16] == ':'
    &&& is_decimal(s[17]) && is_decimal(s[18])
}

/// Whether `s` from `i` to its end is an offset: `Z`, or a sign and `hh:mm`.
pub open spec fn is_offset(s: Seq<char>, i: int) -> bool {
    ||| s.len() == i + 1 && s[i] == 'Z'
    ||| {
        &&& s.len() == i + 6
        &&& (s[i] == '+' || s[i] == '-')
        &&& is_decimal(s[i + 1]) && is_decimal(s[i + 2])
        &&& s[i + 3] == ':'
        &&& is_decimal(s[i + 4]) && is_decimal(s[i + 5])
    }
}

/// Whether `s` has the shape of a timestamp: a date and a time, then
/// optionally a point and at least one decimal digit, then an offset, and
/// nothing more. Only strings of this shape are tried as dates.
pub open spec fn is_date_shaped(s: Seq<char>) -> bool {
    has_date_time(s) && if s.len() > 19 && s[19] == '.' {
        decimal_run_end(s, 20) > 20 && is_offset(s, decimal_run_end(s, 20))
    } else {
        is_offset(s, 19)
    }
}

/// The instant that `text` names, if it is a valid RFC 3339 date and time: in
/// milliseconds since the start of 1970 in UTC, as chrono computes them.
pub uninterp spec fn rfc3339_millis(text: Seq<char>) -> Option<i64>;

/// The RFC 3339 text, in UTC with three decimals of seconds and `Z`, of the
/// instant `millis` milliseconds after the start of 1970, if chrono can
/// represent that instant.
pub uninterp spec fn utc_text(millis: i64) -> Option<Seq<char>>;

/// `chrono::DateTime::parse_from_rfc3339`, and on the date it returns
/// `DateTime::timestamp_millis`, which only reads it. `None` stands for
/// chrono's parse error. The same text always gives the same result.
#[verifier::external_body]
pub(crate) fn parse_rfc3339_millis(text: &str) -> (millis: Option<i64>)
    ensures
        millis == rfc3339_millis(text@),
{
    match chrono::DateTime::parse_from_rfc3339(text) {
        Ok(date) => Some(date.timestamp_millis()),
        Err(_) => None,
    }
}

/// `chrono::DateTime::from_timestamp_millis`, and on the date it returns
/// `DateTime::to_rfc3339_opts` with `SecondsFormat::Millis` and `Z` for UTC.
/// `None` where the milliseconds are out of chrono's range.
#[verifier::external_body]
pub(crate) fn utc_rfc3339(millis: i64) -> (text: Option<String>)
    ensures
        match utc_text(millis) {
            Some(t) => text matches Some(s) && s@ == t,
            None => text is None,
        },
{
    match chrono::DateTime::from_timestamp_millis(millis) {
        Some(date) => Some(date.to_rfc3339_opts(chrono::SecondsFormat::Millis, true)),
        None => None,
    }
}

/// Whether `c` is a decimal digit.
fn decimal(c: char) -> (r: bool)
    ensures
        r == is_decimal(c),
{
    '0' <= c && c <= '9'
}

/// Whether `s` from `i` to its end is an offset.
fn offset_at(s: &Vec<char>, i: usize) -> (r: bool)
    requires
        i <= s.len(),
    ensures
        r == is_offset(s@, i as int),
{
    let n = s.len();
    if n - i == 1 {
        s[i] == 'Z'
    } else if n - i == 6 {
        (s[i] == '+' || s[i] == '-') && decimal(s[i + 1]) && decimal(s[i + 2]) && s[i + 3] == ':'
            && decimal(s[i + 4]) && decimal(s[i + 5])
    } else {
        false
    }
}

/// Whether `s` has the shape of a timestamp.
pub fn date_shaped(s: &Vec<char>) -> (r: bool)
    ensures
        r == is_date_shaped(s@),
{
    let n = s.len();
    if n < 20 {
        return false;
    }
    let head = decimal(s[0]) && decimal(s[1]) && decimal(s[2]) && decimal(s[3]) && s[4] == '-'
        && decimal(s[5]) && decimal(s[6]) && s[7] == '-' && decimal(s[8]) && decimal(s[9])
        && s[10] == 'T' && decimal(s[11]) && decimal(s[12]) && s[13] == ':' && decimal(s[14])
        && decimal(s[15]) && s[16] == ':' && decimal(s[17]) && decimal(s[18]);
    if !head {
        return false;
    }
    if s[19] == '.' {
        let mut i: usize = 20;
        while i < n && decimal(s[i])
            invariant
                20 <= i <= n,
                n == s@.len(),
                decimal_run_end(s@, i as int) == decimal_run_end(s@, 20),
            decreases n - i,
        {
            i += 1;
        }
        i > 20 && offset_at(s, i)
    } else {
        offset_at(s, 19)
    }
}

} // verus!

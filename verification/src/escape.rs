//! Strings between delimiters: how they are written and how they are
//! scanned.
use vstd::prelude::*;
use crate::constants::ESCAPE_CHARACTER;
use crate::error::{Error, Result};

verus! {

/// How one character of a string is written between delimiters: the escape
/// character and the delimiter get an escape character in front.
pub open spec fn escape_char(c: char, delimiter: char) -> Seq<char> {
    if c == ESCAPE_CHARACTER || c == delimiter {
        seq![ESCAPE_CHARACTER, c]
    } else {
        seq![c]
    }
}

/// How a string is written between delimiters.
pub open spec fn escape(s: Seq<char>, delimiter: char) -> Seq<char>
    decreases s.len(),
{
    if s.len() == 0 {
        Seq::empty()
    } else {
        escape_char(s[0], delimiter) + escape(s.drop_first(), delimiter)
    }
}

/// What scanning a string's content from `i` gives, with `acc` already read:
/// the content and the position after the closing delimiter. An escape
/// character must stand before another one or before the delimiter, and
/// yields that character; a delimiter that is not escaped ends the string.
///
/// Taken run by run: of `E` escape characters in a row, `E / 2` are content;
/// if `E` is odd the next character must be the delimiter and is content,
/// and if `E` is even a delimiter that follows ends the string.
pub open spec fn scan_string(
    input: Seq<char>,
    i: int,
    delimiter: char,
    acc: Seq<char>,
) -> core::result::Result<(Seq<char>, int), Error>
    decreases input.len() - i,
{
    if i < 0 || i >= input.len() {
        Err(Error::Eof)
    } else if input[i] == ESCAPE_CHARACTER {
        if i + 1 >= input.len() {
            Err(Error::Eof)
        } else if input[i + 1] == ESCAPE_CHARACTER || input[i + 1] == delimiter {
            scan_string(input, i + 2, delimiter, acc.push(input[i + 1]))
        } else {
            Err(Error::ExpectedEscapedToken)
        }
    } else if input[i] == delimiter {
        Ok((acc, i + 1))
    } else {
        scan_string(input, i + 1, delimiter, acc.push(input[i]))
    }
}

/// What reading a string at `pos` gives. The character at `pos` opens the
/// string and is its delimiter.
pub open spec fn parse_string(input: Seq<char>, pos: int) -> core::result::Result<
    (Seq<char>, int),
    Error,
> {
    if pos < 0 || pos >= input.len() {
        Err(Error::Eof)
    } else {
        scan_string(input, pos + 1, input[pos], Seq::empty())
    }
}

/// The string that `text` is the escaped form of, if it is one.
pub open spec fn unescape(text: Seq<char>, delimiter: char) -> Option<Seq<char>> {
    match scan_string(text.push(delimiter), 0, delimiter, Seq::empty()) {
        Ok((s, next)) => if next == text.len() + 1 {
            Some(s)
        } else {
            None
        },
        Err(_) => None,
    }
}

/// A string's content that is read ends after the position it was
/// scanned from, and within the input.
pub proof fn lemma_scan_advances(input: Seq<char>, i: int, delimiter: char, acc: Seq<char>)
    requires
        scan_string(input, i, delimiter, acc) is Ok,
    ensures
        i < scan_string(input, i, delimiter, acc)->Ok_0.1 <= input.len(),
    decreases input.len() - i,
{
    if input[i] == ESCAPE_CHARACTER {
        lemma_scan_advances(input, i + 2, delimiter, acc.push(input[i + 1]));
    } else if input[i] != delimiter {
        lemma_scan_advances(input, i + 1, delimiter, acc.push(input[i]));
    }
}

/// Escaping goes character by character.
pub proof fn lemma_escape_push(s: Seq<char>, c: char, delimiter: char)
    ensures
        escape(s.push(c), delimiter) == escape(s, delimiter) + escape_char(c, delimiter),
    decreases s.len(),
{
    if s.len() == 0 {
        assert(s.push(c).drop_first() =~= Seq::<char>::empty());
        assert(s.push(c)[0] == c);
        assert(escape(s.push(c).drop_first(), delimiter) =~= Seq::<char>::empty());
        assert(escape(s.push(c), delimiter) =~= escape_char(c, delimiter));
        assert(escape(s, delimiter) + escape_char(c, delimiter) =~= escape_char(c, delimiter));
    } else {
        lemma_escape_push(s.drop_first(), c, delimiter);
        assert(s.push(c).drop_first() =~= s.drop_first().push(c));
        assert(escape(s.push(c), delimiter) =~= escape(s, delimiter) + escape_char(
            c,
            delimiter,
        ));
    }
}

/// Scanning the escaped form of `s`, where it stands in `input` at `i` before
/// a delimiter, reads `s` and stops after that delimiter.
pub proof fn lemma_scan_escaped(
    input: Seq<char>,
    i: int,
    s: Seq<char>,
    delimiter: char,
    acc: Seq<char>,
)
    requires
        delimiter != ESCAPE_CHARACTER,
        0 <= i,
        i + escape(s, delimiter).len() < input.len(),
        input.subrange(i, i + escape(s, delimiter).len()) == escape(s, delimiter),
        input[i + escape(s, delimiter).len()] == delimiter,
    ensures
        scan_string(input, i, delimiter, acc) == Ok::<(Seq<char>, int), Error>(
            (acc + s, i + escape(s, delimiter).len() + 1),
        ),
    decreases s.len(),
{
    let e = escape(s, delimiter);
    if s.len() == 0 {
        assert(acc + s =~= acc);
    } else {
        let c = s[0];
        let rest = s.drop_first();
        let head = escape_char(c, delimiter);
        assert(e == head + escape(rest, delimiter));
        let window = input.subrange(i, i + e.len());
        assert(input[i] == window[0]);
        let tail = input.subrange(i + head.len(), i + e.len());
        assert forall|k: int| 0 <= k < tail.len() implies tail[k] == escape(rest, delimiter)[k] by {
            assert(tail[k] == window[head.len() + k]);
        }
        assert(tail =~= escape(rest, delimiter));
        if c == ESCAPE_CHARACTER || c == delimiter {
            assert(input[i + 1] == window[1]);
        }
        lemma_scan_escaped(input, i + head.len(), rest, delimiter, acc.push(c));
        assert(acc.push(c) + rest =~= acc + s);
    }
}

/// Every string comes back from its escaped form, whatever it holds: escape
/// characters and delimiters too.
pub proof fn lemma_unescape_escape(s: Seq<char>, delimiter: char)
    requires
        delimiter != ESCAPE_CHARACTER,
    ensures
        unescape(escape(s, delimiter), delimiter) == Some(s),
{
    let e = escape(s, delimiter);
    let input = e.push(delimiter);
    assert(input.subrange(0, e.len() as int) =~= e);
    lemma_scan_escaped(input, 0, s, delimiter, Seq::empty());
    assert(Seq::<char>::empty() + s =~= s);
}

/// The escaped form of `s`.
pub fn escape_chars(s: &Vec<char>, delimiter: char) -> (out: Vec<char>)
    ensures
        out@ == escape(s@, delimiter),
{
    let mut out: Vec<char> = Vec::new();
    let mut i: usize = 0;
    while i < s.len()
        invariant
            i <= s.len(),
            out@ == escape(s@.take(i as int), delimiter),
        decreases s.len() - i,
    {
        let c = s[i];
        proof {
            lemma_escape_push(s@.take(i as int), c, delimiter);
            assert(s@.take(i + 1) =~= s@.take(i as int).push(c));
        }
        if c == ESCAPE_CHARACTER || c == delimiter {
            out.push(ESCAPE_CHARACTER);
            out.push(c);
            assert(out@ =~= escape(s@.take(i as int), delimiter) + escape_char(c, delimiter));
        } else {
            out.push(c);
            assert(out@ =~= escape(s@.take(i as int), delimiter) + escape_char(c, delimiter));
        }
        i += 1;
    }
    assert(s@.take(i as int) =~= s@);
    out
}

/// Reads a string at `pos`, opening delimiter included.
pub fn parse_string_at(input: &Vec<char>, pos: usize) -> (r: Result<(Vec<char>, usize)>)
    ensures
        match parse_string(input@, pos as int) {
            Ok((s, next)) => r matches Ok((chars, n)) && chars@ == s && n == next,
            Err(e) => r matches Err(x) && x == e,
        },
        r matches Ok((_, next)) ==> pos < next <= input@.len(),
{
    let n = input.len();
    if pos >= n {
        return Err(Error::Eof);
    }
    let delimiter = input[pos];
    let mut chars: Vec<char> = Vec::new();
    let mut i: usize = pos + 1;
    loop
        invariant
            pos < i <= n,
            n == input@.len(),
            delimiter == input@[pos as int],
            scan_string(input@, i as int, delimiter, chars@) == parse_string(input@, pos as int),
        decreases n - i,
    {
        if i >= n {
            return Err(Error::Eof);
        }
        let c = input[i];
        if c == ESCAPE_CHARACTER {
            if i + 1 >= n {
                return Err(Error::Eof);
            }
            let escaped = input[i + 1];
            if escaped == ESCAPE_CHARACTER || escaped == delimiter {
                chars.push(escaped);
                i += 2;
            } else {
                return Err(Error::ExpectedEscapedToken);
            }
        } else if c == delimiter {
            return Ok((chars, i + 1));
        } else {
            chars.push(c);
            i += 1;
        }
    }
}

} // verus!

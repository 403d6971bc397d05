//! Shared syntactic primitives of the two keyed-values dialects:
//! whitespace skipping, scanning for a delimiter, quoted strings, and
//! decimal numerals.
//!
//! Every executable function is specified against a spec-level function
//! over `Seq<char>`; parsers hand back the unconsumed remainder of their
//! input together with the parsed value.

use vstd::prelude::*;

verus! {

/// The whitespace characters both dialects treat as insignificant
/// between tokens.
pub open spec fn is_ws(c: char) -> bool {
    c == ' ' || c == '\t' || c == '\n' || c == '\r'
}

/// Executable test for [`is_ws`].
pub fn ws_char(c: char) -> (r: bool)
    ensures
        r == is_ws(c),
{
    c == ' ' || c == '\t' || c == '\n' || c == '\r'
}

/// The remainder of `s` after its longest all-whitespace prefix.
pub open spec fn skip_ws(s: Seq<char>) -> Seq<char>
    decreases s.len(),
{
    if s.len() > 0 && is_ws(s[0]) {
        skip_ws(s.skip(1))
    } else {
        s
    }
}

/// `skip_ws` never lengthens its input, and what it returns is a suffix
/// that does not start with whitespace.
pub proof fn lemma_skip_ws_props(s: Seq<char>)
    ensures
        skip_ws(s).len() <= s.len(),
        skip_ws(s).len() > 0 ==> !is_ws(skip_ws(s)[0]),
    decreases s.len(),
{
    if s.len() > 0 && is_ws(s[0]) {
        lemma_skip_ws_props(s.skip(1));
    }
}

/// Consume the longest all-whitespace prefix of `s`.
pub fn eat_ws<'a>(s: &'a str) -> (r: &'a str)
    ensures
        r@ == skip_ws(s@),
    decreases s@.len(),
{
    let n = s.unicode_len();
    if n > 0 {
        let c = s.get_char(0);
        if ws_char(c) {
            let tail = s.substring_char(1, n);
            return eat_ws(tail);
        }
    }
    s
}

/// Index of the first occurrence of `stop` in `s`, if any.
pub open spec fn find_char(s: Seq<char>, stop: char) -> Option<int>
    decreases s.len(),
{
    if s.len() == 0 {
        None
    } else if s[0] == stop {
        Some(0)
    } else {
        match find_char(s.skip(1), stop) {
            Some(j) => Some(j + 1),
            None => None,
        }
    }
}

/// What `find_char` returns: the first index holding `stop`, or nothing
/// when `stop` does not occur.
pub proof fn lemma_find_char_props(s: Seq<char>, stop: char)
    ensures
        match find_char(s, stop) {
            Some(j) => 0 <= j < s.len() && s[j] == stop && (forall|k: int|
                0 <= k < j ==> s[k] != stop),
            None => forall|k: int| 0 <= k < s.len() ==> s[k] != stop,
        },
    decreases s.len(),
{
    if s.len() > 0 && s[0] != stop {
        lemma_find_char_props(s.skip(1), stop);
        match find_char(s.skip(1), stop) {
            Some(j) => {
                assert(s.skip(1)[j] == s[j + 1]);
                assert forall|k: int| 0 <= k < j + 1 implies s[k] != stop by {
                    if k > 0 {
                        assert(s.skip(1)[k - 1] == s[k]);
                    }
                }
            },
            None => {
                assert forall|k: int| 0 <= k < s.len() implies s[k] != stop by {
                    if k > 0 {
                        assert(s.skip(1)[k - 1] == s[k]);
                    }
                }
            },
        }
    }
}

/// Executable search for the first occurrence of `stop`.
pub fn find_char_at(s: &str, stop: char) -> (r: Option<usize>)
    ensures
        match r {
            Some(u) => find_char(s@, stop) == Some(u as int),
            None => find_char(s@, stop) is None,
        },
    decreases s@.len(),
{
    let n = s.unicode_len();
    if n == 0 {
        None
    } else if s.get_char(0) == stop {
        Some(0)
    } else {
        let tail = s.substring_char(1, n);
        match find_char_at(tail, stop) {
            Some(j) => {
                proof {
                    lemma_find_char_props(tail@, stop);
                }
                Some(j + 1)
            },
            None => None,
        }
    }
}

/// A quoted string: a `"`, then every character up to (not including) the
/// next `"`, then that closing `"`. The enclosed text is produced verbatim;
/// there is no escape processing. Returns `(rest, content)`, or nothing
/// when `s` does not start with a quote or the quote is never closed.
pub open spec fn spec_quoted(s: Seq<char>) -> Option<(Seq<char>, Seq<char>)> {
    if s.len() > 0 && s[0] == '"' {
        match find_char(s.skip(1), '"') {
            Some(j) => Some((s.skip(1).skip(j + 1), s.skip(1).take(j))),
            None => None,
        }
    } else {
        None
    }
}

/// A successful quoted-string parse strictly shrinks the input.
pub proof fn lemma_quoted_shrinks(s: Seq<char>)
    ensures
        spec_quoted(s) matches Some(p) ==> p.0.len() < s.len(),
{
    if s.len() > 0 && s[0] == '"' {
        lemma_find_char_props(s.skip(1), '"');
    }
}

/// Parse a quoted string off the front of `s`, returning the remainder
/// and the enclosed text.
pub fn take_quoted<'a>(s: &'a str) -> (r: Option<(&'a str, String)>)
    ensures
        match spec_quoted(s@) {
            Some(p) => r matches Some(q) && q.0@ == p.0 && q.1@ == p.1,
            None => r is None,
        },
{
    let n = s.unicode_len();
    if n == 0 {
        return None;
    }
    if s.get_char(0) != '"' {
        return None;
    }
    let tail = s.substring_char(1, n);
    match find_char_at(tail, '"') {
        None => None,
        Some(j) => {
            proof {
                lemma_find_char_props(tail@, '"');
            }
            let content = String::from_str(tail.substring_char(0, j));
            let rest = tail.substring_char(j + 1, n - 1);
            proof {
                assert(rest@ =~= s@.skip(1).skip(j + 1));
                assert(content@ =~= s@.skip(1).take(j as int));
            }
            Some((rest, content))
        },
    }
}

/// Decimal digits.
pub open spec fn is_digit(c: char) -> bool {
    48 <= c as u32 && c as u32 <= 57
}

/// Numeric value of a decimal digit.
pub open spec fn digit_val(c: char) -> int {
    c as u32 - 48
}

pub open spec fn all_digits(s: Seq<char>) -> bool {
    forall|k: int| 0 <= k < s.len() ==> is_digit(s[k])
}

/// Value of a decimal numeral (most significant digit first).
pub open spec fn dec_val(s: Seq<char>) -> int
    decreases s.len(),
{
    if s.len() == 0 {
        0
    } else {
        dec_val(s.drop_last()) * 10 + digit_val(s.last())
    }
}

/// What parsing a decimal numeral as a `u32` yields: the numeral's value
/// when `s` is one or more digits whose value fits, nothing otherwise.
pub open spec fn spec_parse_u32(s: Seq<char>) -> Option<u32> {
    if s.len() > 0 && all_digits(s) && dec_val(s) <= u32::MAX {
        Some(dec_val(s) as u32)
    } else {
        None
    }
}

pub proof fn lemma_dec_val_nonneg(s: Seq<char>)
    requires
        all_digits(s),
    ensures
        dec_val(s) >= 0,
    decreases s.len(),
{
    if s.len() > 0 {
        assert(all_digits(s.drop_last())) by {
            assert(forall|k: int| 0 <= k < s.len() - 1 ==> s.drop_last()[k] == s[k]);
        }
        lemma_dec_val_nonneg(s.drop_last());
    }
}

/// For an all-digit numeral, the value of any prefix is no greater than
/// the value of the whole.
pub proof fn lemma_dec_val_prefix(s: Seq<char>, m: int)
    requires
        all_digits(s),
        0 <= m <= s.len(),
    ensures
        dec_val(s.take(m)) <= dec_val(s),
    decreases s.len() - m,
{
    if m < s.len() {
        assert(all_digits(s.drop_last())) by {
            assert(forall|k: int| 0 <= k < s.len() - 1 ==> s.drop_last()[k] == s[k]);
        }
        assert(s.drop_last().take(m) =~= s.take(m));
        lemma_dec_val_prefix(s.drop_last(), m);
        lemma_dec_val_nonneg(s.drop_last());
    } else {
        assert(s.take(m) =~= s);
    }
}

/// Parse the whole of `s` as a decimal `u32` numeral.
pub fn parse_u32_str(s: &str) -> (r: Option<u32>)
    ensures
        r == spec_parse_u32(s@),
{
    let n = s.unicode_len();
    if n == 0 {
        return None;
    }
    let mut acc: u64 = 0;
    let mut j: usize = 0;
    while j < n
        invariant
            n == s@.len(),
            0 < n <= usize::MAX,
            0 <= j <= n,
            forall|k: int| 0 <= k < j ==> is_digit(s@[k]),
            acc == dec_val(s@.take(j as int)),
            acc <= u32::MAX,
        decreases n - j,
    {
        let c = s.get_char(j);
        let u = c as u32;
        if u < 48 || u > 57 {
            return None;
        }
        let d: u64 = (u - 48) as u64;
        proof {
            assert(s@.take(j + 1).drop_last() =~= s@.take(j as int));
            assert(s@.take(j + 1).last() == s@[j as int]);
        }
        let newacc: u64 = acc * 10 + d;
        if newacc > 0xFFFF_FFFF {
            proof {
                if all_digits(s@) {
                    lemma_dec_val_prefix(s@, j + 1);
                }
            }
            return None;
        }
        acc = newacc;
        j = j + 1;
    }
    proof {
        assert(s@.take(n as int) =~= s@);
    }
    Some(acc as u32)
}

/// The leading portion of the text at a failure point, as shown in
/// parse-error messages: at most 40 characters.
pub open spec fn failure_window(rest: Seq<char>) -> Seq<char> {
    if rest.len() > 40 {
        rest.take(40)
    } else {
        rest
    }
}

/// Build a parse-error description: what failed, then the text at the
/// point of failure (truncated to the failure window).
pub fn describe_failure(what: &str, rest: &str) -> (r: String)
    ensures
        r@ == what@ + " near: "@ + failure_window(rest@),
{
    let mut s = String::from_str(what);
    s.append(" near: ");
    let n = rest.unicode_len();
    let cut: usize = if n > 40 {
        40
    } else {
        n
    };
    let window = rest.substring_char(0, cut);
    proof {
        assert(window@ =~= failure_window(rest@));
    }
    s.append(window);
    s
}

} // verus!

//! Interpretation of the metadata probe: content length, range support,
//! and the choice between the parallel and the sequential strategy.

use vstd::prelude::*;
use crate::Strategy;
use crate::naming::dec_of;
use crate::naming::u64_to_dec;

verus! {

/// The value of a byte-range request header for the inclusive range
/// `[start, end]`.
pub open spec fn range_value_of(start: u64, end: u64) -> Seq<char> {
    "bytes="@ + dec_of(start as nat) + "-"@ + dec_of(end as nat)
}

/// Renders the byte-range request header value `bytes=start-end`.
pub fn range_header_value(start: u64, end: u64) -> (r: String)
    ensures
        r@ == range_value_of(start, end),
{
    let mut out = String::from_str("bytes=");
    let s = u64_to_dec(start);
    out.append(s.as_str());
    out.append("-");
    let e = u64_to_dec(end);
    out.append(e.as_str());
    assert(out@ =~= range_value_of(start, end));
    out
}

/// What the probe learned about the server: the advertised size of the
/// resource (0 when unknown) and whether byte ranges are supported.
#[derive(Clone, Copy, Debug, PartialEq, Eq, Structural)]
pub struct ServerCapability {
    pub content_length: u64,
    pub supports_ranges: bool,
}

/// `c` is a decimal digit.
pub open spec fn is_digit(c: char) -> bool {
    48 <= c as int <= 57
}

/// The numeric value of the digit `c`.
pub open spec fn digit_val(c: char) -> int {
    c as int - 48
}

/// Every character of `s` is a decimal digit.
pub open spec fn all_digits(s: Seq<char>) -> bool {
    forall|i: int| 0 <= i < s.len() ==> is_digit(#[trigger] s[i])
}

/// The value of `s` read as a decimal numeral.
pub open spec fn dec_val(s: Seq<char>) -> int
    decreases s.len(),
{
    if s.len() == 0 {
        0
    } else {
        dec_val(s.drop_last()) * 10 + digit_val(s.last())
    }
}

/// The content length denoted by a header value: the decimal value of the
/// string when it is a non-empty digit string that fits in a `u64`, and 0
/// (unknown) otherwise.
pub open spec fn content_length_of(s: Seq<char>) -> u64 {
    if s.len() > 0 && all_digits(s) && dec_val(s) <= u64::MAX {
        dec_val(s) as u64
    } else {
        0
    }
}

/// `s` is the token "none" in any mixture of ASCII case: the value with
/// which a range-support header explicitly denies range support.
pub open spec fn is_none_token(s: Seq<char>) -> bool {
    &&& s.len() == 4
    &&& (s[0] == 'n' || s[0] == 'N')
    &&& (s[1] == 'o' || s[1] == 'O')
    &&& (s[2] == 'n' || s[2] == 'N')
    &&& (s[3] == 'e' || s[3] == 'E')
}

/// How a probe response maps to a capability: the content length header
/// value read as a decimal (absent or malformed means unknown), and range
/// support taken as the presence of the range header unless its value is
/// the explicit "none" token.
pub open spec fn capability_of(
    content_length: Option<Seq<char>>,
    accept_ranges: Option<Seq<char>>,
) -> ServerCapability {
    ServerCapability {
        content_length: match content_length {
            Option::Some(s) => content_length_of(s),
            Option::None => 0,
        },
        supports_ranges: match accept_ranges {
            Option::Some(s) => !is_none_token(s),
            Option::None => false,
        },
    }
}

/// A longer digit prefix never denotes a smaller value.
proof fn lemma_dec_val_grows(s: Seq<char>, k: int, m: int)
    requires
        all_digits(s),
        0 <= k <= m <= s.len(),
    ensures
        0 <= dec_val(s.take(k)) <= dec_val(s.take(m)),
    decreases m - k,
{
    if k == m {
        lemma_dec_val_nonneg(s.take(k));
    } else {
        lemma_dec_val_grows(s, k, m - 1);
        assert(s.take(m).drop_last() =~= s.take(m - 1));
        assert(dec_val(s.take(m)) == dec_val(s.take(m - 1)) * 10 + digit_val(s[m - 1]));
        lemma_dec_val_nonneg(s.take(m - 1));
    }
}

/// A digit string denotes a value of at least 0.
proof fn lemma_dec_val_nonneg(s: Seq<char>)
    requires
        all_digits(s),
    ensures
        dec_val(s) >= 0,
    decreases s.len(),
{
    if s.len() > 0 {
        assert(all_digits(s.drop_last())) by {
            assert(forall|i: int| 0 <= i < s.len() - 1 ==> s.drop_last()[i] == s[i]);
        }
        lemma_dec_val_nonneg(s.drop_last());
    }
}

/// Reads a content-length header value. Returns the decimal value of the
/// string when it is a non-empty string of digits whose value fits in a
/// `u64`, and 0 — the marker for an unknown length — otherwise.
pub fn parse_content_length(v: &str) -> (n: u64)
    ensures
        n == content_length_of(v@),
{
    let len = v.unicode_len();
    if len == 0 {
        return 0;
    }
    let mut acc: u64 = 0;
    let mut i: usize = 0;
    while i < len
        invariant
            len == v@.len(),
            0 <= i <= len,
            all_digits(v@.take(i as int)),
            acc == dec_val(v@.take(i as int)),
        decreases len - i,
    {
        let c = v.get_char(i);
        let cu = c as u32;
        if cu < 48 || cu > 57 {
            assert(!is_digit(v@[i as int]));
            return 0;
        }
        let d: u64 = ((cu - 48) as u8) as u64;
        assert(d == digit_val(v@[i as int]));
        proof {
            lemma_dec_val_nonneg(v@.take(i as int));
        }
        if acc > 1844674407370955161u64 || (acc == 1844674407370955161u64 && d > 5) {
            // the numeral no longer fits in a u64, and appending further
            // digits can only enlarge it
            proof {
                assert(v@.take(i as int + 1).drop_last() =~= v@.take(i as int));
                assert(dec_val(v@.take(i as int + 1)) > u64::MAX);
                if all_digits(v@) {
                    lemma_dec_val_grows(v@, i as int + 1, v@.len() as int);
                    assert(v@.take(v@.len() as int) =~= v@);
                }
            }
            return 0;
        }
        assert(v@.take(i as int + 1).drop_last() =~= v@.take(i as int));
        acc = acc * 10 + d;
        i = i + 1;
    }
    assert(v@.take(len as int) =~= v@);
    acc
}

/// Decides whether a range-support header grants range support: the header
/// must be present and its value must not be the explicit "none" token,
/// compared ASCII-case-insensitively.
pub fn interpret_accept_ranges(v: Option<&str>) -> (b: bool)
    ensures
        b == match v {
            Option::Some(s) => !is_none_token(s@),
            Option::None => false,
        },
{
    match v {
        Option::None => false,
        Option::Some(s) => {
            let len = s.unicode_len();
            if len != 4 {
                return true;
            }
            let c0 = s.get_char(0);
            let c1 = s.get_char(1);
            let c2 = s.get_char(2);
            let c3 = s.get_char(3);
            let denies = (c0 == 'n' || c0 == 'N') && (c1 == 'o' || c1 == 'O') && (c2 == 'n'
                || c2 == 'N') && (c3 == 'e' || c3 == 'E');
            !denies
        },
    }
}

/// Builds the server capability from the two probe response headers.
pub fn capability_from_headers(
    content_length: Option<&str>,
    accept_ranges: Option<&str>,
) -> (cap: ServerCapability)
    ensures
        cap == capability_of(
            match content_length {
                Option::Some(s) => Option::Some(s@),
                Option::None => Option::None,
            },
            match accept_ranges {
                Option::Some(s) => Option::Some(s@),
                Option::None => Option::None,
            },
        ),
{
    let cl = match content_length {
        Option::Some(s) => parse_content_length(s),
        Option::None => 0,
    };
    let ranges = interpret_accept_ranges(accept_ranges);
    ServerCapability { content_length: cl, supports_ranges: ranges }
}

/// Chooses the transfer strategy: parallel exactly when the size of the
/// resource is known and the server supports byte ranges, sequential
/// otherwise.
pub fn choose_strategy(cap: &ServerCapability) -> (s: Strategy)
    ensures
        s is Parallel <==> (cap.content_length > 0 && cap.supports_ranges),
        s is Sequential <==> !(cap.content_length > 0 && cap.supports_ranges),
{
    if cap.content_length > 0 && cap.supports_ranges {
        Strategy::Parallel
    } else {
        Strategy::Sequential
    }
}

} // verus!

//! Built-in token sources: the clock, random numbers and UUIDs.

use std::fmt::Write as _;
use vstd::prelude::*;

use crate::text::{all_digits, chars_of, digit_value, digits_value, is_digit, pow10, string_of};
use crate::variables::{HostRequest, RequestSpec};

verus! {

/// Why a built-in token could not be filled.
#[derive(Debug, Clone, Copy, PartialEq, Eq, Structural)]
pub enum ExpandError {
    /// `random:N` where `N` is not a whole number from 1 to 20.
    InvalidRandomDigits,
    /// A time format that does not parse.
    InvalidTimeFormat,
}

/// The count of digits that `random:` asks for: an optional `+`, then decimal
/// digits, denoting a number from 1 to 20.
pub open spec fn random_width(a: Seq<char>) -> Option<nat> {
    let d = if a.len() > 0 && a[0] == '+' {
        a.drop_first()
    } else {
        a
    };
    if d.len() > 0 && all_digits(d) && 1 <= digits_value(d) <= 20 {
        Some(digits_value(d))
    } else {
        None
    }
}

fn random_width_of(a: &Vec<char>) -> (r: Option<usize>)
    ensures
        match r {
            Some(n) => random_width(a@) == Some(n as nat),
            None => random_width(a@) is None,
        },
{
    let start: usize = if a.len() > 0 && a[0] == '+' {
        1
    } else {
        0
    };
    let ghost d = a@.subrange(start as int, a.len() as int);
    assert(start == 1 ==> d =~= a@.drop_first());
    assert(start == 0 ==> d =~= a@);
    if start >= a.len() {
        assert(d.len() == 0);
        return None;
    }
    let mut v: u64 = 0;
    let mut i: usize = start;
    while i < a.len()
        invariant
            start <= i <= a.len(),
            d == a@.subrange(start as int, a.len() as int),
            d == (if a@.len() > 0 && a@[0] == '+' {
                a@.drop_first()
            } else {
                a@
            }),
            all_digits(a@.subrange(start as int, i as int)),
            v as nat == if digits_value(a@.subrange(start as int, i as int)) <= 21 {
                digits_value(a@.subrange(start as int, i as int))
            } else {
                21
            },
        decreases a.len() - i,
    {
        let c = a[i];
        if !('0' <= c && c <= '9') {
            assert(d[i - start] == c);
            assert(!is_digit(d[i - start]));
            assert(!all_digits(d));
            return None;
        }
        let ghost before = a@.subrange(start as int, i as int);
        let ghost after = a@.subrange(start as int, i + 1);
        assert(after.drop_last() =~= before);
        assert(after.last() == c);
        let dig = (c as u32 - '0' as u32) as u64;
        proof {
            let bv = digits_value(before);
            assert(digits_value(after) == bv * 10 + dig);
            if bv > 21 {
                assert(bv * 10 >= 21) by (nonlinear_arith)
                    requires
                        bv > 21,
                ;
            }
        }
        v = if v * 10 + dig > 21 {
            21
        } else {
            v * 10 + dig
        };
        i += 1;
        assert(all_digits(after));
    }
    assert(a@.subrange(start as int, a.len() as int) == d);
    if v >= 1 && v <= 20 {
        Some(v as usize)
    } else {
        None
    }
}

/// Relies on rand's `thread_rng` and `Rng::gen_range`: a value in `lo..hi`;
/// `gen_range` panics on an empty range.
#[verifier::external_body]
fn random_in(lo: u128, hi: u128) -> (r: u128)
    requires
        lo < hi,
    ensures
        lo <= r < hi,
{
    rand::Rng::gen_range(&mut rand::thread_rng(), lo..hi)
}

fn pow10_u128(n: usize) -> (r: u128)
    requires
        n <= 20,
    ensures
        r == pow10(n as nat),
{
    let mut r: u128 = 1;
    let mut i: usize = 0;
    while i < n
        invariant
            i <= n <= 20,
            r == pow10(i as nat),
        decreases n - i,
    {
        proof {
            lemma_pow10_mono(i as nat, 19);
            reveal_with_fuel(pow10, 20);
            assert(pow10(19) == 10000000000000000000u128);
        }
        r = r * 10;
        i += 1;
    }
    r
}

proof fn lemma_pow10_mono(a: nat, b: nat)
    requires
        a <= b,
    ensures
        pow10(a) <= pow10(b),
    decreases b,
{
    if a < b {
        lemma_pow10_mono(a, (b - 1) as nat);
    }
}

proof fn lemma_pow10_pos(a: nat)
    ensures
        pow10(a) >= 1,
    decreases a,
{
    if a > 0 {
        lemma_pow10_pos((a - 1) as nat);
    }
}

/// The digits of `d + s`, as a number: the leading digit counts `10^|s|` times.
proof fn lemma_digits_value_prepend(c: char, s: Seq<char>)
    ensures
        digits_value(seq![c] + s) == digit_value(c) * pow10(s.len()) + digits_value(s),
    decreases s.len(),
{
    let t = seq![c] + s;
    if s.len() == 0 {
        assert(t.drop_last() =~= Seq::<char>::empty());
        assert(t.last() == c);
        assert(digits_value(t) == digits_value(t.drop_last()) * 10 + digit_value(c));
        assert(seq![c] + s =~= seq![c]);
        assert(digits_value(Seq::<char>::empty()) == 0);
        assert(pow10(0) == 1);
        assert(digits_value(s) == 0);
        assert(digits_value(t) == digit_value(c));
    } else {
        assert(t.drop_last() =~= seq![c] + s.drop_last());
        assert(t.last() == s.last());
        assert(digits_value(t) == digits_value(t.drop_last()) * 10 + digit_value(t.last()));
        assert(digits_value(s) == digits_value(s.drop_last()) * 10 + digit_value(s.last()));
        lemma_digits_value_prepend(c, s.drop_last());
        let p = pow10(s.drop_last().len());
        assert(pow10(s.len()) == 10 * p);
        let dv = digit_value(c);
        let rest = digits_value(s.drop_last());
        assert((dv * p + rest) * 10 + digit_value(s.last()) == dv * (10 * p) + (rest * 10
            + digit_value(s.last()))) by (nonlinear_arith);
        assert(digits_value(t.drop_last()) == dv * p + rest);
        assert(digits_value(t) == dv * pow10(s.len()) + digits_value(s));
    }
}

/// The last `width` decimal digits of `n`, with leading zeros.
fn padded_digits(n: u128, width: usize) -> (r: Vec<char>)
    requires
        n < pow10(width as nat),
    ensures
        r@.len() == width,
        all_digits(r@),
        digits_value(r@) == n,
{
    let mut out: Vec<char> = Vec::new();
    let mut m = n;
    let mut i: usize = 0;
    assert(digits_value(out@) == 0);
    assert(pow10(0) == 1);
    assert(n == m * pow10(0) + digits_value(out@));
    while i < width
        invariant
            i <= width,
            out@.len() == i,
            all_digits(out@),
            n == m * pow10(i as nat) + digits_value(out@),
            n < pow10(width as nat),
        decreases width - i,
    {
        let d = (m % 10) as u8;
        let c = (48u8 + d) as char;
        let ghost before = out@;
        out.insert(0, c);
        assert(out@ =~= seq![c] + before);
        assert forall|k: int| 0 <= k < out@.len() implies is_digit(#[trigger] out@[k]) by {
            if k > 0 {
                assert(out@[k] == before[k - 1]);
            }
        }
        proof {
            lemma_digits_value_prepend(c, before);
            assert(digit_value(c) == d);
            let p = pow10(i as nat);
            assert(pow10(i as nat + 1) == 10 * p);
            let mm = m as int;
            assert(mm == (mm / 10) * 10 + mm % 10) by (nonlinear_arith);
            assert(mm * p == (mm / 10) * (10 * p) + (mm % 10) * p) by (nonlinear_arith)
                requires
                    mm == (mm / 10) * 10 + mm % 10,
            ;
        }
        m = m / 10;
        i += 1;
    }
    proof {
        if m > 0 {
            assert(m * pow10(width as nat) >= pow10(width as nat)) by (nonlinear_arith)
                requires
                    m > 0,
            ;
        }
    }
    out
}

/// A lowercase hexadecimal digit.
pub open spec fn is_lower_hex(c: char) -> bool {
    ('0' <= c <= '9') || ('a' <= c <= 'f')
}

/// The hyphenated text of a version-4 UUID: 36 characters, hyphens at 8, 13,
/// 18 and 23, lowercase hexadecimal elsewhere, the version digit `4` at 14
/// and a variant digit (`8`, `9`, `a` or `b`) at 19.
pub open spec fn is_uuid_v4_text(s: Seq<char>) -> bool {
    &&& s.len() == 36
    &&& forall|i: int|
        0 <= i < 36 ==> if i == 8 || i == 13 || i == 18 || i == 23 {
            #[trigger] s[i] == '-'
        } else {
            is_lower_hex(s[i])
        }
    &&& s[14] == '4'
    &&& (s[19] == '8' || s[19] == '9' || s[19] == 'a' || s[19] == 'b')
}

/// Relies on the uuid crate's `Uuid::new_v4`, which sets the version and
/// variant bits, and its `Display`, which writes the lowercase hyphenated form.
#[verifier::external_body]
fn new_uuid_text() -> (r: String)
    ensures
        is_uuid_v4_text(r@),
{
    uuid::Uuid::new_v4().to_string()
}

/// What chrono's strftime parser says of a format: whether every item parses.
pub uninterp spec fn time_format_valid(fmt: Seq<char>) -> bool;

/// Relies on chrono's `Local::now` and `DateTime::format`: the local time in
/// a strftime format, or nothing where the format does not parse.
#[verifier::external_body]
fn local_time_text(fmt: &str) -> (r: Option<String>)
    ensures
        r is Some <==> time_format_valid(fmt@),
{
    let mut s = String::new();
    match write!(s, "{}", chrono::Local::now().format(fmt)) {
        Ok(()) => Some(s),
        Err(_) => None,
    }
}

/// Fills a request from a built-in source: the clock, a random number or a
/// UUID. The clipboard, the environment and the shell are the host's; for
/// them the result is `None`.
pub fn resolve_builtin(req: &HostRequest) -> (r: Option<Result<String, ExpandError>>)
    ensures
        match req@ {
            RequestSpec::Clock(f) => r matches Some(x) && (x is Ok <==> time_format_valid(f)) && (
            x is Err ==> x == Err::<String, ExpandError>(ExpandError::InvalidTimeFormat)),
            RequestSpec::Random(a) => match random_width(a) {
                Some(n) => r matches Some(Ok(s)) && s@.len() == n && all_digits(s@) && (if n == 1 {
                    0
                } else {
                    pow10((n - 1) as nat)
                }) <= digits_value(s@) < pow10(n),
                None => r == Some(Err::<String, ExpandError>(ExpandError::InvalidRandomDigits)),
            },
            RequestSpec::Uuid => r matches Some(Ok(s)) && is_uuid_v4_text(s@),
            _ => r is None,
        },
{
    match req {
        HostRequest::Clock(f) => match local_time_text(f.as_str()) {
            Some(s) => Some(Ok(s)),
            None => Some(Err(ExpandError::InvalidTimeFormat)),
        },
        HostRequest::Random(a) => {
            let ac = chars_of(a.as_str());
            match random_width_of(&ac) {
                Some(n) => {
                    let lo: u128 = if n == 1 {
                        0
                    } else {
                        pow10_u128(n - 1)
                    };
                    let hi = pow10_u128(n);
                    proof {
                        lemma_pow10_pos((n - 1) as nat);
                        assert(pow10(n as nat) == 10 * pow10((n - 1) as nat));
                    }
                    let v = random_in(lo, hi);
                    Some(Ok(string_of(&padded_digits(v, n))))
                },
                None => Some(Err(ExpandError::InvalidRandomDigits)),
            }
        },
        HostRequest::Uuid => Some(Ok(new_uuid_text())),
        _ => None,
    }
}

} // verus!

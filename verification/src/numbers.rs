//! Numeric payload parsing for playlist tags.
//!
//! Two payload shapes occur: an unsigned 64-bit integer (the version and
//! target-duration tags, accepted exactly as `u64::from_str` does: an
//! optional leading `'+'` followed by one or more ASCII digits, value at
//! most `u64::MAX`) and a decimal seconds value (the segment-info tag:
//! digits, optionally a `'.'` and further digits, at least one digit in
//! all; fractional digits beyond the ninth are dropped). Both parses are
//! verified against specification functions over the character sequence.

use vstd::prelude::*;
use vstd::string::StrSliceExecFns;

use crate::duration::{Duration, NANOS_PER_SEC};
use crate::text::{find_char, first_index};

verus! {

/// `c` is an ASCII digit.
pub open spec fn is_digit(c: char) -> bool {
    48 <= c as u32 <= 57
}

/// Numeric value of an ASCII digit.
pub open spec fn digit_val(c: char) -> int {
    c as u32 - 48
}

/// Every character of `s` is an ASCII digit.
pub open spec fn all_digits(s: Seq<char>) -> bool {
    forall|i: int| 0 <= i < s.len() ==> is_digit(s[i])
}

/// The base-ten value of a digit run, most significant digit first.
pub open spec fn digits_val(s: Seq<char>) -> int
    decreases s.len(),
{
    if s.len() == 0 {
        0
    } else {
        digits_val(s.drop_last()) * 10 + digit_val(s.last())
    }
}

/// Ten to the power `n`.
pub open spec fn pow10(n: nat) -> int
    decreases n,
{
    if n == 0 {
        1
    } else {
        10 * pow10((n - 1) as nat)
    }
}

pub proof fn lemma_pow10_pos(n: nat)
    ensures
        pow10(n) >= 1,
    decreases n,
{
    if n > 0 {
        lemma_pow10_pos((n - 1) as nat);
    }
}

pub proof fn lemma_pow10_mono(a: nat, b: nat)
    requires
        a <= b,
    ensures
        pow10(a) <= pow10(b),
    decreases b,
{
    if a < b {
        lemma_pow10_mono(a, (b - 1) as nat);
        lemma_pow10_pos((b - 1) as nat);
    }
}

pub proof fn lemma_pow10_add(a: nat, b: nat)
    ensures
        pow10(a) * pow10(b) == pow10((a + b) as nat),
    decreases a,
{
    if a == 0 {
        assert(pow10(0) * pow10(b) == pow10(b));
    } else {
        lemma_pow10_add((a - 1) as nat, b);
        assert(pow10(a) * pow10(b) == 10 * (pow10((a - 1) as nat) * pow10(b)))
            by (nonlinear_arith)
            requires
                pow10(a) == 10 * pow10((a - 1) as nat),
        ;
    }
}

/// A run of digits has a non-negative value.
pub proof fn lemma_digits_val_nonneg(s: Seq<char>)
    requires
        all_digits(s),
    ensures
        digits_val(s) >= 0,
    decreases s.len(),
{
    if s.len() > 0 {
        assert forall|i: int| 0 <= i < s.drop_last().len() implies is_digit(
            s.drop_last()[i],
        ) by {
            assert(s.drop_last()[i] == s[i]);
        }
        lemma_digits_val_nonneg(s.drop_last());
        assert(is_digit(s.last()));
    }
}

/// A run of `n` digits has a value below ten to the `n`.
pub proof fn lemma_digits_val_lt_pow10(s: Seq<char>)
    requires
        all_digits(s),
    ensures
        digits_val(s) < pow10(s.len()),
    decreases s.len(),
{
    if s.len() > 0 {
        assert forall|i: int| 0 <= i < s.drop_last().len() implies is_digit(
            s.drop_last()[i],
        ) by {
            assert(s.drop_last()[i] == s[i]);
        }
        lemma_digits_val_lt_pow10(s.drop_last());
        assert(is_digit(s.last()));
    }
}

/// Extending a digit run to the right never lowers its value.
pub proof fn lemma_digits_val_extend(s: Seq<char>, k: int)
    requires
        all_digits(s),
        0 <= k <= s.len(),
    ensures
        digits_val(s.take(k)) <= digits_val(s),
    decreases s.len() - k,
{
    if k == s.len() {
        assert(s.take(k) =~= s);
    } else {
        lemma_digits_val_extend(s, k + 1);
        assert(s.take(k + 1).drop_last() =~= s.take(k));
        assert(s.take(k + 1).last() == s[k]);
        assert forall|i: int| 0 <= i < k implies is_digit(s.take(k)[i]) by {
            assert(s.take(k)[i] == s[i]);
        }
        lemma_digits_val_nonneg(s.take(k));
        assert(is_digit(s[k]));
    }
}

/// The digit run that `u64::from_str` reads: the input with one leading
/// `'+'` removed, if present.
pub open spec fn u64_digits(s: Seq<char>) -> Seq<char> {
    if s.len() > 0 && s[0] == '+' {
        s.subrange(1, s.len() as int)
    } else {
        s
    }
}

/// The value of a plain digit run, if it is one and fits in a `u64`.
pub open spec fn spec_parse_digits(s: Seq<char>) -> Option<u64> {
    if s.len() >= 1 && all_digits(s) && digits_val(s) <= u64::MAX {
        Some(digits_val(s) as u64)
    } else {
        None
    }
}

/// What `u64::from_str` returns on `s`: an optional leading `'+'`, then
/// one or more digits, value at most `u64::MAX`.
pub open spec fn spec_parse_u64(s: Seq<char>) -> Option<u64> {
    spec_parse_digits(u64_digits(s))
}

/// Nanoseconds encoded by a fractional-digit run: the first nine digits,
/// padded with zeros up to nine places; further digits are dropped.
pub open spec fn frac_nanos(frac: Seq<char>) -> int {
    let f9 = if frac.len() <= 9 {
        frac
    } else {
        frac.take(9)
    };
    digits_val(f9) * pow10((9 - f9.len()) as nat)
}

/// The duration a decimal seconds payload denotes: digits, optionally a
/// `'.'` and further digits, at least one digit in all, whole-second part
/// at most `u64::MAX`.
pub open spec fn spec_parse_seconds(s: Seq<char>) -> Option<Duration> {
    let dot = first_index(s, '.');
    let ip = s.take(dot);
    let fp = if dot == s.len() {
        Seq::<char>::empty()
    } else {
        s.subrange(dot + 1, s.len() as int)
    };
    if all_digits(ip) && all_digits(fp) && ip.len() + fp.len() >= 1 && digits_val(ip)
        <= u64::MAX {
        Some(Duration { secs: digits_val(ip) as u64, nanos: frac_nanos(fp) as u32 })
    } else {
        None
    }
}

/// The fractional part always yields fewer than one second of nanoseconds.
pub proof fn lemma_frac_nanos_bound(frac: Seq<char>)
    requires
        all_digits(frac),
    ensures
        0 <= frac_nanos(frac) < 1_000_000_000,
{
    let f9 = if frac.len() <= 9 {
        frac
    } else {
        frac.take(9)
    };
    assert forall|i: int| 0 <= i < f9.len() implies is_digit(f9[i]) by {
        assert(f9[i] == frac[i]);
    }
    lemma_digits_val_lt_pow10(f9);
    lemma_digits_val_nonneg(f9);
    let l = f9.len();
    let pad = (9 - l) as nat;
    lemma_pow10_pos(pad);
    assert(digits_val(f9) * pow10(pad) >= 0) by (nonlinear_arith)
        requires
            digits_val(f9) >= 0,
            pow10(pad) >= 1,
    ;
    assert(digits_val(f9) * pow10(pad) <= (pow10(l) - 1) * pow10(pad)) by (nonlinear_arith)
        requires
            digits_val(f9) <= pow10(l) - 1,
            pow10(pad) >= 1,
    ;
    assert((pow10(l) - 1) * pow10(pad) == pow10(l) * pow10(pad) - pow10(pad))
        by (nonlinear_arith);
    lemma_pow10_add(l, pad);
    assert(pow10(9nat) == 1_000_000_000) by {
        reveal_with_fuel(pow10, 10);
    }
}

/// Reads a plain digit run as a `u64`, proved against
/// [`spec_parse_digits`].
pub fn parse_digits_u64(d: &str) -> (r: Option<u64>)
    ensures
        r == spec_parse_digits(d@),
{
    let len = d.unicode_len();
    if len == 0 {
        return None;
    }
    let mut acc: u64 = 0;
    let mut i: usize = 0;
    while i < len
        invariant
            0 <= i <= len,
            len == d@.len(),
            forall|k: int| 0 <= k < i ==> is_digit(d@[k]),
            acc == digits_val(d@.take(i as int)),
        decreases len - i,
    {
        let cv = d.get_char(i) as u32;
        if cv < 48 || cv > 57 {
            proof {
                assert(!is_digit(d@[i as int]));
            }
            return None;
        }
        let dv = (cv - 48) as u64;
        proof {
            assert(d@.take(i + 1).drop_last() =~= d@.take(i as int));
            assert(d@.take(i + 1).last() == d@[i as int]);
            assert(digits_val(d@.take(i + 1)) == acc * 10 + dv);
        }
        let step = match acc.checked_mul(10) {
            Some(m) => m.checked_add(dv),
            None => None,
        };
        match step {
            Some(n) => {
                acc = n;
            },
            None => {
                proof {
                    assert(digits_val(d@.take(i + 1)) > u64::MAX);
                    if all_digits(d@) {
                        lemma_digits_val_extend(d@, i + 1);
                    }
                }
                return None;
            },
        }
        i += 1;
    }
    proof {
        assert(d@.take(len as int) =~= d@);
        assert(all_digits(d@));
    }
    Some(acc)
}

/// Reads an unsigned decimal integer as `u64::from_str` does, proved
/// against [`spec_parse_u64`].
pub fn parse_u64(s: &str) -> (r: Option<u64>)
    ensures
        r == spec_parse_u64(s@),
{
    let len = s.unicode_len();
    if len > 0 && s.get_char(0) == '+' {
        let d = s.substring_char(1, len);
        proof {
            assert(d@ =~= u64_digits(s@));
        }
        parse_digits_u64(d)
    } else {
        parse_digits_u64(s)
    }
}

/// Reads a fractional-digit run as nanoseconds, or reports that some
/// character is not a digit.
fn parse_frac_nanos(f: &str) -> (r: Option<u32>)
    ensures
        match r {
            Some(n) => all_digits(f@) && n == frac_nanos(f@) && n < NANOS_PER_SEC,
            None => !all_digits(f@),
        },
{
    let len = f.unicode_len();
    let mut i: usize = 0;
    while i < len
        invariant
            0 <= i <= len,
            len == f@.len(),
            forall|k: int| 0 <= k < i ==> is_digit(f@[k]),
        decreases len - i,
    {
        let cv = f.get_char(i) as u32;
        if cv < 48 || cv > 57 {
            proof {
                assert(!is_digit(f@[i as int]));
            }
            return None;
        }
        i += 1;
    }
    proof {
        assert(all_digits(f@));
    }
    let ghost f9 = if f@.len() <= 9 {
        f@
    } else {
        f@.take(9)
    };
    let cap = if len > 9 {
        9
    } else {
        len
    };
    proof {
        assert(f9 =~= f@.take(cap as int));
        assert forall|k: int| 0 <= k < f9.len() implies is_digit(f9[k]) by {
            assert(f9[k] == f@[k]);
        }
        assert(pow10(9nat) == 1_000_000_000) by {
            reveal_with_fuel(pow10, 10);
        }
        assert(pow10(8nat) == 100_000_000) by {
            reveal_with_fuel(pow10, 9);
        }
    }
    let mut acc: u32 = 0;
    let mut j: usize = 0;
    while j < cap
        invariant
            0 <= j <= cap,
            cap <= 9,
            cap == f9.len(),
            len == f@.len(),
            cap <= len,
            all_digits(f@),
            f9 == (if f@.len() <= 9 {
                f@
            } else {
                f@.take(9)
            }),
            f9 =~= f@.take(cap as int),
            acc == digits_val(f9.take(j as int)),
            pow10(8nat) == 100_000_000,
        decreases cap - j,
    {
        let cv = f.get_char(j) as u32;
        proof {
            assert(f9[j as int] == f@[j as int]);
            assert(is_digit(f@[j as int]));
        }
        let dv = cv - 48;
        proof {
            assert forall|k: int| 0 <= k < j implies is_digit(f9.take(j as int)[k]) by {
                assert(f9.take(j as int)[k] == f9[k]);
            }
            lemma_digits_val_lt_pow10(f9.take(j as int));
            lemma_pow10_mono(j as nat, 8nat);
            assert(f9.take(j as int).len() == j);
            assert(acc < 100_000_000);
            assert(f9.take(j + 1).drop_last() =~= f9.take(j as int));
            assert(f9.take(j + 1).last() == f9[j as int]);
        }
        acc = acc * 10 + dv;
        j += 1;
    }
    proof {
        assert(f9.take(cap as int) =~= f9);
        lemma_digits_val_lt_pow10(f9);
        lemma_digits_val_nonneg(f9);
    }
    let mut m: usize = cap;
    while m < 9
        invariant
            cap <= m <= 9,
            cap == f9.len(),
            acc == digits_val(f9) * pow10((m - cap) as nat),
            acc < pow10(m as nat),
            pow10(9nat) == 1_000_000_000,
        decreases 9 - m,
    {
        proof {
            lemma_pow10_mono((m + 1) as nat, 9nat);
            assert(pow10((m + 1) as nat) == 10 * pow10(m as nat));
            assert(digits_val(f9) * pow10((m + 1 - cap) as nat) == (digits_val(f9) * pow10(
                (m - cap) as nat,
            )) * 10) by (nonlinear_arith)
                requires
                    pow10((m + 1 - cap) as nat) == 10 * pow10((m - cap) as nat),
            ;
        }
        acc = acc * 10;
        m += 1;
    }
    proof {
        assert(acc == frac_nanos(f@));
        lemma_frac_nanos_bound(f@);
    }
    Some(acc)
}

/// Reads a decimal seconds payload, proved against
/// [`spec_parse_seconds`].
pub fn parse_seconds(s: &str) -> (r: Option<Duration>)
    ensures
        r == spec_parse_seconds(s@),
{
    let len = s.unicode_len();
    let dot = find_char(s, '.');
    if dot == 0 && dot + 1 >= len {
        // "" or ".": no digit at all
        return None;
    }
    let secs: u64;
    if dot == 0 {
        proof {
            assert(s@.take(0) =~= Seq::<char>::empty());
        }
        secs = 0;
    } else {
        let ip = s.substring_char(0, dot);
        proof {
            assert(ip@ =~= s@.take(dot as int));
        }
        match parse_digits_u64(ip) {
            Some(v) => {
                secs = v;
            },
            None => {
                return None;
            },
        }
    }
    let nanos: u32;
    if dot < len {
        let fp = s.substring_char(dot + 1, len);
        proof {
            assert(fp@ =~= s@.subrange(dot + 1, len as int));
        }
        match parse_frac_nanos(fp) {
            Some(n) => {
                nanos = n;
            },
            None => {
                return None;
            },
        }
    } else {
        nanos = 0;
    }
    Some(Duration { secs, nanos })
}

} // verus!

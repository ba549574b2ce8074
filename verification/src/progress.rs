//! The progress parser: turns one line of the external tool's output into an
//! optional normalized progress value, in micro-units (`PROGRESS_ONE` of the
//! model is a full download).
//!
//! A progress line has the exact form `downloaded_bytes:<percent>%`, with
//! ASCII whitespace tolerated around the number. The value is the percentage
//! divided by one hundred; a percentage carries at most four fractional
//! digits of precision (one hundredth of a percent is one hundred
//! micro-units, so the fourth fractional digit is exactly one micro-unit),
//! deeper digits are truncated. Any other line is silently ignored.

use vstd::prelude::*;
use vstd::string::*;

verus! {

/// ASCII whitespace, the only whitespace the external tool emits.
pub open spec fn is_space(c: char) -> bool {
    c == ' ' || c == '\t' || c == '\n' || c == '\r'
}

/// A decimal digit.
pub open spec fn is_digit(c: char) -> bool {
    '0' <= c && c <= '9'
}

/// Numeric value of a decimal digit.
pub open spec fn digit_val(c: char) -> int {
    c as int - '0' as int
}

/// `s` without its leading whitespace.
pub open spec fn trim_start(s: Seq<char>) -> Seq<char>
    decreases s.len(),
{
    if s.len() > 0 && is_space(s[0]) {
        trim_start(s.drop_first())
    } else {
        s
    }
}

/// `s` without its trailing whitespace.
pub open spec fn trim_end(s: Seq<char>) -> Seq<char>
    decreases s.len(),
{
    if s.len() > 0 && is_space(s.last()) {
        trim_end(s.drop_last())
    } else {
        s
    }
}

/// Index of the first decimal point in `s`; `s.len()` when there is none.
pub open spec fn first_dot(s: Seq<char>) -> int
    decreases s.len(),
{
    if s.len() == 0 {
        0
    } else if s[0] == '.' {
        0
    } else {
        1 + first_dot(s.drop_first())
    }
}

/// `s` is a plain decimal numeral: digits with at most one decimal point and
/// at least one digit.
pub open spec fn numeral_wf(s: Seq<char>) -> bool {
    &&& s.len() > 0
    &&& forall|i: int| 0 <= i < s.len() ==> is_digit(s[i]) || s[i] == '.'
    &&& forall|i: int| first_dot(s) < i < s.len() ==> s[i] != '.'
    &&& (first_dot(s) < s.len() ==> s.len() > 1)
}

/// Value of a digit string read as a decimal integer.
pub open spec fn digits_val(s: Seq<char>) -> int
    decreases s.len(),
{
    if s.len() == 0 {
        0
    } else {
        10 * digits_val(s.drop_last()) + digit_val(s.last())
    }
}

/// Ten to the `n`th power.
pub open spec fn pow10(n: nat) -> int
    decreases n,
{
    if n == 0 {
        1
    } else {
        10 * pow10((n - 1) as nat)
    }
}

/// Micro-units contributed by the fractional digits `s` of a percentage: the
/// first four fractional digits, padded with zeros on the right; anything
/// deeper is below one micro-unit and is truncated.
pub open spec fn frac_micros(s: Seq<char>) -> int {
    if s.len() >= 4 {
        digits_val(s.take(4))
    } else {
        digits_val(s) * pow10((4 - s.len()) as nat)
    }
}

/// Micro-units denoted by the percentage numeral `s`: one percent is ten
/// thousand micro-units.
pub open spec fn numeral_micros(s: Seq<char>) -> int {
    let d = first_dot(s);
    if d == s.len() {
        digits_val(s) * 10000
    } else {
        digits_val(s.take(d)) * 10000 + frac_micros(s.subrange(d + 1, s.len() as int))
    }
}

/// A value too large for `u64` saturates; the registry clamps anything past a
/// full download anyway.
pub open spec fn sat_u64(x: int) -> u64 {
    if x > u64::MAX {
        u64::MAX
    } else {
        x as u64
    }
}

/// What parsing a bare percentage numeral yields.
pub open spec fn parse_numeral_spec(s: Seq<char>) -> Option<u64> {
    if numeral_wf(s) {
        Some(sat_u64(numeral_micros(s)))
    } else {
        None
    }
}

/// What `parse_progress_from_line` returns, stated over the characters of the
/// line.
pub open spec fn parse_progress_spec(line: Seq<char>) -> Option<u64> {
    let p = "downloaded_bytes:"@;
    if line.len() < p.len() || line.subrange(0, p.len() as int) != p {
        None
    } else {
        let t = trim_end(trim_start(line.subrange(p.len() as int, line.len() as int)));
        if t.len() == 0 || t.last() != '%' {
            None
        } else {
            parse_numeral_spec(trim_end(t.drop_last()))
        }
    }
}

proof fn lemma_first_dot_at(s: Seq<char>, d: int)
    requires
        0 <= d <= s.len(),
        forall|j: int| 0 <= j < d ==> s[j] != '.',
        d < s.len() ==> s[d] == '.',
    ensures
        first_dot(s) == d,
    decreases d,
{
    if d == 0 {
    } else {
        assert(s[0] != '.');
        lemma_first_dot_at(s.drop_first(), d - 1);
    }
}

proof fn lemma_digits_val_nonneg(s: Seq<char>)
    requires
        forall|j: int| 0 <= j < s.len() ==> is_digit(s[j]),
    ensures
        digits_val(s) >= 0,
    decreases s.len(),
{
    if s.len() > 0 {
        lemma_digits_val_nonneg(s.drop_last());
    }
}

proof fn lemma_digits_val_step(s: Seq<char>, i: int)
    requires
        0 <= i < s.len(),
    ensures
        digits_val(s.take(i + 1)) == 10 * digits_val(s.take(i)) + digit_val(s[i]),
{
    assert(s.take(i + 1).drop_last() =~= s.take(i));
    assert(s.take(i + 1).last() == s[i]);
}

/// Parses a bare decimal percentage numeral into micro-units, saturating at
/// `u64::MAX`.
fn parse_numeral_micros(s: &str) -> (r: Option<u64>)
    ensures
        r == parse_numeral_spec(s@),
{
    let n = s.unicode_len();
    if n == 0 {
        return None;
    }
    // Validate the shape and locate the decimal point.
    let mut dot: usize = n;
    let mut i: usize = 0;
    while i < n
        invariant
            0 <= i <= n,
            n == s@.len(),
            dot <= n,
            forall|j: int| 0 <= j < i ==> is_digit(#[trigger] s@[j]) || s@[j] == '.',
            dot == n ==> forall|j: int| 0 <= j < i ==> #[trigger] s@[j] != '.',
            dot < n ==> dot < i && s@[dot as int] == '.',
            dot < n ==> forall|j: int| 0 <= j < i && j != dot ==> #[trigger] s@[j] != '.',
        decreases n - i,
    {
        let c = s.get_char(i);
        if c == '.' {
            if dot < n {
                // A second decimal point: not a numeral.
                proof {
                    lemma_first_dot_at(s@, dot as int);
                    assert(!numeral_wf(s@));
                }
                return None;
            }
            dot = i;
        } else {
            let u = c as u32;
            if u < 48 || u > 57 {
                proof {
                    assert(!is_digit(s@[i as int]) && s@[i as int] != '.');
                    assert(!numeral_wf(s@));
                }
                return None;
            }
            assert(is_digit(s@[i as int]));
        }
        i += 1;
    }
    proof {
        lemma_first_dot_at(s@, dot as int);
    }
    if dot < n && n == 1 {
        proof {
            assert(!numeral_wf(s@));
        }
        return None;
    }
    assert(numeral_wf(s@));

    // Integer part, saturating at u64::MAX.
    let mut acc: u64 = 0;
    let mut i: usize = 0;
    proof {
        assert(s@.take(0) =~= Seq::<char>::empty());
    }
    while i < dot
        invariant
            0 <= i <= dot <= n,
            n == s@.len(),
            forall|j: int| 0 <= j < n && j != dot ==> is_digit(#[trigger] s@[j]),
            acc == sat_u64(digits_val(s@.take(i as int))),
        decreases dot - i,
    {
        let c = s.get_char(i);
        let d = (c as u32 - 48) as u64;
        proof {
            assert(is_digit(s@[i as int]));
            assert(d == digit_val(s@[i as int]));
            lemma_digits_val_step(s@, i as int);
            assert(forall|j: int| 0 <= j < s@.take(i as int).len() ==> is_digit(
                #[trigger] s@.take(i as int)[j],
            ));
            lemma_digits_val_nonneg(s@.take(i as int));
        }
        acc = match acc.checked_mul(10) {
            Some(m) => match m.checked_add(d) {
                Some(a) => a,
                None => u64::MAX,
            },
            None => u64::MAX,
        };
        i += 1;
    }

    // Fractional part: exactly four digits, padded or truncated.
    let mut f: u64 = 0;
    let ghost frac: Seq<char> = if (dot as int) < n as int {
        s@.subrange(dot as int + 1, n as int)
    } else {
        Seq::<char>::empty()
    };
    proof {
        assert(frac.take(0) =~= Seq::<char>::empty());
        assert(forall|j: int| 0 <= j < frac.len() ==> is_digit(#[trigger] frac[j]));
    }
    let mut k: usize = 0;
    while k < 4
        invariant
            0 <= k <= 4,
            n == s@.len(),
            dot <= n,
            frac == if (dot as int) < n as int {
                s@.subrange(dot as int + 1, n as int)
            } else {
                Seq::<char>::empty()
            },
            forall|j: int| 0 <= j < n && j != dot ==> is_digit(#[trigger] s@[j]),
            f == if k <= frac.len() {
                digits_val(frac.take(k as int))
            } else {
                digits_val(frac) * pow10((k - frac.len()) as nat)
            },
            0 <= f < pow10(k as nat),
        decreases 4 - k,
    {
        proof {
            assert(pow10(k as nat + 1) == 10 * pow10(k as nat));
            assert(pow10(0) == 1);
            assert(pow10(1) == 10);
            assert(pow10(2) == 100);
            assert(pow10(3) == 1000);
        }
        if dot < n && k < n - dot - 1 {
            let c = s.get_char(dot + 1 + k);
            let d = (c as u32 - 48) as u64;
            proof {
                assert(is_digit(s@[dot + 1 + k as int]));
                assert(frac[k as int] == s@[dot + 1 + k as int]);
                assert(d == digit_val(frac[k as int]));
                lemma_digits_val_step(frac, k as int);
            }
            f = f * 10 + d;
        } else {
            proof {
                if k < frac.len() {
                    assert(false);
                }
                if k == frac.len() {
                    assert(frac.take(k as int) =~= frac);
                    assert(f == digits_val(frac));
                    assert(f * 10 == digits_val(frac) * pow10(1));
                } else {
                    let m = (k - frac.len()) as nat;
                    assert(pow10(m + 1) == 10 * pow10(m));
                    assert((digits_val(frac) * pow10(m)) * 10 == digits_val(frac) * (10 * pow10(
                        m,
                    ))) by (nonlinear_arith);
                    assert(f * 10 == digits_val(frac) * pow10(m + 1));
                }
            }
            f = f * 10;
        }
        k += 1;
    }
    proof {
        if frac.len() >= 4 {
            assert(f == digits_val(frac.take(4)));
            assert(f == frac_micros(frac));
        } else {
            assert(f == digits_val(frac) * pow10((4 - frac.len()) as nat));
            assert(f == frac_micros(frac));
        }
        lemma_digits_val_nonneg(s@.take(dot as int));
    }

    // Combine: integer part times ten thousand, plus the fractional part.
    let total = match acc.checked_mul(10000) {
        Some(m) => match m.checked_add(f) {
            Some(t) => t,
            None => u64::MAX,
        },
        None => u64::MAX,
    };
    proof {
        let ipv = digits_val(s@.take(dot as int));
        if dot == n {
            assert(s@.take(dot as int) =~= s@);
            assert(numeral_micros(s@) == digits_val(s@) * 10000);
        } else {
            assert(numeral_micros(s@) == ipv * 10000 + frac_micros(frac));
        }
        assert(total == sat_u64(numeral_micros(s@)));
    }
    Some(total)
}

/// Recognizes an ASCII whitespace character.
fn space(c: char) -> (r: bool)
    ensures
        r == is_space(c),
{
    c == ' ' || c == '\t' || c == '\n' || c == '\r'
}

/// Parses one progress line of the exact form `downloaded_bytes:<percent>%`,
/// returning the progress as micro-units of a full download, or `None` for
/// any other line. Unrecognized lines are expected: the external tool prints
/// plenty of unrelated diagnostics, and the caller ignores them. Values past
/// a full download are passed through unchanged; clamping is the registry's
/// responsibility.
#[verifier::loop_isolation(false)]
pub fn parse_progress_from_line(line: &str) -> (r: Option<u64>)
    ensures
        r == parse_progress_spec(line@),
{
    let prefix = "downloaded_bytes:";
    let plen = prefix.unicode_len();
    let n = line.unicode_len();
    proof {
        assert(prefix@ == "downloaded_bytes:"@);
    }
    if n < plen {
        return None;
    }
    let mut i: usize = 0;
    while i < plen
        invariant
            0 <= i <= plen <= n,
            n == line@.len(),
            plen == prefix@.len(),
            forall|j: int| 0 <= j < i ==> line@[j] == prefix@[j],
        decreases plen - i,
    {
        if line.get_char(i) != prefix.get_char(i) {
            proof {
                if line@.subrange(0, plen as int) == prefix@ {
                    assert(line@.subrange(0, plen as int)[i as int] == line@[i as int]);
                    assert(false);
                }
            }
            return None;
        }
        i += 1;
    }
    proof {
        assert(line@.subrange(0, plen as int) =~= prefix@);
    }

    // Trim whitespace around the rest of the line.
    let ghost rest: Seq<char> = line@.subrange(plen as int, n as int);
    let mut lo: usize = plen;
    let mut hi: usize = n;
    while lo < hi && space(line.get_char(lo))
        invariant
            plen <= lo <= hi == n == line@.len(),
            trim_start(rest) == trim_start(line@.subrange(lo as int, n as int)),
            rest == line@.subrange(plen as int, n as int),
        decreases hi - lo,
    {
        proof {
            let sub = line@.subrange(lo as int, n as int);
            assert(sub.drop_first() =~= line@.subrange(lo as int + 1, n as int));
        }
        lo += 1;
    }
    proof {
        assert(trim_start(rest) == line@.subrange(lo as int, n as int));
    }
    while hi > lo && space(line.get_char(hi - 1))
        invariant
            plen <= lo <= hi <= n == line@.len(),
            trim_start(rest) == line@.subrange(lo as int, n as int),
            trim_end(trim_start(rest)) == trim_end(line@.subrange(lo as int, hi as int)),
            rest == line@.subrange(plen as int, n as int),
        decreases hi,
    {
        proof {
            let sub = line@.subrange(lo as int, hi as int);
            assert(sub.last() == line@[hi - 1]);
            assert(sub.drop_last() =~= line@.subrange(lo as int, hi as int - 1));
        }
        hi -= 1;
    }
    let ghost t: Seq<char> = trim_end(trim_start(rest));
    proof {
        assert(t == line@.subrange(lo as int, hi as int));
    }

    // The trimmed text must end in a percent sign.
    if hi == lo {
        return None;
    }
    if line.get_char(hi - 1) != '%' {
        proof {
            assert(t.last() == line@[hi - 1]);
        }
        return None;
    }
    proof {
        assert(t.last() == line@[hi - 1]);
    }
    hi -= 1;
    let ghost tpre: Seq<char> = t.drop_last();
    proof {
        assert(tpre =~= line@.subrange(lo as int, hi as int));
    }

    // Trim whitespace between the number and the percent sign.
    while hi > lo && space(line.get_char(hi - 1))
        invariant
            plen <= lo <= hi <= n == line@.len(),
            tpre == t.drop_last(),
            trim_end(tpre) == trim_end(line@.subrange(lo as int, hi as int)),
        decreases hi,
    {
        proof {
            let sub = line@.subrange(lo as int, hi as int);
            assert(sub.last() == line@[hi - 1]);
            assert(sub.drop_last() =~= line@.subrange(lo as int, hi as int - 1));
        }
        hi -= 1;
    }
    proof {
        assert(trim_end(tpre) == line@.subrange(lo as int, hi as int));
    }
    let num = line.substring_char(lo, hi);
    parse_numeral_micros(num)
}

} // verus!

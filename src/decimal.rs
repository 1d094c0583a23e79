use vstd::prelude::*;
use vstd::string::StringSliceAdditionalSpecFns;

verus! {

/// Number of fractional digits kept by the fixed-point representation.
pub const FRACTION_DIGITS: u64 = 6;

/// One unit expressed in fixed-point steps (10 to the power [`FRACTION_DIGITS`]).
pub const SCALE: u64 = 1_000_000;

/// ASCII code of the decimal point.
pub const DOT: u8 = 46;

/// Whether a byte is an ASCII decimal digit.
pub open spec fn is_digit(b: u8) -> bool {
    48 <= b && b <= 57
}

pub open spec fn all_digits(s: Seq<u8>) -> bool {
    forall|i: int| 0 <= i < s.len() ==> is_digit(#[trigger] s[i])
}

/// The integer that a string of ASCII digits denotes (most significant first).
pub open spec fn digits_value(s: Seq<u8>) -> nat
    decreases s.len(),
{
    if s.len() == 0 {
        0
    } else {
        digits_value(s.drop_last()) * 10 + (s.last() - 48) as nat
    }
}

pub open spec fn pow10(n: nat) -> nat
    decreases n,
{
    if n == 0 {
        1
    } else {
        10 * pow10((n - 1) as nat)
    }
}

/// `s` is `whole '.' frac` with the dot at index `k`: a non-empty run of digits,
/// then one to [`FRACTION_DIGITS`] digits.
pub open spec fn dotted_at(s: Seq<u8>, k: int) -> bool {
    &&& 0 < k < s.len() - 1
    &&& s[k] == DOT
    &&& s.len() - 1 - k <= FRACTION_DIGITS
    &&& all_digits(s.subrange(0, k))
    &&& all_digits(s.subrange(k + 1, s.len() as int))
}

/// The value, in steps of 1 / [`SCALE`], of a decimal literal: digits, optionally
/// followed by a dot and one to [`FRACTION_DIGITS`] digits. No sign, no exponent,
/// no surrounding spaces; `None` for any other text.
pub open spec fn decimal_value(s: Seq<u8>) -> Option<nat> {
    if s.len() > 0 && all_digits(s) {
        Some(digits_value(s) * pow10(FRACTION_DIGITS as nat))
    } else if exists|k: int| dotted_at(s, k) {
        let k = choose|k: int| dotted_at(s, k);
        let frac_len = (s.len() - 1 - k) as nat;
        Some(digits_value(s.subrange(0, k) + s.subrange(k + 1, s.len() as int)) * pow10(
            (FRACTION_DIGITS - frac_len) as nat,
        ))
    } else {
        None
    }
}

/// What [`parse_fixed`] returns for the bytes `s`: the decimal value where it is
/// well formed and fits in a `u64`.
pub open spec fn fixed_of(s: Seq<u8>) -> Option<u64> {
    match decimal_value(s) {
        Some(v) => if v <= u64::MAX {
            Some(v as u64)
        } else {
            None
        },
        None => None,
    }
}

pub proof fn lemma_pow10_positive(n: nat)
    ensures
        pow10(n) >= 1,
    decreases n,
{
    if n > 0 {
        lemma_pow10_positive((n - 1) as nat);
    }
}

/// The bytes of `s` with index `k` left out (all of `s` when `k` is past its end).
pub open spec fn without(s: Seq<u8>, k: int) -> Seq<u8> {
    if 0 <= k < s.len() {
        s.subrange(0, k) + s.subrange(k + 1, s.len() as int)
    } else {
        s
    }
}

/// First value that does not fit in a `u64`; digit runs are read saturating at it.
pub const OVERFLOW: u128 = 0x1_0000_0000_0000_0000;

pub open spec fn saturated(v: nat) -> nat {
    if v < OVERFLOW {
        v
    } else {
        OVERFLOW as nat
    }
}

/// Reads every byte of `b` but the one at `skip` as a digit, saturating at `OVERFLOW`.
fn read_digits(b: &[u8], skip: usize) -> (acc: u128)
    requires
        forall|i: int| 0 <= i < b@.len() && i != skip ==> is_digit(#[trigger] b@[i]),
    ensures
        acc == saturated(digits_value(without(b@, skip as int))),
{
    let n = b.len();
    let mut acc: u128 = 0;
    let mut i: usize = 0;
    while i < n
        invariant
            i <= n == b@.len(),
            forall|j: int| 0 <= j < b@.len() && j != skip ==> is_digit(#[trigger] b@[j]),
            acc == saturated(
                digits_value(
                    if i <= skip {
                        b@.subrange(0, i as int)
                    } else {
                        without(b@.subrange(0, i as int), skip as int)
                    },
                ),
            ),
        decreases n - i,
    {
        let ghost seen = if i <= skip {
            b@.subrange(0, i as int)
        } else {
            without(b@.subrange(0, i as int), skip as int)
        };
        if i != skip {
            let d = b[i] - 48;
            let ghost next = seen.push(b@[i as int]);
            assert(next.drop_last() =~= seen);
            if i < skip {
                assert(b@.subrange(0, i + 1) =~= next);
            } else {
                assert(without(b@.subrange(0, i + 1), skip as int) =~= next);
            }
            assert(digits_value(next) == digits_value(seen) * 10 + d as nat);
            if acc < OVERFLOW {
                acc = acc * 10 + d as u128;
                if acc > OVERFLOW {
                    acc = OVERFLOW;
                }
            } else {
                assert(digits_value(next) >= digits_value(seen));
            }
        } else {
            assert(without(b@.subrange(0, i + 1), skip as int) =~= b@.subrange(0, i as int));
        }
        i = i + 1;
    }
    if skip < n {
        assert(without(b@.subrange(0, n as int), skip as int) =~= without(b@, skip as int));
    } else {
        assert(b@.subrange(0, n as int) =~= b@);
    }
    acc
}

fn pow10_exec(n: u64) -> (r: u128)
    requires
        n <= FRACTION_DIGITS,
    ensures
        r == pow10(n as nat),
        r <= 1_000_000,
{
    let mut r: u128 = 1;
    let mut i: u64 = 0;
    while i < n
        invariant
            i <= n <= FRACTION_DIGITS,
            r == pow10(i as nat),
            r <= 1_000_000,
        decreases n - i,
    {
        assert(pow10((i + 1) as nat) == 10 * pow10(i as nat));
        proof {
            lemma_pow10_le6(i as nat);
        }
        r = r * 10;
        i = i + 1;
        proof {
            lemma_pow10_le6(i as nat);
        }
    }
    r
}

proof fn lemma_pow10_le6(n: nat)
    requires
        n <= 6,
    ensures
        pow10(n) <= 1_000_000,
        n < 6 ==> pow10(n) <= 100_000,
{
    reveal_with_fuel(pow10, 7);
    if n == 0 {
    } else if n == 1 {
    } else if n == 2 {
    } else if n == 3 {
    } else if n == 4 {
    } else if n == 5 {
    }
}

/// Parses a decimal literal (see [`decimal_value`]) into fixed-point steps.
/// `None` where the text is not such a literal or its value exceeds `u64::MAX`.
pub fn parse_fixed(text: &str) -> (r: Option<u64>)
    ensures
        r == fixed_of(text.spec_bytes()),
{
    let b = text.as_bytes();
    let ghost s = b@;
    let n = b.len();
    let mut k: usize = 0;
    while k < n && 48 <= b[k] && b[k] <= 57
        invariant
            k <= n == s.len(),
            s == b@,
            forall|i: int| 0 <= i < k ==> is_digit(#[trigger] s[i]),
        decreases n - k,
    {
        k = k + 1;
    }
    if k == 0 {
        proof {
            assert forall|k2: int| !dotted_at(s, k2) by {
                if dotted_at(s, k2) {
                    assert(s.subrange(0, k2)[0] == s[0]);
                }
            }
            if n > 0 {
                assert(!is_digit(s[0]));
            }
        }
        return None;
    }
    let frac_len: u64;
    if k == n {
        frac_len = 0;
        proof {
            assert(all_digits(s));
        }
    } else {
        proof {
            assert(!all_digits(s)) by {
                assert(!is_digit(s[k as int]));
            }
        }
        if b[k] != DOT {
            proof {
                assert forall|k2: int| !dotted_at(s, k2) by {
                    if dotted_at(s, k2) {
                        if k2 > k {
                            assert(s.subrange(0, k2)[k as int] == s[k as int]);
                        }
                    }
                }
            }
            return None;
        }
        let mut j: usize = k + 1;
        while j < n && 48 <= b[j] && b[j] <= 57
            invariant
                k < j <= n == s.len(),
                s == b@,
                forall|i: int| k < i < j ==> is_digit(#[trigger] s[i]),
            decreases n - j,
        {
            j = j + 1;
        }
        proof {
            // Only index k can hold the dot of a well-formed literal.
            assert forall|k2: int| dotted_at(s, k2) implies k2 == k by {
                if k2 < k {
                    assert(is_digit(s[k2]));
                } else if k2 > k {
                    assert(s.subrange(0, k2)[k as int] == s[k as int]);
                }
            }
        }
        if j < n || n - 1 - k == 0 || n - 1 - k > 6 {
            proof {
                if j < n {
                    assert forall|k2: int| !dotted_at(s, k2) by {
                        if dotted_at(s, k2) {
                            assert(s.subrange(k + 1, n as int)[j - k - 1] == s[j as int]);
                        }
                    }
                }
            }
            return None;
        }
        frac_len = (n - 1 - k) as u64;
        proof {
            assert(all_digits(s.subrange(0, k as int)));
            assert(all_digits(s.subrange(k + 1, n as int)));
            assert(dotted_at(s, k as int));
        }
    }
    let acc = read_digits(b, k);
    let scale = pow10_exec(FRACTION_DIGITS - frac_len);
    proof {
        if k < n {
            let k2 = choose|k2: int| dotted_at(s, k2);
            assert(dotted_at(s, k2));
            assert(k2 == k);
        } else {
            assert(without(s, k as int) == s);
        }
        lemma_pow10_positive((FRACTION_DIGITS - frac_len) as nat);
    }
    if acc >= OVERFLOW {
        proof {
            let v = digits_value(without(s, k as int));
            let p = pow10((FRACTION_DIGITS - frac_len) as nat);
            assert(v * p >= v) by (nonlinear_arith)
                requires
                    p >= 1,
            ;
        }
        return None;
    }
    assert(acc * scale <= 0x1_0000_0000_0000_0000u128 * 1_000_000u128) by (nonlinear_arith)
        requires
            acc < 0x1_0000_0000_0000_0000u128,
            scale <= 1_000_000,
    ;
    let v = acc * scale;
    if v > u64::MAX as u128 {
        None
    } else {
        Some(v as u64)
    }
}

} // verus!

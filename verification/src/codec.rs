//! The textual format: comma-separated transaction rows in, comma-separated
//! snapshot rows out.
//!
//! Parsing and printing are defined over byte sequences. A decimal field is
//! an optional minus sign, at least one integer digit, and optionally a dot
//! followed by one to twenty-eight fractional digits; values are bounded by
//! ten whole decimal digits. Printing a snapshot value emits the shortest
//! form: no sign for zero, no dot for a whole value, no trailing fractional
//! zeros. Printing then parsing gives back exactly the same value.

use vstd::prelude::*;

use crate::decimal::{pow10, pow10_i128, pow10_monotonic, pow10_positive, Decimal, DEC_UNIT,
    SNAP_UNIT, snap_in_range, lemma_pow10_limit, DEC_LIMIT};
use crate::domain::{AccountSnapShot, Status, Transaction, TransactionType};

verus! {

/// Whether a byte is an ASCII decimal digit.
pub open spec fn is_digit(c: u8) -> bool {
    48 <= c <= 57
}

/// Whether every byte of the sequence is a digit.
pub open spec fn all_digits(s: Seq<u8>) -> bool {
    forall|i: int| 0 <= i < s.len() ==> is_digit(#[trigger] s[i])
}

/// The number a digit sequence denotes, most significant digit first.
pub open spec fn digits_val(s: Seq<u8>) -> int
    decreases s.len(),
{
    if s.len() == 0 {
        0
    } else {
        digits_val(s.drop_last()) * 10 + (s.last() - 48)
    }
}

/// A digit sequence denotes a non-negative number.
pub proof fn lemma_digits_val_nonneg(s: Seq<u8>)
    requires
        all_digits(s),
    ensures
        digits_val(s) >= 0,
    decreases s.len(),
{
    if s.len() > 0 {
        assert(all_digits(s.drop_last()));
        lemma_digits_val_nonneg(s.drop_last());
    }
}

/// A digit sequence of length `n` denotes less than `10^n`.
pub proof fn lemma_digits_val_bound(s: Seq<u8>)
    requires
        all_digits(s),
    ensures
        digits_val(s) < pow10(s.len()),
    decreases s.len(),
{
    pow10_positive(s.len());
    if s.len() > 0 {
        assert(all_digits(s.drop_last()));
        lemma_digits_val_bound(s.drop_last());
    }
}

/// A prefix of a digit sequence denotes at most what the whole denotes.
pub proof fn lemma_digits_val_prefix(s: Seq<u8>, i: int)
    requires
        all_digits(s),
        0 <= i <= s.len(),
    ensures
        digits_val(s.take(i)) <= digits_val(s),
    decreases s.len() - i,
{
    if i < s.len() {
        lemma_digits_val_prefix(s, i + 1);
        assert(s.take(i + 1).drop_last() =~= s.take(i));
        assert(all_digits(s.take(i)));
        lemma_digits_val_nonneg(s.take(i));
    } else {
        assert(s.take(i) =~= s);
    }
}

/// The position of the first occurrence of `b`, or the length when absent.
pub open spec fn byte_pos(s: Seq<u8>, b: u8) -> int
    decreases s.len(),
{
    if s.len() == 0 {
        0
    } else if s[0] == b {
        0
    } else {
        1 + byte_pos(s.skip(1), b)
    }
}

/// What `byte_pos` finds: nothing before it, and `b` at it unless absent.
pub proof fn lemma_byte_pos(s: Seq<u8>, b: u8)
    ensures
        0 <= byte_pos(s, b) <= s.len(),
        forall|j: int| 0 <= j < byte_pos(s, b) ==> s[j] != b,
        byte_pos(s, b) < s.len() ==> s[byte_pos(s, b)] == b,
    decreases s.len(),
{
    if s.len() > 0 && s[0] != b {
        lemma_byte_pos(s.skip(1), b);
        assert(forall|j: int| 0 <= j < byte_pos(s.skip(1), b) ==> s.skip(1)[j] != b);
        assert forall|j: int| 0 <= j < byte_pos(s, b) implies s[j] != b by {
            if j > 0 {
                assert(s.skip(1)[j - 1] != b);
            }
        }
    }
}

/// `byte_pos` is determined by a scan: if nothing before `k` is `b` and `k`
/// is the end or holds `b`, then `byte_pos` is `k`.
pub proof fn lemma_byte_pos_converse(s: Seq<u8>, b: u8, k: int)
    requires
        0 <= k <= s.len(),
        forall|j: int| 0 <= j < k ==> s[j] != b,
        k == s.len() || s[k] == b,
    ensures
        byte_pos(s, b) == k,
    decreases s.len(),
{
    if s.len() > 0 && s[0] != b {
        assert(forall|j: int| 0 <= j < k - 1 ==> s.skip(1)[j] != b);
        lemma_byte_pos_converse(s.skip(1), b, k - 1);
    }
}

/// The parsed value of a decimal field: sign, integer digits, then
/// optionally a dot and one to twenty-eight fractional digits; the integer
/// part must stay below ten billion. `None` when the field has any other
/// shape. The value is in `10^-28` currency units.
pub open spec fn spec_parse_dec(s: Seq<u8>) -> Option<int> {
    let neg = s.len() > 0 && s[0] == 45;
    let t = if neg {
        s.skip(1)
    } else {
        s
    };
    let d = byte_pos(t, 46);
    let ip = t.take(d);
    let fp = if d < t.len() {
        t.skip(d + 1)
    } else {
        Seq::empty()
    };
    let mag = digits_val(ip) * pow10(28) + digits_val(fp) * pow10((28 - fp.len()) as nat);
    if ip.len() >= 1 && all_digits(ip) && digits_val(ip) < pow10(10) && (d < t.len() ==> 1
        <= fp.len() <= 28 && all_digits(fp)) {
        if neg {
            Some(-mag)
        } else {
            Some(mag)
        }
    } else {
        None
    }
}

/// Parses a decimal field; returns exactly what [`spec_parse_dec`] says.
#[verifier::loop_isolation(false)]
#[verifier::rlimit(60)]
pub fn parse_dec(s: &[u8]) -> (r: Option<Decimal>)
    ensures
        match r {
            Some(d) => spec_parse_dec(s@) == Some(d@),
            None => spec_parse_dec(s@) is None,
        },
{
    proof {
        lemma_pow10_limit();
    }
    let n = s.len();
    let neg = n > 0 && s[0] == 45;
    let start: usize = if neg {
        1
    } else {
        0
    };
    let ghost t = if neg {
        s@.skip(1)
    } else {
        s@
    };
    let bound = pow10_i128(10);
    proof {
        pow10_positive(10nat);
    }
    // the integer part, up to the dot or the end
    let mut i: usize = start;
    let mut ip_val: i128 = 0;
    while i < n && s[i] != 46
        invariant
            start <= i <= n == s@.len(),
            start == if neg {
                1int
            } else {
                0int
            },
            t == s@.skip(start as int),
            forall|j: int| 0 <= j < i - start ==> t[j] != 46,
            all_digits(t.take(i - start)),
            ip_val == digits_val(t.take(i - start)),
            0 <= ip_val < bound,
            bound == pow10(10),
        decreases n - i,
    {
        let c = s[i];
        proof {
            assert(t[i - start] == c);
        }
        if c < 48 || c > 57 {
            proof {
                lemma_byte_pos(t, 46);
                lemma_not_digit_rejects(t, i - start, c);
            }
            return None;
        }
        proof {
            assert(t.take(i - start + 1).drop_last() =~= t.take(i - start));
            assert(t.take(i - start + 1).last() == c);
        }
        ip_val = ip_val * 10 + ((c - 48) as i128);
        i = i + 1;
        if ip_val >= bound {
            proof {
                lemma_byte_pos(t, 46);
                lemma_large_int_part_rejects(t, i - start);
            }
            return None;
        }
    }
    proof {
        lemma_byte_pos_converse(t, 46, i - start);
    }
    if i == start {
        // no integer digits at all
        return None;
    }
    proof {
        lemma_pow10_38_is_product();
        assert(0 <= ip_val * DEC_UNIT <= 10 * DEC_LIMIT - DEC_UNIT) by (nonlinear_arith)
            requires
                0 <= ip_val <= pow10(10) - 1,
                DEC_UNIT == pow10(28),
                10 * DEC_LIMIT == pow10(10) * pow10(28),
        ;
    }
    let mut units: i128 = ip_val * DEC_UNIT;
    if i < n {
        // a dot: fractional digits follow
        let mut j: usize = i + 1;
        let mut fp_val: i128 = 0;
        let ghost fp = t.skip(i - start + 1);
        while j < n
            invariant
                i + 1 <= j <= n == s@.len(),
                start <= i < n,
                start == if neg {
                    1int
                } else {
                    0int
                },
                t == s@.skip(start as int),
                fp == t.skip(i - start + 1),
                j - i - 1 <= 28,
                all_digits(fp.take(j - i - 1)),
                fp_val == digits_val(fp.take(j - i - 1)),
                0 <= fp_val < pow10((j - i - 1) as nat),
            decreases n - j,
        {
            let c = s[j];
            proof {
                assert(fp[j - i - 1] == c);
            }
            if c < 48 || c > 57 {
                return None;
            }
            if j - i - 1 >= 28 {
                // the whole fractional part is even longer, so the field
                // cannot be valid
                return None;
            }
            proof {
                assert(fp.take(j - i).drop_last() =~= fp.take(j - i - 1));
                assert(fp.take(j - i).last() == c);
                pow10_monotonic((j - i) as nat, 28nat);
                lemma_pow10_limit();
            }
            fp_val = fp_val * 10 + ((c - 48) as i128);
            j = j + 1;
        }
        let fc: u32 = ((j - i) as u32) - 1;
        if fc == 0 {
            // a dot with no digits after it
            return None;
        }
        proof {
            assert(fp.take(fc as int) =~= fp);
        }
        let scale = pow10_i128(28 - fc);
        proof {
            lemma_frac_scaled_bound(fp_val as int, fc as nat);
            assert(ip_val * DEC_UNIT + fp_val * scale < 10 * DEC_LIMIT) by (nonlinear_arith)
                requires
                    0 <= ip_val <= pow10(10) - 1,
                    DEC_UNIT == pow10(28),
                    10 * DEC_LIMIT == pow10(10) * pow10(28),
                    0 <= fp_val * scale < pow10(28),
            ;
            lemma_pow10_38_is_product();
        }
        units = units + fp_val * scale;
    }
    proof {
        lemma_pow10_38_is_product();
        assert(units < 10 * DEC_LIMIT) by (nonlinear_arith)
            requires
                0 <= units,
                units <= ip_val * DEC_UNIT + (pow10(28) - 1) || units == ip_val * DEC_UNIT,
                0 <= ip_val <= pow10(10) - 1,
                DEC_UNIT == pow10(28),
                10 * DEC_LIMIT == pow10(10) * pow10(28),
        ;
    }
    if neg {
        Some(Decimal { units: -units })
    } else {
        Some(Decimal { units })
    }
}

/// Ten to the thirty-eighth is the product of the tenth and twenty-eighth
/// powers.
proof fn lemma_pow10_38_is_product()
    ensures
        10 * DEC_LIMIT == pow10(10) * pow10(28),
        pow10(10) * pow10(28) == pow10(38),
{
    lemma_pow10_adds(10, 28);
    lemma_pow10_limit();
}

/// `10^(a+b) == 10^a * 10^b`.
pub proof fn lemma_pow10_adds(a: nat, b: nat)
    ensures
        pow10(a + b) == pow10(a) * pow10(b),
    decreases b,
{
    if b == 0 {
    } else {
        lemma_pow10_adds(a, (b - 1) as nat);
        assert(pow10(a + b) == 10 * pow10((a + b - 1) as nat));
        assert(pow10(a) * pow10(b) == pow10(a) * (10 * pow10((b - 1) as nat)));
        assert(pow10(a) * (10 * pow10((b - 1) as nat)) == 10 * (pow10(a) * pow10(
            (b - 1) as nat,
        ))) by (nonlinear_arith);
    }
}

/// A fractional part of `w` digits scales to below one whole unit.
proof fn lemma_frac_scaled_bound(v: int, w: nat)
    requires
        0 <= v < pow10(w),
        w <= 28,
    ensures
        0 <= v * pow10((28 - w) as nat) < pow10(28),
{
    lemma_pow10_adds(w, (28 - w) as nat);
    pow10_positive((28 - w) as nat);
    assert(0 <= v * pow10((28 - w) as nat) && v * pow10((28 - w) as nat) <= (pow10(w) - 1) * pow10(
        (28 - w) as nat,
    )) by (nonlinear_arith)
        requires
            0 <= v <= pow10(w) - 1,
            pow10((28 - w) as nat) >= 1,
    ;
    assert((pow10(w) - 1) * pow10((28 - w) as nat) == pow10(w) * pow10((28 - w) as nat) - pow10(
        (28 - w) as nat,
    )) by (nonlinear_arith);
}

/// A non-digit inside the integer part makes the whole field invalid.
proof fn lemma_not_digit_rejects(t: Seq<u8>, k: int, c: u8)
    requires
        0 <= k < t.len(),
        t[k] == c,
        !is_digit(c),
        c != 46,
        forall|j: int| 0 <= j < k ==> t[j] != 46,
    ensures
        spec_parse_dec_shape_fails(t),
{
    lemma_byte_pos(t, 46);
    let d = byte_pos(t, 46);
    if d > k {
        assert(t.take(d)[k] == c);
    } else {
        assert(t.skip(d + 1)[k - d - 1] == c);
    }
}

/// The shape conditions of a decimal field, on its unsigned part.
pub open spec fn spec_parse_dec_shape_fails(t: Seq<u8>) -> bool {
    let d = byte_pos(t, 46);
    let ip = t.take(d);
    let fp = if d < t.len() {
        t.skip(d + 1)
    } else {
        Seq::empty()
    };
    !(ip.len() >= 1 && all_digits(ip) && digits_val(ip) < pow10(10) && (d < t.len() ==> 1
        <= fp.len() <= 28 && all_digits(fp)))
}

/// An integer part that has already reached ten billion makes the whole
/// field invalid, wherever the dot may be.
proof fn lemma_large_int_part_rejects(t: Seq<u8>, k: int)
    requires
        0 <= k <= t.len(),
        forall|j: int| 0 <= j < k ==> t[j] != 46,
        all_digits(t.take(k)),
        digits_val(t.take(k)) >= pow10(10),
    ensures
        spec_parse_dec_shape_fails(t),
{
    lemma_byte_pos(t, 46);
    let d = byte_pos(t, 46);
    let ip = t.take(d);
    if all_digits(ip) {
        if d >= k {
            assert(ip.take(k) =~= t.take(k));
            lemma_digits_val_prefix(ip, k);
        } else {
            assert(t[d] == 46);
            assert(is_digit(t.take(k)[d]));
        }
    }
}


/// The decimal digits of a non-negative number, most significant first;
/// zero prints as a single digit.
pub open spec fn digits_seq(n: nat) -> Seq<u8>
    decreases n,
{
    if n < 10 {
        seq![(48 + n) as u8]
    } else {
        digits_seq(n / 10).push((48 + n % 10) as u8)
    }
}

/// Exactly `w` digits of `f`, least significant last, with leading zeros.
pub open spec fn frac_digits(f: nat, w: nat) -> Seq<u8>
    decreases w,
{
    if w == 0 {
        Seq::empty()
    } else {
        frac_digits(f / 10, (w - 1) as nat).push((48 + f % 10) as u8)
    }
}

/// The sequence with its trailing zero digits removed.
pub open spec fn strip0(s: Seq<u8>) -> Seq<u8>
    decreases s.len(),
{
    if s.len() > 0 && s.last() == 48 {
        strip0(s.drop_last())
    } else {
        s
    }
}

/// The printed form of a snapshot value (a multiple of `10^-4`): sign only
/// when negative, the whole part, and the fractional digits only when they
/// are not all zero, with trailing zeros removed.
pub open spec fn spec_fmt_dec(v: int) -> Seq<u8> {
    let mag = if v < 0 {
        -v
    } else {
        v
    };
    let ipart = mag / pow10(28);
    let f4 = (mag % pow10(28)) / pow10(24);
    let body = digits_seq(ipart as nat) + (if f4 == 0 {
        Seq::<u8>::empty()
    } else {
        seq![46u8] + strip0(frac_digits(f4 as nat, 4))
    });
    if v < 0 {
        seq![45u8] + body
    } else {
        body
    }
}

/// The digits of a number denote that number.
pub proof fn lemma_digits_seq(n: nat)
    ensures
        all_digits(digits_seq(n)),
        digits_seq(n).len() >= 1,
        digits_val(digits_seq(n)) == n,
    decreases n,
{
    if n < 10 {
        assert(digits_seq(n) =~= seq![(48 + n) as u8]);
        assert(digits_seq(n).drop_last() =~= Seq::<u8>::empty());
        assert(digits_val(Seq::<u8>::empty()) == 0);
    } else {
        lemma_digits_seq(n / 10);
        let s = digits_seq(n);
        assert(s.drop_last() =~= digits_seq(n / 10));
        assert(s.last() == (48 + n % 10) as u8);
        vstd::arithmetic::div_mod::lemma_fundamental_div_mod(n as int, 10);
        assert(all_digits(s)) by {
            assert forall|i: int| 0 <= i < s.len() implies is_digit(#[trigger] s[i]) by {
                if i < s.len() - 1 {
                    assert(s[i] == digits_seq(n / 10)[i]);
                }
            }
        }
    }
}

/// A fixed-width fraction denotes its value modulo the width's power of ten.
pub proof fn lemma_frac_digits(f: nat, w: nat)
    ensures
        all_digits(frac_digits(f, w)),
        frac_digits(f, w).len() == w,
        digits_val(frac_digits(f, w)) == f as int % pow10(w),
    decreases w,
{
    pow10_positive(w);
    if w == 0 {
        assert(f % 1 == 0) by {
            vstd::arithmetic::div_mod::lemma_mod_self_0(1);
            vstd::arithmetic::div_mod::lemma_small_mod(0nat, 1nat);
            vstd::arithmetic::div_mod::lemma_fundamental_div_mod(f as int, 1);
        }
    } else {
        lemma_frac_digits(f / 10, (w - 1) as nat);
        let s = frac_digits(f, w);
        assert(s.drop_last() =~= frac_digits(f / 10, (w - 1) as nat));
        assert(s.last() == (48 + f % 10) as u8);
        assert(all_digits(s)) by {
            assert forall|i: int| 0 <= i < s.len() implies is_digit(#[trigger] s[i]) by {
                if i < s.len() - 1 {
                    assert(s[i] == frac_digits(f / 10, (w - 1) as nat)[i]);
                }
            }
        }
        let m = pow10((w - 1) as nat);
        pow10_positive((w - 1) as nat);
        // (f/10 % m) * 10 + f % 10 == f % (10 m)
        vstd::arithmetic::div_mod::lemma_fundamental_div_mod(f as int, 10);
        vstd::arithmetic::div_mod::lemma_fundamental_div_mod((f / 10) as int, m);
        vstd::arithmetic::div_mod::lemma_fundamental_div_mod(f as int, 10 * m);
        vstd::arithmetic::div_mod::lemma_div_denominator(f as int, 10, m);
        vstd::arithmetic::div_mod::lemma_mod_pos_bound(f as int, 10);
        vstd::arithmetic::div_mod::lemma_mod_pos_bound((f / 10) as int, m);
        vstd::arithmetic::div_mod::lemma_mod_pos_bound(f as int, 10 * m);
        let q = (f / 10) as int / m;
        assert(f == q * (10 * m) + ((f / 10) as int % m * 10 + f as int % 10))
            by (nonlinear_arith)
            requires
                f == 10 * (f as int / 10) + f as int % 10,
                f as int / 10 == m * q + (f / 10) as int % m,
        ;
        assert(0 <= (f / 10) as int % m * 10 + f as int % 10 < 10 * m) by (nonlinear_arith)
            requires
                0 <= (f / 10) as int % m < m,
                0 <= f as int % 10 < 10,
        ;
        vstd::arithmetic::div_mod::lemma_fundamental_div_mod_converse_mod(
            f as int,
            10 * m,
            q,
            (f / 10) as int % m * 10 + f as int % 10,
        );
    }
}

/// Stripping trailing zeros divides the denoted value by the matching power
/// of ten, exactly.
pub proof fn lemma_strip0(s: Seq<u8>)
    requires
        all_digits(s),
    ensures
        all_digits(strip0(s)),
        strip0(s).len() <= s.len(),
        digits_val(strip0(s)) * pow10((s.len() - strip0(s).len()) as nat) == digits_val(s),
        digits_val(s) != 0 ==> strip0(s).len() >= 1,
    decreases s.len(),
{
    if s.len() > 0 && s.last() == 48 {
        assert(all_digits(s.drop_last()));
        lemma_strip0(s.drop_last());
        let t = s.drop_last();
        let k = (t.len() - strip0(t).len()) as nat;
        assert(digits_val(s) == digits_val(t) * 10);
        assert(digits_val(strip0(t)) * pow10(k + 1) == digits_val(t) * 10) by (nonlinear_arith)
            requires
                digits_val(strip0(t)) * pow10(k) == digits_val(t),
                pow10(k + 1) == 10 * pow10(k),
        ;
        lemma_digits_val_nonneg(t);
    } else {
        assert(digits_val(strip0(s)) * pow10(0) == digits_val(s)) by (nonlinear_arith)
            requires
                strip0(s) == s,
                pow10(0) == 1,
        ;
    }
}

/// The decimal digits of a non-negative machine integer.
fn digits_vec(n: i128) -> (r: Vec<u8>)
    requires
        0 <= n,
    ensures
        r@ == digits_seq(n as nat),
    decreases n,
{
    if n < 10 {
        let mut r: Vec<u8> = Vec::new();
        r.push(48 + (n as u8));
        proof {
            assert(r@ =~= digits_seq(n as nat));
        }
        r
    } else {
        let mut r = digits_vec(n / 10);
        r.push(48 + ((n % 10) as u8));
        proof {
            assert(r@ =~= digits_seq(n as nat));
        }
        r
    }
}

/// Exactly `w` digits of `f`, least significant last.
fn frac_vec(f: i128, w: u32) -> (r: Vec<u8>)
    requires
        0 <= f,
        w <= 4,
    ensures
        r@ == frac_digits(f as nat, w as nat),
    decreases w,
{
    if w == 0 {
        Vec::new()
    } else {
        let mut r = frac_vec(f / 10, w - 1);
        r.push(48 + ((f % 10) as u8));
        proof {
            assert(r@ =~= frac_digits(f as nat, w as nat));
        }
        r
    }
}

/// Prints a snapshot value (a multiple of `10^-4` within the total range):
/// exactly [`spec_fmt_dec`].
#[verifier::loop_isolation(false)]
pub fn fmt_dec(d: Decimal) -> (r: Vec<u8>)
    requires
        snap_in_range(d@),
        d@ % (SNAP_UNIT as int) == 0,
    ensures
        r@ == spec_fmt_dec(d@),
{
    proof {
        lemma_pow10_limit();
        if d@ < 0 {
            crate::decimal::lemma_neg_multiple(d@, SNAP_UNIT as int);
        }
    }
    let neg = d.units < 0;
    let mag: i128 = if neg {
        -d.units
    } else {
        d.units
    };
    let ipart = mag / DEC_UNIT;
    let rem = mag % DEC_UNIT;
    proof {
        vstd::arithmetic::div_mod::lemma_fundamental_div_mod(mag as int, DEC_UNIT as int);
        vstd::arithmetic::div_mod::lemma_mod_pos_bound(mag as int, DEC_UNIT as int);
        vstd::arithmetic::div_mod::lemma_div_pos_is_pos(mag as int, DEC_UNIT as int);
        assert(DEC_UNIT == 10000 * SNAP_UNIT);
        vstd::arithmetic::div_mod::lemma_mod_mod(mag as int, SNAP_UNIT as int, 10000);
        vstd::arithmetic::div_mod::lemma_fundamental_div_mod(rem as int, SNAP_UNIT as int);
        vstd::arithmetic::div_mod::lemma_mod_pos_bound(rem as int, SNAP_UNIT as int);
        vstd::arithmetic::div_mod::lemma_div_pos_is_pos(rem as int, SNAP_UNIT as int);
        assert((rem as int) / (SNAP_UNIT as int) < 10000) by (nonlinear_arith)
            requires
                0 <= rem as int,
                rem as int == (SNAP_UNIT as int) * ((rem as int) / (SNAP_UNIT as int)) + (
                rem as int) % (SNAP_UNIT as int),
                0 <= (rem as int) % (SNAP_UNIT as int),
                rem < DEC_UNIT,
                DEC_UNIT == 10000 * SNAP_UNIT,
                SNAP_UNIT > 0,
        ;
    }
    let f4 = rem / SNAP_UNIT;
    let mut out: Vec<u8> = Vec::new();
    if neg {
        out.push(45);
    }
    let mut ds = digits_vec(ipart);
    out.append(&mut ds);
    if f4 > 0 {
        out.push(46);
        let mut fd = frac_vec(f4, 4);
        let ghost whole = fd@;
        while fd.len() > 0 && fd[fd.len() - 1] == 48
            invariant
                strip0(fd@) == strip0(whole),
            decreases fd@.len(),
        {
            fd.pop();
        }
        proof {
            assert(fd@ == strip0(fd@));
            assert(fd@ == strip0(whole));
        }
        out.append(&mut fd);
    }
    proof {
        assert(out@ =~= spec_fmt_dec(d@));
    }
    out
}

/// Printing a snapshot value and parsing it back yields exactly that value.
pub proof fn lemma_print_parse_dec(v: int)
    requires
        snap_in_range(v),
        v % (SNAP_UNIT as int) == 0,
    ensures
        spec_parse_dec(spec_fmt_dec(v)) == Some(v),
{
    lemma_pow10_limit();
    if v < 0 {
        crate::decimal::lemma_neg_multiple(v, SNAP_UNIT as int);
    }
    let mag = if v < 0 {
        -v
    } else {
        v
    };
    let u28 = pow10(28);
    let u24 = pow10(24);
    let ipart = mag / u28;
    let rem = mag % u28;
    let f4 = rem / u24;
    vstd::arithmetic::div_mod::lemma_fundamental_div_mod(mag, u28);
    vstd::arithmetic::div_mod::lemma_mod_pos_bound(mag, u28);
    vstd::arithmetic::div_mod::lemma_div_pos_is_pos(mag, u28);
    assert(u28 == 10000 * u24);
    vstd::arithmetic::div_mod::lemma_mod_mod(mag, u24, 10000);
    vstd::arithmetic::div_mod::lemma_fundamental_div_mod(rem, u24);
    vstd::arithmetic::div_mod::lemma_mod_pos_bound(rem, u24);
    vstd::arithmetic::div_mod::lemma_div_pos_is_pos(rem, u24);
    assert(0 <= f4 < 10000) by (nonlinear_arith)
        requires
            0 <= rem,
            rem == u24 * f4 + rem % u24,
            0 <= rem % u24,
            rem < u28,
            u28 == 10000 * u24,
            u24 > 0,
    ;
    assert(rem % u24 == 0);
    assert(rem == u24 * f4);
    assert(ipart < pow10(10)) by (nonlinear_arith)
        requires
            mag == u28 * ipart + rem,
            0 <= rem,
            0 <= ipart,
            mag <= 2 * DEC_LIMIT,
            DEC_LIMIT == pow10(9) * u28,
            pow10(10) == 10 * pow10(9),
            u28 > 0,
            pow10(9) > 0,
    ;
    lemma_digits_seq(ipart as nat);
    let ds = digits_seq(ipart as nat);
    lemma_frac_digits(f4 as nat, 4);
    let fr = frac_digits(f4 as nat, 4);
    lemma_pow10_limit();
    vstd::arithmetic::div_mod::lemma_small_mod(f4 as nat, 10000nat);
    assert(digits_val(fr) == f4);
    lemma_strip0(fr);
    let fp = strip0(fr);
    let s = spec_fmt_dec(v);
    let body = ds + (if f4 == 0 {
        Seq::<u8>::empty()
    } else {
        seq![46u8] + fp
    });
    // locate the sign and the unsigned part
    let t = if v < 0 {
        s.skip(1)
    } else {
        s
    };
    assert(t =~= body);
    assert(s.len() > 0);
    assert(is_digit(ds[0]));
    if v < 0 {
        assert(s[0] == 45);
    } else {
        assert(s[0] == body[0] == ds[0]);
    }
    // locate the dot
    if f4 == 0 {
        assert(forall|j: int| 0 <= j < body.len() ==> body[j] == ds[j]);
        lemma_byte_pos_converse(body, 46, body.len() as int);
        assert(body.take(body.len() as int) =~= ds);
        assert(digits_val(ds) * u28 + digits_val(Seq::<u8>::empty()) * pow10(28) == mag);
    } else {
        assert(forall|j: int| 0 <= j < ds.len() ==> body[j] == ds[j]);
        assert(body[ds.len() as int] == 46);
        lemma_byte_pos_converse(body, 46, ds.len() as int);
        assert(body.take(ds.len() as int) =~= ds);
        assert(body.skip(ds.len() as int + 1) =~= fp);
        assert(1 <= fp.len() <= 4);
        // the fractional digits denote the fraction exactly
        let k = (fr.len() - fp.len()) as nat;
        assert(digits_val(fp) * pow10(k) == f4);
        assert(k + 24 == 28 - fp.len());
        lemma_pow10_adds(k, 24);
        assert(digits_val(fp) * pow10((28 - fp.len()) as nat) == f4 * u24) by (nonlinear_arith)
            requires
                digits_val(fp) * pow10(k) == f4,
                pow10((28 - fp.len()) as nat) == pow10(k) * pow10(24),
                u24 == pow10(24),
        ;
        assert(digits_val(ds) * u28 + digits_val(fp) * pow10((28 - fp.len()) as nat) == mag);
    }
}

/// Whether a byte is blank: a space or a tab.
pub open spec fn is_ws(c: u8) -> bool {
    c == 32 || c == 9
}

/// The sequence with its leading blanks removed.
pub open spec fn trim_front(s: Seq<u8>) -> Seq<u8>
    decreases s.len(),
{
    if s.len() > 0 && is_ws(s[0]) {
        trim_front(s.skip(1))
    } else {
        s
    }
}

/// The sequence with its trailing blanks removed.
pub open spec fn trim_back(s: Seq<u8>) -> Seq<u8>
    decreases s.len(),
{
    if s.len() > 0 && is_ws(s.last()) {
        trim_back(s.drop_last())
    } else {
        s
    }
}

/// The sequence with blanks removed from both ends.
pub open spec fn trim(s: Seq<u8>) -> Seq<u8> {
    trim_back(trim_front(s))
}

/// Leading blanks up to `a` put the front trim exactly at `a`.
proof fn lemma_trim_front_at(s: Seq<u8>, a: int)
    requires
        0 <= a <= s.len(),
        forall|j: int| 0 <= j < a ==> is_ws(s[j]),
        a == s.len() || !is_ws(s[a]),
    ensures
        trim_front(s) == s.skip(a),
    decreases a,
{
    if a == 0 {
        assert(s.skip(0) =~= s);
    } else {
        assert(forall|j: int| 0 <= j < a - 1 ==> is_ws(s.skip(1)[j]));
        lemma_trim_front_at(s.skip(1), a - 1);
        assert(s.skip(1).skip(a - 1) =~= s.skip(a));
    }
}

/// Trailing blanks from `k` on put the back trim exactly at `k`.
proof fn lemma_trim_back_at(s: Seq<u8>, k: int)
    requires
        0 <= k <= s.len(),
        forall|j: int| k <= j < s.len() ==> is_ws(s[j]),
        k == 0 || !is_ws(s[k - 1]),
    ensures
        trim_back(s) == s.take(k),
    decreases s.len(),
{
    if s.len() > 0 && is_ws(s.last()) {
        assert(k < s.len());
        assert(forall|j: int| k <= j < s.len() - 1 ==> is_ws(s.drop_last()[j]));
        lemma_trim_back_at(s.drop_last(), k);
        assert(s.drop_last().take(k) =~= s.take(k));
    } else {
        assert(s.take(s.len() as int) =~= s);
    }
}

/// A sequence with no blank at either end trims to itself.
pub proof fn lemma_trim_id(s: Seq<u8>)
    requires
        s.len() > 0 ==> !is_ws(s[0]) && !is_ws(s.last()),
    ensures
        trim(s) == s,
{
    lemma_trim_front_at(s, 0);
    lemma_trim_back_at(s, s.len() as int);
    assert(s.take(s.len() as int) =~= s);
}

/// Copies a byte slice with blanks removed from both ends.
#[verifier::loop_isolation(false)]
pub fn trim_bytes(s: &[u8]) -> (r: Vec<u8>)
    ensures
        r@ == trim(s@),
{
    let n = s.len();
    let mut a: usize = 0;
    while a < n && (s[a] == 32 || s[a] == 9)
        invariant
            a <= n,
            forall|j: int| 0 <= j < a ==> is_ws(s@[j]),
        decreases n - a,
    {
        a = a + 1;
    }
    proof {
        lemma_trim_front_at(s@, a as int);
    }
    let mut b: usize = n;
    while b > a && (s[b - 1] == 32 || s[b - 1] == 9)
        invariant
            a <= b <= n,
            forall|j: int| b <= j < n ==> is_ws(s@[j]),
        decreases b,
    {
        b = b - 1;
    }
    proof {
        assert(forall|j: int| b - a <= j < s@.skip(a as int).len() ==> is_ws(s@.skip(a as int)[j]));
        lemma_trim_back_at(s@.skip(a as int), b - a);
    }
    let mut out: Vec<u8> = Vec::new();
    let mut i: usize = a;
    while i < b
        invariant
            a <= i <= b,
            out@ == s@.subrange(a as int, i as int),
        decreases b - i,
    {
        out.push(s[i]);
        proof {
            assert(s@.subrange(a as int, i + 1) =~= s@.subrange(a as int, i as int).push(
                s@[i as int],
            ));
        }
        i = i + 1;
    }
    proof {
        assert(out@ =~= s@.skip(a as int).take(b - a));
    }
    out
}

/// The comma-separated fields of a row; a row with no comma is one field.
pub open spec fn split_fields(s: Seq<u8>) -> Seq<Seq<u8>>
    decreases s.len(),
{
    let p = byte_pos(s, 44);
    if 0 <= p < s.len() {
        seq![s.take(p)] + split_fields(s.skip(p + 1))
    } else {
        seq![s]
    }
}

/// The field views of a vector of field buffers.
pub open spec fn views_of(v: Seq<Vec<u8>>) -> Seq<Seq<u8>> {
    v.map_values(|f: Vec<u8>| f@)
}

/// A comma-free prefix is one whole field of the row it starts.
pub proof fn lemma_split_prepend(a: Seq<u8>, rest: Seq<u8>)
    requires
        forall|j: int| 0 <= j < a.len() ==> a[j] != 44,
    ensures
        split_fields(a + seq![44u8] + rest) == seq![a] + split_fields(rest),
{
    let s = a + seq![44u8] + rest;
    assert(forall|j: int| 0 <= j < a.len() ==> s[j] == a[j]);
    assert(s[a.len() as int] == 44);
    lemma_byte_pos_converse(s, 44, a.len() as int);
    assert(s.take(a.len() as int) =~= a);
    assert(s.skip(a.len() as int + 1) =~= rest);
}

/// A comma-free row is a single field.
pub proof fn lemma_split_single(s: Seq<u8>)
    requires
        forall|j: int| 0 <= j < s.len() ==> s[j] != 44,
    ensures
        split_fields(s) == seq![s],
{
    lemma_byte_pos_converse(s, 44, s.len() as int);
}

/// Splits a row into its comma-separated fields, from `start` on.
#[verifier::loop_isolation(false)]
fn split_from(s: &[u8], start: usize) -> (r: Vec<Vec<u8>>)
    requires
        start <= s@.len(),
    ensures
        views_of(r@) == split_fields(s@.skip(start as int)),
    decreases s@.len() - start,
{
    let ghost t = s@.skip(start as int);
    let n = s.len();
    let mut i: usize = start;
    let mut field: Vec<u8> = Vec::new();
    while i < n && s[i] != 44
        invariant
            start <= i <= n,
            forall|j: int| 0 <= j < i - start ==> t[j] != 44,
            field@ == t.take(i - start),
        decreases n - i,
    {
        field.push(s[i]);
        proof {
            assert(t.take(i - start + 1) =~= t.take(i - start).push(t[i - start]));
            assert(t[i - start] == s@[i as int]);
        }
        i = i + 1;
    }
    proof {
        lemma_byte_pos_converse(t, 44, i - start);
    }
    if i == n {
        proof {
            assert(t.take(i - start) =~= t);
        }
        let mut out: Vec<Vec<u8>> = Vec::new();
        out.push(field);
        proof {
            assert(views_of(out@) =~= seq![t]);
        }
        out
    } else {
        let rest = split_from(s, i + 1);
        let mut out: Vec<Vec<u8>> = Vec::new();
        out.push(field);
        let mut k: usize = 0;
        let ghost restv = views_of(rest@);
        while k < rest.len()
            invariant
                k <= rest@.len(),
                restv == views_of(rest@),
                out@.len() == k + 1,
                views_of(out@) == seq![t.take(i - start)] + restv.take(k as int),
            decreases rest@.len() - k,
        {
            let f = &rest[k];
            let mut copy: Vec<u8> = Vec::new();
            let mut m: usize = 0;
            while m < f.len()
                invariant
                    m <= f@.len(),
                    copy@ == f@.take(m as int),
                decreases f@.len() - m,
            {
                copy.push(f[m]);
                proof {
                    assert(f@.take(m + 1) =~= f@.take(m as int).push(f@[m as int]));
                }
                m = m + 1;
            }
            proof {
                assert(copy@ =~= f@);
            }
            out.push(copy);
            proof {
                assert(views_of(out@) =~= (seq![t.take(i - start)] + restv.take(k as int)).push(
                    restv[k as int],
                ));
                assert((seq![t.take(i - start)] + restv.take(k as int)).push(restv[k as int]) =~= seq![
                    t.take(i - start),
                ] + restv.take(k + 1));
            }
            k = k + 1;
        }
        proof {
            assert(restv.take(rest@.len() as int) =~= restv);
            assert(t.skip(i - start + 1) =~= s@.skip(i + 1));
            assert(views_of(out@) =~= split_fields(t));
        }
        out
    }
}

/// Splits a row into its comma-separated fields.
pub fn split_row(s: &[u8]) -> (r: Vec<Vec<u8>>)
    ensures
        views_of(r@) == split_fields(s@),
{
    let r = split_from(s, 0);
    proof {
        assert(s@.skip(0) =~= s@);
    }
    r
}

/// The value of an unsigned integer field, when it is all digits and at most
/// `max`.
pub open spec fn spec_parse_uint(s: Seq<u8>, max: int) -> Option<int> {
    if s.len() >= 1 && all_digits(s) && digits_val(s) <= max {
        Some(digits_val(s))
    } else {
        None
    }
}

/// Parses an unsigned integer field of at most `max`; returns exactly what
/// [`spec_parse_uint`] says.
#[verifier::loop_isolation(false)]
pub fn parse_uint(s: &[u8], max: u64) -> (r: Option<u64>)
    requires
        max <= 0xFFFF_FFFF,
    ensures
        match r {
            Some(v) => spec_parse_uint(s@, max as int) == Some(v as int),
            None => spec_parse_uint(s@, max as int) is None,
        },
{
    let n = s.len();
    if n == 0 {
        return None;
    }
    let mut acc: u64 = 0;
    let mut i: usize = 0;
    while i < n
        invariant
            i <= n,
            all_digits(s@.take(i as int)),
            acc == digits_val(s@.take(i as int)),
            0 <= acc <= max,
        decreases n - i,
    {
        let c = s[i];
        if c < 48 || c > 57 {
            return None;
        }
        proof {
            assert(s@.take(i + 1).drop_last() =~= s@.take(i as int));
            assert(s@.take(i + 1).last() == c);
        }
        acc = acc * 10 + ((c - 48) as u64);
        i = i + 1;
        if acc > max {
            proof {
                lemma_digits_val_prefix_reject(s@, i as int);
            }
            return None;
        }
    }
    proof {
        assert(s@.take(n as int) =~= s@);
    }
    Some(acc)
}

/// A prefix already over the bound makes the whole field over the bound or
/// ill-formed.
proof fn lemma_digits_val_prefix_reject(s: Seq<u8>, k: int)
    requires
        0 <= k <= s.len(),
        all_digits(s.take(k)),
    ensures
        all_digits(s) ==> digits_val(s.take(k)) <= digits_val(s),
{
    if all_digits(s) {
        lemma_digits_val_prefix(s, k);
    }
}

/// The bytes of the keyword naming a deposit row.
pub open spec fn kw_deposit() -> Seq<u8> {
    seq![100u8, 101u8, 112u8, 111u8, 115u8, 105u8, 116u8]
}

/// The bytes of the keyword naming a withdrawal row.
pub open spec fn kw_withdrawal() -> Seq<u8> {
    seq![119u8, 105u8, 116u8, 104u8, 100u8, 114u8, 97u8, 119u8, 97u8, 108u8]
}

/// The bytes of the keyword naming a dispute row.
pub open spec fn kw_dispute() -> Seq<u8> {
    seq![100u8, 105u8, 115u8, 112u8, 117u8, 116u8, 101u8]
}

/// The bytes of the keyword naming a resolve row.
pub open spec fn kw_resolve() -> Seq<u8> {
    seq![114u8, 101u8, 115u8, 111u8, 108u8, 118u8, 101u8]
}

/// The bytes of the keyword naming a chargeback row.
pub open spec fn kw_chargeback() -> Seq<u8> {
    seq![99u8, 104u8, 97u8, 114u8, 103u8, 101u8, 98u8, 97u8, 99u8, 107u8]
}

/// The bytes printed for a frozen account.
pub open spec fn kw_true() -> Seq<u8> {
    seq![116u8, 114u8, 117u8, 101u8]
}

/// The bytes printed for an open account.
pub open spec fn kw_false() -> Seq<u8> {
    seq![102u8, 97u8, 108u8, 115u8, 101u8]
}

/// The transaction kind a type field names, case-sensitively.
pub open spec fn spec_tx_type(s: Seq<u8>) -> Option<TransactionType> {
    if s == kw_deposit() {
        Some(TransactionType::Deposit)
    } else if s == kw_withdrawal() {
        Some(TransactionType::Withdrawal)
    } else if s == kw_dispute() {
        Some(TransactionType::Dispute)
    } else if s == kw_resolve() {
        Some(TransactionType::Resolve)
    } else if s == kw_chargeback() {
        Some(TransactionType::Chargeback)
    } else {
        None
    }
}

/// Reads a type field; returns exactly what [`spec_tx_type`] says.
pub fn tx_type_of(s: &[u8]) -> (r: Option<TransactionType>)
    ensures
        r == spec_tx_type(s@),
{
    if s.len() == 7 && s[0] == 100 && s[1] == 101 && s[2] == 112 && s[3] == 111 && s[4] == 115 && s[5] == 105 && s[6] == 116 {
        proof {
            assert(s@ =~= kw_deposit());
        }
        return Some(TransactionType::Deposit);
    }
    if s.len() == 10 && s[0] == 119 && s[1] == 105 && s[2] == 116 && s[3] == 104 && s[4] == 100 && s[5] == 114 && s[6] == 97 && s[7] == 119 && s[8] == 97 && s[9] == 108 {
        proof {
            assert(s@ =~= kw_withdrawal());
        }
        return Some(TransactionType::Withdrawal);
    }
    if s.len() == 7 && s[0] == 100 && s[1] == 105 && s[2] == 115 && s[3] == 112 && s[4] == 117 && s[5] == 116 && s[6] == 101 {
        proof {
            assert(s@ =~= kw_dispute());
        }
        return Some(TransactionType::Dispute);
    }
    if s.len() == 7 && s[0] == 114 && s[1] == 101 && s[2] == 115 && s[3] == 111 && s[4] == 108 && s[5] == 118 && s[6] == 101 {
        proof {
            assert(s@ =~= kw_resolve());
        }
        return Some(TransactionType::Resolve);
    }
    if s.len() == 10 && s[0] == 99 && s[1] == 104 && s[2] == 97 && s[3] == 114 && s[4] == 103 && s[5] == 101 && s[6] == 98 && s[7] == 97 && s[8] == 99 && s[9] == 107 {
        proof {
            assert(s@ =~= kw_chargeback());
        }
        return Some(TransactionType::Chargeback);
    }
    proof {
        if s@ == kw_deposit() || s@ == kw_withdrawal() || s@ == kw_dispute() || s@ == kw_resolve()
            || s@ == kw_chargeback() {
            assert(false);
        }
    }
    None
}

/// The transaction a row denotes: a type, a client id, a transaction id, and
/// optionally an amount, comma-separated, each field trimmed of blanks. The
/// amount column may be empty or absent. The status of a freshly read
/// transaction is undisputed.
pub open spec fn spec_parse_transaction(s: Seq<u8>) -> Option<Transaction> {
    let fs = split_fields(s);
    if fs.len() == 3 || fs.len() == 4 {
        let ty = spec_tx_type(trim(fs[0]));
        let client = spec_parse_uint(trim(fs[1]), 65535);
        let txid = spec_parse_uint(trim(fs[2]), 4294967295);
        let af = if fs.len() == 4 {
            trim(fs[3])
        } else {
            Seq::<u8>::empty()
        };
        if ty is Some && client is Some && txid is Some && (af.len() == 0 || spec_parse_dec(
            af,
        ) is Some) {
            Some(
                Transaction {
                    status: Status::Settled,
                    client_id: client->0 as u16,
                    tx_id: txid->0 as u32,
                    transaction_type: ty->0,
                    amount: if af.len() == 0 {
                        None
                    } else {
                        Some(Decimal { units: spec_parse_dec(af)->0 as i128 })
                    },
                },
            )
        } else {
            None
        }
    } else {
        None
    }
}

/// Parses one transaction row; returns exactly what
/// [`spec_parse_transaction`] says.
pub fn parse_transaction_row(s: &[u8]) -> (r: Option<Transaction>)
    ensures
        r == spec_parse_transaction(s@),
{
    let fields = split_row(s);
    if fields.len() != 3 && fields.len() != 4 {
        return None;
    }
    proof {
        assert(views_of(fields@)[0] == fields@[0]@);
        assert(views_of(fields@)[1] == fields@[1]@);
        assert(views_of(fields@)[2] == fields@[2]@);
        if fields@.len() == 4 {
            assert(views_of(fields@)[3] == fields@[3]@);
        }
    }
    let tyf = trim_bytes(fields[0].as_slice());
    let ty = match tx_type_of(tyf.as_slice()) {
        None => {
            return None;
        },
        Some(t) => t,
    };
    let cf = trim_bytes(fields[1].as_slice());
    let client = match parse_uint(cf.as_slice(), 65535) {
        None => {
            return None;
        },
        Some(v) => v as u16,
    };
    let xf = trim_bytes(fields[2].as_slice());
    let txid = match parse_uint(xf.as_slice(), 4294967295) {
        None => {
            return None;
        },
        Some(v) => v as u32,
    };
    let amount: Option<Decimal> = if fields.len() == 4 {
        let af = trim_bytes(fields[3].as_slice());
        if af.len() == 0 {
            None
        } else {
            match parse_dec(af.as_slice()) {
                None => {
                    return None;
                },
                Some(d) => Some(d),
            }
        }
    } else {
        None
    };
    Some(
        Transaction {
            status: Status::Settled,
            client_id: client,
            tx_id: txid,
            transaction_type: ty,
            amount,
        },
    )
}

/// The header of the snapshot table.
pub fn snapshot_header() -> (r: &'static str)
    ensures
        r@ == "client,available,held,total,locked"@,
{
    "client,available,held,total,locked"
}

/// A snapshot whose monetary fields carry at most four fractional digits and
/// stay within the total range; exactly what [`BankAccountRoot::snapshot`]
/// produces.
///
/// [`BankAccountRoot::snapshot`]: crate::domain::BankAccountRoot::snapshot
pub open spec fn snapshot_wf(s: AccountSnapShot) -> bool {
    &&& snap_in_range(s.available@) && s.available@ % (SNAP_UNIT as int) == 0
    &&& snap_in_range(s.held@) && s.held@ % (SNAP_UNIT as int) == 0
    &&& snap_in_range(s.total@) && s.total@ % (SNAP_UNIT as int) == 0
}

/// The printed form of one snapshot row: client id, the three monetary
/// fields, and the lock flag, comma-separated.
pub open spec fn spec_fmt_snapshot(s: AccountSnapShot) -> Seq<u8> {
    digits_seq(s.client as nat) + seq![44u8] + spec_fmt_dec(s.available@) + seq![44u8]
        + spec_fmt_dec(s.held@) + seq![44u8] + spec_fmt_dec(s.total@) + seq![44u8] + (if s.locked {
        kw_true()
    } else {
        kw_false()
    })
}

/// Prints one snapshot row; returns exactly [`spec_fmt_snapshot`].
pub fn fmt_snapshot_row(s: &AccountSnapShot) -> (r: Vec<u8>)
    requires
        snapshot_wf(*s),
    ensures
        r@ == spec_fmt_snapshot(*s),
{
    let mut out = digits_vec(s.client as i128);
    out.push(44);
    let mut f = fmt_dec(s.available);
    out.append(&mut f);
    out.push(44);
    let mut f = fmt_dec(s.held);
    out.append(&mut f);
    out.push(44);
    let mut f = fmt_dec(s.total);
    out.append(&mut f);
    out.push(44);
    if s.locked {
        out.push(116);
        out.push(114);
        out.push(117);
        out.push(101);
    } else {
        out.push(102);
        out.push(97);
        out.push(108);
        out.push(115);
        out.push(101);
    }
    proof {
        assert(out@ =~= spec_fmt_snapshot(*s));
    }
    out
}

/// The snapshot a row denotes: a client id, three decimal fields, and a
/// lock flag, comma-separated, in canonical form.
pub open spec fn spec_parse_snapshot(s: Seq<u8>) -> Option<AccountSnapShot> {
    let fs = split_fields(s);
    if fs.len() == 5 {
        let client = spec_parse_uint(fs[0], 65535);
        let av = spec_parse_dec(fs[1]);
        let hd = spec_parse_dec(fs[2]);
        let tt = spec_parse_dec(fs[3]);
        let locked: Option<bool> = if fs[4] == kw_true() {
            Some(true)
        } else if fs[4] == kw_false() {
            Some(false)
        } else {
            None
        };
        if client is Some && av is Some && hd is Some && tt is Some && locked is Some {
            Some(
                AccountSnapShot {
                    client: client->0 as u16,
                    available: Decimal { units: av->0 as i128 },
                    held: Decimal { units: hd->0 as i128 },
                    total: Decimal { units: tt->0 as i128 },
                    locked: locked->0,
                },
            )
        } else {
            None
        }
    } else {
        None
    }
}

/// Parses one snapshot row; returns exactly what [`spec_parse_snapshot`]
/// says.
pub fn parse_snapshot_row(s: &[u8]) -> (r: Option<AccountSnapShot>)
    ensures
        r == spec_parse_snapshot(s@),
{
    let fields = split_row(s);
    if fields.len() != 5 {
        return None;
    }
    proof {
        assert(views_of(fields@)[0] == fields@[0]@);
        assert(views_of(fields@)[1] == fields@[1]@);
        assert(views_of(fields@)[2] == fields@[2]@);
        assert(views_of(fields@)[3] == fields@[3]@);
        assert(views_of(fields@)[4] == fields@[4]@);
    }
    let client = match parse_uint(fields[0].as_slice(), 65535) {
        None => {
            return None;
        },
        Some(v) => v as u16,
    };
    let available = match parse_dec(fields[1].as_slice()) {
        None => {
            return None;
        },
        Some(d) => d,
    };
    let held = match parse_dec(fields[2].as_slice()) {
        None => {
            return None;
        },
        Some(d) => d,
    };
    let total = match parse_dec(fields[3].as_slice()) {
        None => {
            return None;
        },
        Some(d) => d,
    };
    let lf = &fields[4];
    let locked: bool = if lf.len() == 4 && lf[0] == 116 && lf[1] == 114 && lf[2] == 117 && lf[3] == 101 {
        true
    } else if lf.len() == 5 && lf[0] == 102 && lf[1] == 97 && lf[2] == 108 && lf[3] == 115 && lf[4] == 101 {
        false
    } else {
        proof {
            if lf@ == kw_true() || lf@ == kw_false() {
                assert(false);
            }
        }
        return None;
    };
    proof {
        if locked {
            assert(lf@ =~= kw_true());
        } else {
            assert(lf@ =~= kw_false());
        }
    }
    Some(AccountSnapShot { client, available, held, total, locked })
}

/// A printed snapshot value holds no comma: digits, a sign, or a dot only.
proof fn lemma_fmt_dec_no_comma(v: int)
    ensures
        forall|j: int| 0 <= j < spec_fmt_dec(v).len() ==> spec_fmt_dec(v)[j] != 44,
{
    let mag = if v < 0 {
        -v
    } else {
        v
    };
    let ipart = mag / pow10(28);
    let f4 = (mag % pow10(28)) / pow10(24);
    lemma_digits_seq(ipart as nat);
    lemma_frac_digits(f4 as nat, 4);
    lemma_strip0(frac_digits(f4 as nat, 4));
    let ds = digits_seq(ipart as nat);
    let fp = strip0(frac_digits(f4 as nat, 4));
    assert forall|j: int| 0 <= j < spec_fmt_dec(v).len() implies spec_fmt_dec(v)[j] != 44 by {
        let s = spec_fmt_dec(v);
        let body = ds + (if f4 == 0 {
            Seq::<u8>::empty()
        } else {
            seq![46u8] + fp
        });
        let k = if v < 0 {
            j - 1
        } else {
            j
        };
        if 0 <= k {
            assert(body[k] == s[j]);
            if k < ds.len() {
                assert(is_digit(ds[k]));
            } else if k > ds.len() {
                assert(is_digit(fp[k - ds.len() - 1]));
            }
        }
    }
}

/// Printing a snapshot row and parsing it back yields exactly the same
/// snapshot.
pub proof fn lemma_snapshot_row_round_trip(s: AccountSnapShot)
    requires
        snapshot_wf(s),
    ensures
        spec_parse_snapshot(spec_fmt_snapshot(s)) == Some(s),
{
    let cd = digits_seq(s.client as nat);
    let av = spec_fmt_dec(s.available@);
    let hd = spec_fmt_dec(s.held@);
    let tt = spec_fmt_dec(s.total@);
    let lk = if s.locked {
        kw_true()
    } else {
        kw_false()
    };
    lemma_digits_seq(s.client as nat);
    lemma_fmt_dec_no_comma(s.available@);
    lemma_fmt_dec_no_comma(s.held@);
    lemma_fmt_dec_no_comma(s.total@);
    let row = spec_fmt_snapshot(s);
    let r4 = lk;
    let r3 = tt + seq![44u8] + r4;
    let r2 = hd + seq![44u8] + r3;
    let r1 = av + seq![44u8] + r2;
    assert(row =~= cd + seq![44u8] + r1);
    lemma_split_single(lk);
    lemma_split_prepend(tt, r4);
    assert(tt + seq![44u8] + r4 =~= r3);
    lemma_split_prepend(hd, r3);
    assert(hd + seq![44u8] + r3 =~= r2);
    lemma_split_prepend(av, r2);
    assert(av + seq![44u8] + r2 =~= r1);
    lemma_split_prepend(cd, r1);
    let fs = split_fields(row);
    assert(fs =~= seq![cd, av, hd, tt, lk]);
    lemma_print_parse_dec(s.available@);
    lemma_print_parse_dec(s.held@);
    lemma_print_parse_dec(s.total@);
    assert(spec_parse_uint(cd, 65535) == Some(s.client as int));
    assert(lk != kw_true() ==> !s.locked) by {
        if s.locked {
        }
    }
    assert(kw_true() != kw_false());
    assert(spec_parse_snapshot(row) == Some(s));
}

} // verus!

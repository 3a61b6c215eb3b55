//! Decimal text: parsing user-entered numerals into micro-units, and
//! formatting micro-unit values back to fixed-precision decimal text.
//!
//! Text is handled as ASCII bytes.  A numeral is an optional leading minus,
//! then digits with at most one dot; its value is truncated to six decimal
//! places (one micro-unit).  Formatting rounds half away from zero to the
//! printed precision.

use crate::fixed::{tdiv, SCALE};
use vstd::prelude::*;

verus! {

/// ASCII codes the numeral grammar uses.
pub const MINUS: u8 = 45;

pub const DOT: u8 = 46;

pub const COMMA: u8 = 44;

pub const NEWLINE: u8 = 10;

pub const ZERO: u8 = 48;

/// Largest magnitude (exclusive), in whole units, a numeral may carry:
/// anything at or above it is rejected as out of range.
pub const UNIT_LIMIT: i64 = 100_000_000;

pub open spec fn is_digit_byte(b: u8) -> bool {
    ZERO <= b <= 57
}

pub open spec fn digit_of(b: u8) -> int {
    b - ZERO
}

/// The value of a run of digit bytes, most significant first.
pub open spec fn digits_val(s: Seq<u8>) -> int
    decreases s.len(),
{
    if s.len() == 0 {
        0
    } else {
        digits_val(s.drop_last()) * 10 + digit_of(s.last())
    }
}

pub open spec fn all_digits(s: Seq<u8>) -> bool {
    forall|i: int| 0 <= i < s.len() ==> is_digit_byte(#[trigger] s[i])
}

pub open spec fn pow10(k: nat) -> int
    decreases k,
{
    if k == 0 {
        1
    } else {
        10 * pow10((k - 1) as nat)
    }
}

/// Whether the numeral starts with a minus sign.
pub open spec fn neg_numeral(s: Seq<u8>) -> bool {
    s.len() > 0 && s[0] == MINUS
}

/// The numeral with any sign stripped.
pub open spec fn numeral_body(s: Seq<u8>) -> Seq<u8> {
    if neg_numeral(s) {
        s.skip(1)
    } else {
        s
    }
}

pub open spec fn has_dot(b: Seq<u8>) -> bool {
    exists|i: int| 0 <= i < b.len() && #[trigger] b[i] == DOT
}

pub open spec fn dot_at(b: Seq<u8>) -> int {
    choose|i: int| 0 <= i < b.len() && #[trigger] b[i] == DOT
}

/// A well-formed unsigned numeral body: nonempty, digits with at most one
/// dot, and not a lone dot.
pub open spec fn body_wf(b: Seq<u8>) -> bool {
    &&& b.len() >= 1
    &&& forall|i: int| 0 <= i < b.len() ==> (is_digit_byte(#[trigger] b[i]) || b[i] == DOT)
    &&& forall|i: int, j: int|
        0 <= i < b.len() && 0 <= j < b.len() && #[trigger] b[i] == DOT && #[trigger] b[j] == DOT
            ==> i == j
    &&& (has_dot(b) ==> b.len() >= 2)
}

pub open spec fn int_digits(b: Seq<u8>) -> Seq<u8> {
    if has_dot(b) {
        b.take(dot_at(b))
    } else {
        b
    }
}

pub open spec fn frac_digits(b: Seq<u8>) -> Seq<u8> {
    if has_dot(b) {
        b.skip(dot_at(b) + 1)
    } else {
        Seq::empty()
    }
}

/// The fractional digits' value in micro-units: the first six digits,
/// padded with zeros on the right; anything further is truncated away.
pub open spec fn frac_micro(f: Seq<u8>) -> int {
    if f.len() >= 6 {
        digits_val(f.take(6))
    } else {
        digits_val(f) * pow10((6 - f.len()) as nat)
    }
}

pub open spec fn numeral_wf(s: Seq<u8>) -> bool {
    body_wf(numeral_body(s))
}

/// The numeral's magnitude in micro-units.
pub open spec fn magnitude_micro(s: Seq<u8>) -> int {
    digits_val(int_digits(numeral_body(s))) * SCALE + frac_micro(frac_digits(numeral_body(s)))
}

/// The numeral's signed value in micro-units.
pub open spec fn numeral_micro(s: Seq<u8>) -> int {
    if neg_numeral(s) {
        -magnitude_micro(s)
    } else {
        magnitude_micro(s)
    }
}

/// What the parser accepts: a well-formed numeral whose whole-unit part is
/// below `UNIT_LIMIT`.
pub open spec fn parse_ok(s: Seq<u8>) -> bool {
    numeral_wf(s) && digits_val(int_digits(numeral_body(s))) < UNIT_LIMIT
}

/// Digit runs have nonnegative value, below `10^len`.
pub proof fn lemma_digits_val_range(s: Seq<u8>)
    requires
        all_digits(s),
    ensures
        0 <= digits_val(s) < pow10(s.len()),
    decreases s.len(),
{
    if s.len() > 0 {
        assert(all_digits(s.drop_last())) by {
            assert(forall|i: int|
                0 <= i < s.len() - 1 ==> #[trigger] s.drop_last()[i] == s[i]);
        }
        lemma_digits_val_range(s.drop_last());
    }
}

/// A prefix of a digit run is worth no more than the whole run.
pub proof fn lemma_digits_val_prefix(s: Seq<u8>, k: int)
    requires
        all_digits(s),
        0 <= k <= s.len(),
    ensures
        digits_val(s.take(k)) <= digits_val(s),
    decreases s.len() - k,
{
    if k < s.len() {
        lemma_digits_val_prefix(s, k + 1);
        assert(s.take(k + 1).drop_last() =~= s.take(k));
        assert(all_digits(s.take(k))) by {
            assert(forall|i: int| 0 <= i < k ==> #[trigger] s.take(k)[i] == s[i]);
        }
        assert(all_digits(s.take(k + 1))) by {
            assert(forall|i: int| 0 <= i < k + 1 ==> #[trigger] s.take(k + 1)[i] == s[i]);
        }
        lemma_digits_val_range(s.take(k));
        assert(digits_val(s.take(k + 1)) == digits_val(s.take(k)) * 10 + digit_of(s[k]));
        assert(digits_val(s.take(k)) * 10 >= digits_val(s.take(k))) by (nonlinear_arith)
            requires
                digits_val(s.take(k)) >= 0,
        ;
    } else {
        assert(s.take(k) =~= s);
    }
}

/// Parses a numeral into micro-units.  Accepts exactly the well-formed
/// numerals whose whole part is under `UNIT_LIMIT`; everything else —
/// empty text, a stray character, a second dot, an oversized value —
/// yields `None`.
pub fn parse_micro(v: &Vec<u8>) -> (r: Option<i64>)
    ensures
        r is Some <==> parse_ok(v@),
        r is Some ==> r->0 == numeral_micro(v@) && -100_000_000_000_000 < r->0
            < 100_000_000_000_000,
{
    let n: usize = v.len();
    let neg: bool = n > 0 && v[0] == MINUS;
    let start: usize = if neg {
        1
    } else {
        0
    };
    let ghost body: Seq<u8> = numeral_body(v@);
    proof {
        assert(body =~= v@.skip(start as int));
    }
    if n == start {
        return None;
    }
    // Whole-unit digits, up to the dot or the end.
    let mut i: usize = start;
    let mut units: i64 = 0;
    while i < n && v[i] != DOT
        invariant
            start <= i <= n,
            n == v@.len(),
            body == v@.skip(start as int),
            body == numeral_body(v@),
            0 <= units < UNIT_LIMIT,
            units == digits_val(body.take(i - start)),
            forall|j: int| 0 <= j < i - start ==> is_digit_byte(#[trigger] body[j]),
            forall|j: int| 0 <= j < i - start ==> body[j] != DOT,
        decreases n - i,
    {
        let b: u8 = v[i];
        if b < ZERO || b > 57 {
            // A byte that is neither digit nor dot: not a numeral.
            assert(!parse_ok(v@)) by {
                assert(body[i - start] == b);
                if numeral_wf(v@) {
                    assert(is_digit_byte(body[i - start]) || body[i - start] == DOT);
                }
            }
            return None;
        }
        let d: i64 = (b - ZERO) as i64;
        let next: i64 = units * 10 + d;
        proof {
            assert(body.take(i - start + 1).drop_last() =~= body.take(i - start));
            assert(body.take(i - start + 1).last() == body[i - start]);
        }
        if next >= UNIT_LIMIT {
            // The whole part is already out of range; no continuation can
            // shrink it.
            assert(!parse_ok(v@)) by {
                if numeral_wf(v@) {
                    let ids = int_digits(body);
                    assert(forall|j: int|
                        0 <= j < ids.len() ==> is_digit_byte(#[trigger] ids[j]) && ids[j] != DOT);
                    if has_dot(body) {
                        if dot_at(body) <= i - start {
                            assert(body[dot_at(body)] == DOT);
                            assert(false);
                        }
                        assert(body.take(i - start + 1) =~= ids.take(i - start + 1));
                    } else {
                        assert(body.take(i - start + 1) =~= ids.take(i - start + 1));
                    }
                    lemma_digits_val_prefix(ids, i - start + 1);
                }
            }
            return None;
        }
        units = next;
        i = i + 1;
    }
    let units_end: usize = i;
    let ghost ulen: int = units_end - start;
    if units_end == n {
        // No dot: the body must be all digits, at least one.
        proof {
            assert(body.take(ulen) =~= body);
            assert(!has_dot(body)) by {
                if has_dot(body) {
                    assert(body[dot_at(body)] == DOT);
                }
            }
            assert(int_digits(body) == body);
            assert(frac_digits(body) =~= Seq::<u8>::empty());
            assert(numeral_wf(v@));
            assert(parse_ok(v@));
        }
        let val: i64 = units * SCALE;
        if neg {
            return Some(-val);
        }
        return Some(val);
    }
    // v[units_end] is the dot; scan the fraction.
    let mut j: usize = units_end + 1;
    let mut frac: i64 = 0;
    let mut fcount: usize = 0;
    while j < n
        invariant
            units_end + 1 <= j <= n,
            n == v@.len(),
            body == v@.skip(start as int),
            body == numeral_body(v@),
            start <= units_end < n,
            body[units_end - start] == DOT,
            forall|q: int| 0 <= q < units_end - start ==> is_digit_byte(#[trigger] body[q]),
            forall|q: int| 0 <= q < units_end - start ==> body[q] != DOT,
            forall|q: int|
                units_end - start < q < j - start ==> is_digit_byte(#[trigger] body[q]) && body[q]
                    != DOT,
            fcount == if j - units_end - 1 <= 6 {
                j - units_end - 1
            } else {
                6
            },
            0 <= frac < pow10(fcount as nat),
            fcount <= 6,
            frac == digits_val(body.skip(units_end - start + 1).take(fcount as int)),
        decreases n - j,
    {
        let b: u8 = v[j];
        if b < ZERO || b > 57 {
            // A second dot or a stray byte inside the fraction.
            assert(!parse_ok(v@)) by {
                if numeral_wf(v@) {
                    assert(body[j - start] == b);
                    assert(is_digit_byte(body[j - start]) || body[j - start] == DOT);
                    if body[j - start] == DOT {
                        assert(body[units_end - start] == DOT);
                    }
                }
            }
            return None;
        }
        proof {
            let f = body.skip(units_end - start + 1);
            if fcount < 6 {
                assert(f.take(fcount + 1).drop_last() =~= f.take(fcount as int));
                assert(f.take(fcount + 1).last() == body[j - start]);
            }
        }
        if fcount < 6 {
            proof {
                assert(pow10(0) == 1);
                assert(pow10(1) == 10);
                assert(pow10(2) == 100);
                assert(pow10(3) == 1000);
                assert(pow10(4) == 10000);
                assert(pow10(5) == 100000);
                assert(pow10(6) == 1000000);
            }
            frac = frac * 10 + ((b - ZERO) as i64);
            fcount = fcount + 1;
        }
        j = j + 1;
    }
    // Wholly scanned: well-formed if anything besides the lone dot exists.
    if units_end == start && fcount == 0 {
        assert(!parse_ok(v@)) by {
            assert(body.len() == 1 && body[0] == DOT);
            if numeral_wf(v@) {
                assert(has_dot(body));
            }
        }
        return None;
    }
    let ghost f = body.skip(units_end - start + 1);
    proof {
        assert(has_dot(body));
        assert(body_wf(body)) by {
            assert(forall|q: int|
                0 <= q < body.len() ==> (is_digit_byte(#[trigger] body[q]) || body[q] == DOT));
        }
        assert(dot_at(body) == units_end - start) by {
            let d0 = dot_at(body);
            assert(body[d0] == DOT);
        }
        assert(int_digits(body) =~= body.take(ulen));
        assert(frac_digits(body) == f);
        assert(f.len() == n - units_end - 1);
        if f.len() >= 6 {
            assert(fcount == 6);
            assert(frac_micro(f) == digits_val(f.take(6)));
        } else {
            assert(fcount == f.len());
            assert(f.take(fcount as int) =~= f);
        }
        assert(parse_ok(v@));
    }
    let scale_up: i64 = if fcount == 0 {
        1_000_000
    } else if fcount == 1 {
        100_000
    } else if fcount == 2 {
        10_000
    } else if fcount == 3 {
        1_000
    } else if fcount == 4 {
        100
    } else if fcount == 5 {
        10
    } else {
        1
    };
    proof {
        if f.len() < 6 {
            assert(pow10((6 - f.len()) as nat) == scale_up) by {
                assert(pow10(0) == 1);
                assert(pow10(1) == 10);
                assert(pow10(2) == 100);
                assert(pow10(3) == 1000);
                assert(pow10(4) == 10000);
                assert(pow10(5) == 100000);
                assert(pow10(6) == 1000000);
            }
        }
    }
    proof {
        assert(pow10(0) == 1);
        assert(pow10(1) == 10);
        assert(pow10(2) == 100);
        assert(pow10(3) == 1000);
        assert(pow10(4) == 10000);
        assert(pow10(5) == 100000);
        assert(pow10(6) == 1000000);
        assert(units * 10 >= units) by (nonlinear_arith)
            requires
                units >= 0,
        ;
        assert((units as int) * SCALE < 100_000_000_000_000) by (nonlinear_arith)
            requires
                0 <= units < 100_000_000,
        ;
        assert(0 <= (units as int) * SCALE) by (nonlinear_arith)
            requires
                0 <= units,
        ;
        assert(0 <= (frac as int) * (scale_up as int) < 1_000_000) by (nonlinear_arith)
            requires
                0 <= frac,
                1 <= scale_up,
                (frac as int) < pow10(fcount as nat),
                pow10(fcount as nat) * (scale_up as int) == 1_000_000,
        ;
    }
    let val: i64 = units * SCALE + frac * scale_up;
    if neg {
        Some(-val)
    } else {
        Some(val)
    }
}

/// Parses a loan term: digit-only text whose value is in `[low, high]`.
pub fn parse_count(v: &Vec<u8>, low: u32, high: u32) -> (r: Option<u32>)
    requires
        1 <= low <= high <= 10_000,
    ensures
        r is Some <==> (v@.len() >= 1 && all_digits(v@) && low <= digits_val(v@) <= high),
        r is Some ==> r->0 == digits_val(v@),
{
    let n: usize = v.len();
    if n == 0 {
        return None;
    }
    let mut i: usize = 0;
    let mut acc: u32 = 0;
    while i < n
        invariant
            0 <= i <= n,
            n == v@.len(),
            0 <= acc <= high,
            acc == digits_val(v@.take(i as int)),
            high <= 10_000,
            forall|j: int| 0 <= j < i ==> is_digit_byte(#[trigger] v@[j]),
        decreases n - i,
    {
        let b: u8 = v[i];
        if b < ZERO || b > 57 {
            return None;
        }
        proof {
            assert(v@.take(i + 1).drop_last() =~= v@.take(i as int));
            assert(v@.take(i + 1).last() == v@[i as int]);
        }
        let d: u32 = (b - ZERO) as u32;
        let next: u32 = acc * 10 + d;
        if next > high {
            assert(!(low <= digits_val(v@) <= high) || !all_digits(v@)) by {
                if all_digits(v@) {
                    lemma_digits_val_prefix(v@, i + 1);
                    lemma_digits_val_range(v@);
                }
            }
            return None;
        }
        acc = next;
        i = i + 1;
    }
    proof {
        assert(v@.take(n as int) =~= v@);
    }
    if acc < low {
        return None;
    }
    Some(acc)
}

/// The decimal digits of `n`, most significant first.
pub open spec fn dec_digits(n: nat) -> Seq<u8>
    decreases n,
{
    if n < 10 {
        seq![(ZERO + n) as u8]
    } else {
        dec_digits(n / 10).push((ZERO + n % 10) as u8)
    }
}

/// Appends the decimal digits of `n`.
pub fn push_decimal(out: &mut Vec<u8>, n: u64)
    ensures
        final(out)@ == old(out)@ + dec_digits(n as nat),
    decreases n,
{
    if n < 10 {
        out.push(ZERO + (n as u8));
        proof {
            assert(final(out)@ =~= old(out)@ + dec_digits(n as nat));
        }
    } else {
        push_decimal(out, n / 10);
        out.push(ZERO + ((n % 10) as u8));
        proof {
            assert(final(out)@ =~= old(out)@ + dec_digits(n as nat));
        }
    }
}

/// Decimal digit runs decode to the number they were made from.
pub proof fn lemma_dec_digits_val(n: nat)
    ensures
        all_digits(dec_digits(n)),
        digits_val(dec_digits(n)) == n,
        dec_digits(n).len() >= 1,
    decreases n,
{
    if n < 10 {
        let s = dec_digits(n);
        assert(s.len() == 1);
        assert(s.drop_last() =~= Seq::<u8>::empty());
        assert(digits_val(s) == digits_val(s.drop_last()) * 10 + digit_of(s.last()));
        assert(digits_val(s) == n);
    } else {
        lemma_dec_digits_val(n / 10);
        let s = dec_digits(n);
        assert(s.drop_last() =~= dec_digits(n / 10));
        assert(s.last() == (ZERO + n % 10) as u8);
        assert(digit_of(s.last()) == n % 10);
        assert(digits_val(s.drop_last()) == n / 10);
        assert(digits_val(s) == digits_val(s.drop_last()) * 10 + digit_of(s.last()));
        assert(digits_val(s) == n) by {
            vstd::arithmetic::div_mod::lemma_fundamental_div_mod(n as int, 10);
            vstd::arithmetic::mul::lemma_mul_is_commutative((n / 10) as int, 10);
        }
        assert(all_digits(s)) by {
            assert(forall|i: int|
                0 <= i < s.len() - 1 ==> #[trigger] s[i] == dec_digits(n / 10)[i]);
            assert(is_digit_byte(s[s.len() - 1]));
        }
    }
}

/// `v` rounded to cents (half away from zero), still in micro-units.
pub open spec fn round_cents(v: int) -> int {
    if v >= 0 {
        tdiv(v + 5000, 10_000) * 10_000
    } else {
        -(tdiv(-v + 5000, 10_000) * 10_000)
    }
}

/// `v` rounded to four decimal places (half away from zero), in micro-units.
pub open spec fn round_tenthousandths(v: int) -> int {
    if v >= 0 {
        tdiv(v + 50, 100) * 100
    } else {
        -(tdiv(-v + 50, 100) * 100)
    }
}

/// The canonical two-decimal rendering of `v` micro-units.
#[verifier::opaque]
pub open spec fn money_text(v: int) -> Seq<u8> {
    let m = if v >= 0 {
        v
    } else {
        -v
    };
    let cents = tdiv(m + 5000, 10_000);
    let sign: Seq<u8> = if v < 0 {
        seq![MINUS]
    } else {
        Seq::empty()
    };
    sign + dec_digits((cents / 100) as nat) + seq![
        DOT,
        (ZERO + (cents % 100) / 10) as u8,
        (ZERO + (cents % 100) % 10) as u8,
    ]
}

/// The canonical four-decimal rendering of `v` micro-units.
#[verifier::opaque]
pub open spec fn rate_text(v: int) -> Seq<u8> {
    let m = if v >= 0 {
        v
    } else {
        -v
    };
    let t = tdiv(m + 50, 100);
    let sign: Seq<u8> = if v < 0 {
        seq![MINUS]
    } else {
        Seq::empty()
    };
    sign + dec_digits((t / 10_000) as nat) + seq![
        DOT,
        (ZERO + (t % 10_000) / 1000) as u8,
        (ZERO + ((t % 10_000) / 100) % 10) as u8,
        (ZERO + ((t % 10_000) / 10) % 10) as u8,
        (ZERO + (t % 10_000) % 10) as u8,
    ]
}

/// Appends the two-decimal rendering of `v` micro-units.
pub fn push_money(out: &mut Vec<u8>, v: i64)
    ensures
        final(out)@ == old(out)@ + money_text(v as int),
{
    let m: u128 = if v >= 0 {
        v as u128
    } else {
        (-(v as i128)) as u128
    };
    if v < 0 {
        out.push(MINUS);
    }
    let cents: u64 = ((m + 5000) / 10_000) as u64;
    proof {
        reveal(money_text);
        let sm: int = if v >= 0 {
            v as int
        } else {
            -(v as int)
        };
        assert(m == sm);
        assert(cents == tdiv(sm + 5000, 10_000));
    }
    push_decimal(out, cents / 100);
    let cc: u64 = cents % 100;
    out.push(DOT);
    out.push(ZERO + ((cc / 10) as u8));
    out.push(ZERO + ((cc % 10) as u8));
    proof {
        assert(final(out)@ =~= old(out)@ + money_text(v as int));
    }
}

/// A formatted numeral — sign, whole digits, dot, fraction digits — is a
/// well-formed numeral spelling exactly the value of those digits, and the
/// parser accepts it whenever the whole part is within its input range.
proof fn lemma_formatted_parses(neg: bool, units: nat, fr: Seq<u8>)
    requires
        1 <= fr.len() <= 6,
        all_digits(fr),
    ensures
        ({
            let sign: Seq<u8> = if neg {
                seq![MINUS]
            } else {
                Seq::empty()
            };
            let s = sign + dec_digits(units) + seq![DOT] + fr;
            &&& numeral_wf(s)
            &&& units < UNIT_LIMIT ==> parse_ok(s)
            &&& magnitude_micro(s) == units * SCALE + frac_micro(fr)
            &&& neg_numeral(s) == neg
        }),
{
    let sign: Seq<u8> = if neg {
        seq![MINUS]
    } else {
        Seq::empty()
    };
    let ds = dec_digits(units);
    let s = sign + ds + seq![DOT] + fr;
    lemma_dec_digits_val(units);
    let dl = ds.len() as int;
    let off: int = if neg {
        1
    } else {
        0
    };
    assert(s.len() == off + dl + 1 + fr.len());
    assert(forall|i: int| 0 <= i < dl ==> s[off + i] == ds[i]);
    assert(s[off + dl] == DOT);
    assert(forall|i: int| 0 <= i < fr.len() ==> s[off + dl + 1 + i] == fr[i]);
    assert(is_digit_byte(ds[0]));
    assert(neg_numeral(s) == neg);
    let b = numeral_body(s);
    assert(b =~= ds + seq![DOT] + fr);
    let bl = b.len() as int;
    assert(forall|i: int| 0 <= i < dl ==> b[i] == ds[i]);
    assert(b[dl] == DOT);
    assert(forall|i: int| 0 <= i < fr.len() ==> b[dl + 1 + i] == fr[i]);
    assert(forall|i: int|
        0 <= i < bl ==> (is_digit_byte(#[trigger] b[i]) || b[i] == DOT)) by {
        assert(forall|i: int| 0 <= i < dl ==> is_digit_byte(#[trigger] b[i]));
        assert(forall|i: int| dl + 1 <= i < bl ==> is_digit_byte(#[trigger] b[i]));
    }
    assert(forall|i: int| 0 <= i < bl && i != dl ==> #[trigger] b[i] != DOT) by {
        assert(forall|i: int| 0 <= i < dl ==> is_digit_byte(#[trigger] b[i]));
        assert(forall|i: int| dl + 1 <= i < bl ==> is_digit_byte(#[trigger] b[i]));
    }
    assert(has_dot(b));
    assert(body_wf(b));
    assert(dot_at(b) == dl) by {
        assert(b[dot_at(b)] == DOT);
    }
    assert(int_digits(b) =~= ds);
    assert(frac_digits(b) =~= fr);
    assert(digits_val(int_digits(b)) == units);
    assert(numeral_wf(s));
    if units < UNIT_LIMIT {
        assert(parse_ok(s));
    }
}

/// Two-decimal money text reads back, as a numeral, to exactly the value
/// rounded to cents — for every amount the schedule or summary can carry.
/// Within the input parser's range the parser itself accepts it too.
pub proof fn lemma_money_roundtrip(v: int)
    ensures
        numeral_wf(money_text(v)),
        numeral_micro(money_text(v)) == round_cents(v),
        -99_999_999_994_999 <= v <= 99_999_999_994_999 ==> parse_ok(money_text(v)),
{
    reveal(money_text);
    let m: int = if v >= 0 {
        v
    } else {
        -v
    };
    let cents = tdiv(m + 5000, 10_000);
    crate::fixed::lemma_tdiv_bounds(m + 5000, 10_000);
    let units = cents / 100;
    let cc = cents % 100;
    if -99_999_999_994_999 <= v <= 99_999_999_994_999 {
        crate::fixed::lemma_tdiv_ordered(m + 5000, 99_999_999_999_999, 10_000);
        crate::fixed::lemma_tdiv_value(99_999_999_999_999, 10_000, 9_999_999_999, 9_999);
        vstd::arithmetic::div_mod::lemma_multiply_divide_lt(cents, 100, 100_000_000);
    }
    vstd::arithmetic::div_mod::lemma_fundamental_div_mod(cents, 100);
    let c1: u8 = (ZERO + cc / 10) as u8;
    let c2: u8 = (ZERO + cc % 10) as u8;
    let fr: Seq<u8> = seq![c1, c2];
    vstd::arithmetic::div_mod::lemma_fundamental_div_mod(cc, 10);
    assert(all_digits(fr)) by {
        assert(fr[0] == c1 && fr[1] == c2);
        assert(0 <= cc / 10 <= 9) by {
            vstd::arithmetic::div_mod::lemma_multiply_divide_lt(cc, 10, 10);
            crate::fixed::lemma_tdiv_bounds(cc, 10);
        }
    }
    lemma_formatted_parses(v < 0, units as nat, fr);
    let sign: Seq<u8> = if v < 0 {
        seq![MINUS]
    } else {
        Seq::empty()
    };
    assert(money_text(v) =~= sign + dec_digits(units as nat) + seq![DOT] + fr);
    assert(digits_val(fr) == (cc / 10) * 10 + cc % 10) by {
        let fr1: Seq<u8> = seq![c1];
        assert(fr.drop_last() =~= fr1);
        assert(fr1.drop_last() =~= Seq::<u8>::empty());
        assert(fr1.len() == 1 && fr1.last() == c1);
        assert(digits_val(fr1) == digits_val(fr1.drop_last()) * 10 + digit_of(fr1.last()));
        assert(digits_val(fr1) == digit_of(c1));
        assert(digits_val(fr) == digit_of(c1) * 10 + digit_of(c2));
    }
    assert(digits_val(fr) == cc) by {
        vstd::arithmetic::mul::lemma_mul_is_commutative(cc / 10, 10);
    }
    assert(frac_micro(fr) == cc * pow10(4));
    assert(pow10(4) == 10_000) by {
        assert(pow10(0) == 1);
        assert(pow10(1) == 10);
        assert(pow10(2) == 100);
        assert(pow10(3) == 1000);
    }
    assert(magnitude_micro(money_text(v)) == units * SCALE + cc * 10_000);
    assert(units * SCALE + cc * 10_000 == cents * 10_000) by {
        assert(cents == 100 * units + cc) by {
            vstd::arithmetic::mul::lemma_mul_is_commutative(units, 100);
        }
        assert((100 * units + cc) * 10_000 == units * 1_000_000 + cc * 10_000)
            by (nonlinear_arith);
    }
}

/// Four-decimal rate text reads back, as a numeral, to exactly the value
/// rounded to the fourth decimal place, for every rate the library can
/// hold.  Within the input parser's range the parser itself accepts it.
pub proof fn lemma_rate_roundtrip(v: int)
    ensures
        numeral_wf(rate_text(v)),
        numeral_micro(rate_text(v)) == round_tenthousandths(v),
        -99_999_999_999_949 <= v <= 99_999_999_999_949 ==> parse_ok(rate_text(v)),
{
    reveal(rate_text);
    let m: int = if v >= 0 {
        v
    } else {
        -v
    };
    let t = tdiv(m + 50, 100);
    crate::fixed::lemma_tdiv_bounds(m + 50, 100);
    let units = t / 10_000;
    let f4 = t % 10_000;
    if -99_999_999_999_949 <= v <= 99_999_999_999_949 {
        crate::fixed::lemma_tdiv_ordered(m + 50, 99_999_999_999_999, 100);
        crate::fixed::lemma_tdiv_value(99_999_999_999_999, 100, 999_999_999_999, 99);
        vstd::arithmetic::div_mod::lemma_multiply_divide_lt(t, 10_000, 100_000_000);
    }
    vstd::arithmetic::div_mod::lemma_fundamental_div_mod(t, 10_000);
    let c1: u8 = (ZERO + f4 / 1000) as u8;
    let c2: u8 = (ZERO + (f4 / 100) % 10) as u8;
    let c3: u8 = (ZERO + (f4 / 10) % 10) as u8;
    let c4: u8 = (ZERO + f4 % 10) as u8;
    let fr: Seq<u8> = seq![c1, c2, c3, c4];
    assert(all_digits(fr)) by {
        assert(fr[0] == c1 && fr[1] == c2 && fr[2] == c3 && fr[3] == c4);
        assert(0 <= f4 / 1000 <= 9) by {
            vstd::arithmetic::div_mod::lemma_multiply_divide_lt(f4, 1000, 10);
            crate::fixed::lemma_tdiv_bounds(f4, 1000);
        }
    }
    lemma_formatted_parses(v < 0, units as nat, fr);
    let sign: Seq<u8> = if v < 0 {
        seq![MINUS]
    } else {
        Seq::empty()
    };
    assert(rate_text(v) =~= sign + dec_digits(units as nat) + seq![DOT] + fr);
    assert(digits_val(fr) == ((digit_of(c1) * 10 + digit_of(c2)) * 10 + digit_of(c3)) * 10
        + digit_of(c4)) by {
        let fr1: Seq<u8> = seq![c1];
        let fr2: Seq<u8> = seq![c1, c2];
        let fr3: Seq<u8> = seq![c1, c2, c3];
        assert(fr.drop_last() =~= fr3);
        assert(fr3.drop_last() =~= fr2);
        assert(fr2.drop_last() =~= fr1);
        assert(fr1.drop_last() =~= Seq::<u8>::empty());
        assert(fr1.len() == 1 && fr1.last() == c1);
        assert(fr2.len() == 2 && fr2.last() == c2);
        assert(fr3.len() == 3 && fr3.last() == c3);
        assert(fr.len() == 4 && fr.last() == c4);
        assert(digits_val(fr1) == digits_val(fr1.drop_last()) * 10 + digit_of(fr1.last()));
        assert(digits_val(fr1) == digit_of(c1));
        assert(digits_val(fr2) == digit_of(c1) * 10 + digit_of(c2));
        assert(digits_val(fr3) == digits_val(fr2) * 10 + digit_of(c3));
        assert(digits_val(fr) == digits_val(fr3) * 10 + digit_of(c4));
    }
    assert(digits_val(fr) == f4) by {
        assert(f4 == 1000 * (f4 / 1000) + 100 * ((f4 / 100) % 10) + 10 * ((f4 / 10) % 10) + f4
            % 10) by (nonlinear_arith)
            requires
                0 <= f4 < 10_000,
        ;
        assert(((f4 / 1000) * 10 + (f4 / 100) % 10) * 10 + (f4 / 10) % 10 == 100 * (f4 / 1000)
            + 10 * ((f4 / 100) % 10) + (f4 / 10) % 10) by (nonlinear_arith);
        assert((100 * (f4 / 1000) + 10 * ((f4 / 100) % 10) + (f4 / 10) % 10) * 10 == 1000 * (f4
            / 1000) + 100 * ((f4 / 100) % 10) + 10 * ((f4 / 10) % 10)) by (nonlinear_arith);
    }
    assert(frac_micro(fr) == f4 * pow10(2));
    assert(pow10(2) == 100) by {
        assert(pow10(0) == 1);
        assert(pow10(1) == 10);
    }
    assert(magnitude_micro(rate_text(v)) == units * SCALE + f4 * 100);
    assert(units * SCALE + f4 * 100 == t * 100) by {
        assert(t == 10_000 * units + f4) by {
            vstd::arithmetic::mul::lemma_mul_is_commutative(units, 10_000);
        }
        assert((10_000 * units + f4) * 100 == units * 1_000_000 + f4 * 100) by (nonlinear_arith);
    }
}

/// Appends the four-decimal rendering of `v` micro-units.
pub fn push_rate(out: &mut Vec<u8>, v: i64)
    ensures
        final(out)@ == old(out)@ + rate_text(v as int),
{
    let m: u128 = if v >= 0 {
        v as u128
    } else {
        (-(v as i128)) as u128
    };
    if v < 0 {
        out.push(MINUS);
    }
    let t: u64 = ((m + 50) / 100) as u64;
    proof {
        reveal(rate_text);
        let sm: int = if v >= 0 {
            v as int
        } else {
            -(v as int)
        };
        assert(m == sm);
        assert(t == tdiv(sm + 50, 100));
    }
    push_decimal(out, t / 10_000);
    let f: u64 = t % 10_000;
    out.push(DOT);
    out.push(ZERO + ((f / 1000) as u8));
    out.push(ZERO + (((f / 100) % 10) as u8));
    out.push(ZERO + (((f / 10) % 10) as u8));
    out.push(ZERO + ((f % 10) as u8));
    proof {
        assert(final(out)@ =~= old(out)@ + rate_text(v as int));
    }
}

} // verus!

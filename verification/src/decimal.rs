//! Fixed-point decimal numbers.
//!
//! Every quantity in a control stream or configuration (doses, times,
//! variances, covariate effects) is carried as an integer count of
//! nano-units, i.e. the real value times `10^9`. All arithmetic on them
//! is exact integer arithmetic, so contracts about configuration rules
//! can be stated and proved without floating point.

use vstd::prelude::*;

verus! {

/// Nano-units per whole unit.
pub const SCALE: i128 = 1_000_000_000;

/// Largest whole-unit magnitude accepted by the parser, as a digit count:
/// integer parts above `10^27` are rejected.
pub const MAX_INT_DIGITS_VALUE: i128 = 1_000_000_000_000_000_000_000_000_000;

/// A decimal number: `nanos` counts units of `10^-9`.
#[derive(Clone, Copy, PartialEq, Eq, Structural, Debug)]
pub struct Decimal {
    pub nanos: i128,
}

impl View for Decimal {
    type V = int;

    open spec fn view(&self) -> int {
        self.nanos as int
    }
}

pub open spec fn pow10(e: nat) -> int
    decreases e,
{
    if e == 0 {
        1
    } else {
        10 * pow10((e - 1) as nat)
    }
}

pub open spec fn is_digit(b: u8) -> bool {
    48u8 <= b && b <= 57u8
}

pub open spec fn digit_val(b: u8) -> int {
    b as int - 48
}

pub open spec fn all_digits(s: Seq<u8>) -> bool {
    forall|i: int| 0 <= i < s.len() ==> is_digit(#[trigger] s[i])
}

/// The integer a digit string denotes, most significant digit first.
pub open spec fn digits_val(s: Seq<u8>) -> int
    decreases s.len(),
{
    if s.len() == 0 {
        0
    } else {
        digits_val(s.drop_last()) * 10 + digit_val(s.last())
    }
}

/// Length of the sign prefix of a numeric literal: one for `+` or `-`.
pub open spec fn sign_len(s: Seq<u8>) -> int {
    if s.len() > 0 && (s[0] == 43u8 || s[0] == 45u8) {
        1
    } else {
        0
    }
}

/// End of the run of digits starting at `i`.
pub open spec fn digit_run_end(s: Seq<u8>, i: int) -> int
    recommends
        0 <= i <= s.len(),
    decreases s.len() - i when 0 <= i <= s.len()
{
    if i < s.len() && is_digit(s[i]) {
        digit_run_end(s, i + 1)
    } else {
        i
    }
}

/// The literal grammar: `sign? digits ('.' digits*)?` or `sign? '.' digits`,
/// with at least one digit overall.
pub open spec fn num_wf(s: Seq<u8>) -> bool {
    let a = sign_len(s);
    let b = digit_run_end(s, a);
    if b == s.len() {
        b > a
    } else {
        s[b] == 46u8 && digit_run_end(s, b + 1) == s.len() && (b > a || s.len() > b + 1)
    }
}

pub open spec fn int_part(s: Seq<u8>) -> Seq<u8> {
    s.subrange(sign_len(s), digit_run_end(s, sign_len(s)))
}

pub open spec fn frac_part(s: Seq<u8>) -> Seq<u8> {
    let b = digit_run_end(s, sign_len(s));
    if b < s.len() {
        s.subrange(b + 1, s.len() as int)
    } else {
        Seq::empty()
    }
}

/// Fraction digits past the ninth must be zero to be representable.
pub open spec fn frac_exact(f: Seq<u8>) -> bool {
    forall|i: int| 9 <= i < f.len() ==> #[trigger] f[i] == 48u8
}

pub open spec fn frac_take(f: Seq<u8>) -> Seq<u8> {
    if f.len() <= 9 {
        f
    } else {
        f.take(9)
    }
}

/// Nano-units denoted by the fraction digits.
pub open spec fn frac_nanos(f: Seq<u8>) -> int {
    digits_val(frac_take(f)) * pow10((9 - frac_take(f).len()) as nat)
}

pub open spec fn num_magnitude_ok(s: Seq<u8>) -> bool {
    digits_val(int_part(s)) <= MAX_INT_DIGITS_VALUE as int
}

pub open spec fn num_nanos(s: Seq<u8>) -> int {
    let mag = digits_val(int_part(s)) * pow10(9) + frac_nanos(frac_part(s));
    if sign_len(s) == 1 && s[0] == 45u8 {
        -mag
    } else {
        mag
    }
}

/// What `Decimal::parse` accepts and the value it returns, in nano-units.
pub open spec fn parse_nanos(s: Seq<u8>) -> Option<int> {
    if num_wf(s) && frac_exact(frac_part(s)) && num_magnitude_ok(s) {
        Some(num_nanos(s))
    } else {
        None
    }
}

proof fn lemma_pow10_vals()
    ensures
        pow10(0) == 1,
        pow10(9) == 1_000_000_000,
        pow10(13) == 10_000_000_000_000,
        pow10(36) == 1_000_000_000_000_000_000_000_000_000_000_000_000,
{
    reveal_with_fuel(pow10, 37);
}

proof fn lemma_pow10_pos(e: nat)
    ensures
        pow10(e) >= 1,
    decreases e,
{
    if e > 0 {
        lemma_pow10_pos((e - 1) as nat);
    }
}

proof fn lemma_pow10_increases(a: nat, b: nat)
    requires
        a <= b,
    ensures
        pow10(a) <= pow10(b),
    decreases b,
{
    if a < b {
        lemma_pow10_increases(a, (b - 1) as nat);
        lemma_pow10_pos((b - 1) as nat);
    }
}

proof fn lemma_digits_val_nonneg(s: Seq<u8>)
    requires
        all_digits(s),
    ensures
        digits_val(s) >= 0,
    decreases s.len(),
{
    if s.len() > 0 {
        assert(all_digits(s.drop_last()));
        lemma_digits_val_nonneg(s.drop_last());
    }
}

proof fn lemma_digits_val_bound(s: Seq<u8>)
    requires
        all_digits(s),
    ensures
        0 <= digits_val(s) < pow10(s.len()),
    decreases s.len(),
{
    if s.len() == 0 {
    } else {
        assert(all_digits(s.drop_last()));
        lemma_digits_val_bound(s.drop_last());
        assert(digits_val(s.drop_last()) * 10 + 10 <= pow10((s.len() - 1) as nat) * 10) by (nonlinear_arith)
            requires
                digits_val(s.drop_last()) < pow10((s.len() - 1) as nat),
        ;
    }
}

proof fn lemma_digits_val_concat(x: Seq<u8>, y: Seq<u8>)
    ensures
        digits_val(x + y) == digits_val(x) * pow10(y.len()) + digits_val(y),
    decreases y.len(),
{
    if y.len() == 0 {
        assert(x + y =~= x);
        assert(digits_val(x) * pow10(0) == digits_val(x) * 1);
    } else {
        lemma_digits_val_concat(x, y.drop_last());
        assert((x + y).drop_last() =~= x + y.drop_last());
        assert((x + y).last() == y.last());
        assert((digits_val(x) * pow10((y.len() - 1) as nat) + digits_val(y.drop_last())) * 10
            == digits_val(x) * (10 * pow10((y.len() - 1) as nat)) + digits_val(y.drop_last()) * 10)
            by (nonlinear_arith);
    }
}

proof fn lemma_digit_run_end_bounds(s: Seq<u8>, a: int)
    requires
        0 <= a <= s.len(),
    ensures
        a <= digit_run_end(s, a) <= s.len(),
    decreases s.len() - a,
{
    if a < s.len() && is_digit(s[a]) {
        lemma_digit_run_end_bounds(s, a + 1);
    }
}

proof fn lemma_digit_run_end_from_scan(s: Seq<u8>, a: int, i: int)
    requires
        0 <= a <= i <= s.len(),
        forall|k: int| a <= k < i ==> is_digit(#[trigger] s[k]),
        i == s.len() || !is_digit(s[i]),
    ensures
        digit_run_end(s, a) == i,
    decreases i - a,
{
    if a < i {
        lemma_digit_run_end_from_scan(s, a + 1, i);
    }
}

proof fn lemma_digit_run_all_digits(s: Seq<u8>, a: int, i: int)
    requires
        0 <= a <= i <= s.len(),
        digit_run_end(s, a) >= i,
    ensures
        forall|k: int| a <= k < i ==> is_digit(#[trigger] s[k]),
    decreases i - a,
{
    if a < i {
        assert(is_digit(s[a]));
        lemma_digit_run_all_digits(s, a + 1, i);
    }
}

/// `10^e` as a machine integer.
fn pow10_i128(e: usize) -> (r: i128)
    requires
        e <= 36,
    ensures
        r == pow10(e as nat),
{
    let mut p: i128 = 1;
    let mut k: usize = 0;
    proof {
        lemma_pow10_vals();
    }
    while k < e
        invariant
            k <= e <= 36,
            p == pow10(k as nat),
            pow10(36) == 1_000_000_000_000_000_000_000_000_000_000_000_000,
        decreases e - k,
    {
        proof {
            lemma_pow10_increases((k + 1) as nat, 36);
            lemma_pow10_pos(k as nat);
        }
        p = p * 10;
        k = k + 1;
    }
    p
}

impl Decimal {
    pub fn from_nanos(n: i128) -> (r: Decimal)
        ensures
            r@ == n,
    {
        Decimal { nanos: n }
    }

    pub fn from_int(i: i64) -> (r: Decimal)
        ensures
            r@ == i * SCALE,
    {
        Decimal { nanos: (i as i128) * SCALE }
    }

    pub fn zero() -> (r: Decimal)
        ensures
            r@ == 0,
    {
        Decimal { nanos: 0 }
    }

    /// Parse a numeric literal. Accepts exactly the values representable
    /// in nano-units with at most `10^27` whole units.
    pub fn parse(s: &[u8]) -> (r: Option<Decimal>)
        ensures
            r.is_some() == parse_nanos(s@).is_some(),
            r matches Some(d) ==> parse_nanos(s@) == Some(d@),
    {
        let n = s.len();
        let mut i: usize = 0;
        let mut neg = false;
        if n > 0 && (s[0] == 43u8 || s[0] == 45u8) {
            neg = s[0] == 45u8;
            i = 1;
        }
        let a = i;
        assert(a == sign_len(s@));

        // integer part
        let mut m: i128 = 0;
        while i < n && s[i] >= 48u8 && s[i] <= 57u8
            invariant
                a == sign_len(s@),
                a <= i <= n == s@.len(),
                forall|k: int| a <= k < i ==> is_digit(#[trigger] s@[k]),
                m == digits_val(s@.subrange(a as int, i as int)),
                0 <= m <= MAX_INT_DIGITS_VALUE,
            decreases n - i,
        {
            let d = (s[i] - 48u8) as i128;
            proof {
                assert(s@.subrange(a as int, i + 1).drop_last() =~= s@.subrange(a as int, i as int));
            }
            m = m * 10 + d;
            i = i + 1;
            if m > MAX_INT_DIGITS_VALUE {
                proof {
                    let ip = int_part(s@);
                    let b = digit_run_end(s@, a as int);
                    lemma_digit_run_end_bounds(s@, a as int);
                    lemma_digit_run_end_monotone(s@, a as int, i as int);
                    lemma_digit_run_all_digits(s@, a as int, b);
                    assert(b >= i) by {
                        lemma_digit_run_end_monotone(s@, a as int, i as int);
                    }
                    assert(ip =~= s@.subrange(a as int, i as int) + s@.subrange(i as int, b));
                    lemma_digits_val_concat(s@.subrange(a as int, i as int), s@.subrange(i as int, b));
                    lemma_digits_val_bound(s@.subrange(i as int, b));
                    lemma_pow10_pos((b - i) as nat);
                    assert(m * pow10((b - i) as nat) >= m) by (nonlinear_arith)
                        requires
                            m >= 0,
                            pow10((b - i) as nat) >= 1,
                    ;
                    assert(digits_val(ip) > MAX_INT_DIGITS_VALUE);
                }
                return None;
            }
        }
        proof {
            lemma_digit_run_end_from_scan(s@, a as int, i as int);
        }

        if i == n {
            // no fraction part
            if i == a {
                return None;
            }
            let mag = m * SCALE;
            proof {
                assert(frac_part(s@) =~= Seq::<u8>::empty());
                assert(digits_val(Seq::<u8>::empty()) == 0);
                lemma_pow10_vals();
                assert(m * SCALE == m * pow10(9));
            }
            if neg {
                return Some(Decimal { nanos: -mag });
            }
            return Some(Decimal { nanos: mag });
        }

        if s[i] != 46u8 {
            return None;
        }
        let fstart = i + 1;
        let mut j = fstart;
        let mut fv: i128 = 0;
        while j < n && s[j] >= 48u8 && s[j] <= 57u8
            invariant
                a == sign_len(s@),
                a <= i < n == s@.len(),
                digit_run_end(s@, a as int) == i as int,
                s@[i as int] == 46u8,
                fstart == i + 1,
                fstart <= j <= n,
                forall|k: int| fstart <= k < j ==> is_digit(#[trigger] s@[k]),
                forall|k: int| fstart + 9 <= k < j ==> #[trigger] s@[k] == 48u8,
                fv == digits_val(s@.subrange(fstart as int, if j <= fstart + 9 { j as int } else { fstart + 9 })),
                0 <= fv < 1_000_000_000,
            decreases n - j,
        {
            let d = (s[j] - 48u8) as i128;
            if j - fstart < 9 {
                proof {
                    assert(s@.subrange(fstart as int, j + 1).drop_last() =~= s@.subrange(
                        fstart as int,
                        j as int,
                    ));
                    let pre = s@.subrange(fstart as int, j + 1);
                    assert(all_digits(pre));
                    lemma_digits_val_bound(pre);
                    lemma_pow10_increases(pre.len() as nat, 9);
                    lemma_pow10_vals();
                }
                fv = fv * 10 + d;
            } else {
                if s[j] != 48u8 {
                    // a non-zero digit beyond nano precision: not representable
                    proof {
                        let f = frac_part(s@);
                        assert(f =~= s@.subrange(fstart as int, n as int));
                        assert(f[j - fstart] == s@[j as int]);
                        assert(!frac_exact(f));
                    }
                    return None;
                }
            }
            j = j + 1;
        }
        if j < n {
            // a byte that is neither digit nor end: malformed
            proof {
                lemma_digit_run_end_from_scan(s@, fstart as int, j as int);
            }
            return None;
        }
        if i == a && fstart == n {
            // a lone '.' with no digits on either side
            proof {
                lemma_digit_run_end_from_scan(s@, fstart as int, j as int);
            }
            return None;
        }
        proof {
            lemma_digit_run_end_from_scan(s@, fstart as int, j as int);
        }

        let flen = n - fstart;
        let fnanos: i128 = if flen < 9 {
            let p = pow10_i128(9 - flen);
            proof {
                let f = frac_part(s@);
                let ft = frac_take(f);
                assert(f =~= s@.subrange(fstart as int, n as int));
                assert(ft == f);
                lemma_pow10_increases((9 - flen) as nat, 9);
                lemma_pow10_pos((9 - flen) as nat);
                lemma_pow10_vals();
                assert(fv * p <= 1_000_000_000 * p) by (nonlinear_arith)
                    requires
                        0 <= fv < 1_000_000_000,
                        p >= 1,
                ;
                assert(1_000_000_000 * p <= 1_000_000_000 * 1_000_000_000) by (nonlinear_arith)
                    requires
                        1 <= p <= 1_000_000_000,
                ;
                assert(fv * p == frac_nanos(f));
            }
            fv * p
        } else {
            proof {
                let f = frac_part(s@);
                assert(f =~= s@.subrange(fstart as int, n as int));
                if flen > 9 {
                    assert(frac_take(f) =~= s@.subrange(fstart as int, fstart + 9));
                } else {
                    assert(frac_take(f) =~= s@.subrange(fstart as int, n as int));
                }
                assert(frac_take(f).len() == 9);
                assert(fv == digits_val(frac_take(f)));
                lemma_pow10_vals();
                assert(frac_nanos(f) == digits_val(frac_take(f)) * pow10(0));
                assert(digits_val(frac_take(f)) * 1 == digits_val(frac_take(f)));
                assert(fv == frac_nanos(f));
            }
            fv
        };
        proof {
            let f = frac_part(s@);
            assert(f =~= s@.subrange(fstart as int, n as int));
            assert(frac_exact(f));
            assert(fnanos == frac_nanos(f));
            lemma_pow10_vals();
            assert(m * SCALE == m * pow10(9));
            assert(m * SCALE <= MAX_INT_DIGITS_VALUE * SCALE) by (nonlinear_arith)
                requires
                    0 <= m <= MAX_INT_DIGITS_VALUE,
            ;
        }
        let mag = m * SCALE + fnanos;
        if neg {
            Some(Decimal { nanos: -mag })
        } else {
            Some(Decimal { nanos: mag })
        }
    }
}

/// Integer square root: the largest `r` with `r * r <= n`.
pub fn isqrt_u128(n: u128) -> (r: u128)
    ensures
        (r as int) * (r as int) <= n as int,
        (r as int + 1) * (r as int + 1) > n as int,
{
    let mut lo: u128 = 0;
    let mut hi: u128 = 0xFFFF_FFFF_FFFF_FFFF;
    proof {
        assert(18446744073709551616int * 18446744073709551616int
            > 340282366920938463463374607431768211455int) by (nonlinear_arith);
        assert((hi as int + 1) * (hi as int + 1) > u128::MAX as int);
    }
    while lo < hi
        invariant
            lo <= hi,
            hi <= 0xFFFF_FFFF_FFFF_FFFF,
            (lo as int) * (lo as int) <= n as int,
            (hi as int + 1) * (hi as int + 1) > n as int,
        decreases hi - lo,
    {
        let mid = lo + (hi - lo + 1) / 2;
        proof {
            assert((mid as int) * (mid as int) <= (0xFFFF_FFFF_FFFF_FFFFu128 as int)
                * (0xFFFF_FFFF_FFFF_FFFFu128 as int)) by (nonlinear_arith)
                requires
                    0 <= mid as int <= 0xFFFF_FFFF_FFFF_FFFFu128 as int,
            ;
        }
        let sq = mid * mid;
        if sq <= n {
            lo = mid;
        } else {
            hi = mid - 1;
            proof {
                assert((mid as int) * (mid as int) > n as int);
            }
        }
    }
    lo
}


/// `r` is the integer square root of `n`.
pub open spec fn is_isqrt(n: int, r: int) -> bool {
    0 <= r && r * r <= n && (r + 1) * (r + 1) > n
}

/// The integer square root, as a value.
pub open spec fn sqrt_floor(n: int) -> int {
    choose|r: int| is_isqrt(n, r)
}

pub proof fn lemma_sqrt_floor_is(n: int, r: int)
    requires
        is_isqrt(n, r),
    ensures
        sqrt_floor(n) == r,
{
    assert(exists|x: int| is_isqrt(n, x)) by {
        assert(is_isqrt(n, r));
    }
    let c = sqrt_floor(n);
    assert(is_isqrt(n, c));
    if c < r {
        assert((c + 1) * (c + 1) <= r * r) by (nonlinear_arith)
            requires
                0 <= c + 1 <= r,
        ;
        assert(false);
    }
    if r < c {
        assert((r + 1) * (r + 1) <= c * c) by (nonlinear_arith)
            requires
                0 <= r + 1 <= c,
        ;
        assert(false);
    }
}

/// Variances above this bound (in nano-units) have no conversion.
pub const VARIANCE_LIMIT: i128 = 10_000_000_000_000_000_000_000_000;

impl Decimal {
    /// The coefficient of variation in percent, `100 * sqrt(v)`, of a
    /// variance `v`: the floor of `sqrt(v * 10^13)` in nano-units,
    /// exact whenever `100 * sqrt(v)` has at most nine decimals.
    pub fn cv_percent_from_variance(&self) -> (r: Option<Decimal>)
        ensures
            r.is_some() <==> 0 <= self@ <= VARIANCE_LIMIT,
            r matches Some(c) ==> c@ == sqrt_floor(self@ * pow10(13)) && c@ >= 0,
    {
        if self.nanos < 0 || self.nanos > VARIANCE_LIMIT {
            return None;
        }
        let x = (self.nanos as u128) * 10_000_000_000_000u128;
        let r = isqrt_u128(x);
        proof {
            lemma_pow10_vals();
            assert(r as int <= 20_000_000_000_000_000_000) by (nonlinear_arith)
                requires
                    (r as int) * (r as int) <= x as int,
                    x as int <= 100_000_000_000_000_000_000_000_000_000_000_000_000,
            ;
            lemma_sqrt_floor_is(x as int, r as int);
        }
        Some(Decimal { nanos: r as i128 })
    }

    /// The standard deviation `sqrt(v)` of a variance `v`: the floor of
    /// `sqrt(v * 10^9)` in nano-units, exact whenever `sqrt(v)` has at
    /// most nine decimals.
    pub fn sd_from_variance(&self) -> (r: Option<Decimal>)
        ensures
            r.is_some() <==> 0 <= self@ <= VARIANCE_LIMIT,
            r matches Some(c) ==> c@ == sqrt_floor(self@ * pow10(9)) && c@ >= 0,
    {
        if self.nanos < 0 || self.nanos > VARIANCE_LIMIT {
            return None;
        }
        let x = (self.nanos as u128) * 1_000_000_000u128;
        let r = isqrt_u128(x);
        proof {
            lemma_pow10_vals();
            assert(r as int <= 20_000_000_000_000_000_000) by (nonlinear_arith)
                requires
                    (r as int) * (r as int) <= x as int,
                    x as int <= 100_000_000_000_000_000_000_000_000_000_000_000_000,
            ;
            lemma_sqrt_floor_is(x as int, r as int);
        }
        Some(Decimal { nanos: r as i128 })
    }
}

proof fn lemma_digit_run_end_monotone(s: Seq<u8>, a: int, i: int)
    requires
        0 <= a <= i <= s.len(),
        forall|k: int| a <= k < i ==> is_digit(#[trigger] s[k]),
    ensures
        digit_run_end(s, a) >= i,
    decreases i - a,
{
    if a < i {
        lemma_digit_run_end_monotone(s, a + 1, i);
    } else {
        lemma_digit_run_end_bounds(s, a);
    }
}

} // verus!

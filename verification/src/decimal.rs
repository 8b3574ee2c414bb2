//! Exact decimal numbers, written in the source as `12.5`, and rational approximation.
use vstd::prelude::*;
use crate::text::{digit_char, nat_text, push_nat};

verus! {

/// Ten to the power `s`.
pub open spec fn pow10(s: nat) -> nat
    decreases s,
{
    if s == 0 {
        1
    } else {
        10 * pow10((s - 1) as nat)
    }
}

/// The `s` low decimal digits of `n`, with leading zeros.
pub open spec fn padded_text(n: nat, s: nat) -> Seq<char>
    decreases s,
{
    if s == 0 {
        seq![]
    } else {
        padded_text(n / 10, (s - 1) as nat).push(digit_char(n % 10))
    }
}

/// A decimal number `mantissa / 10^scale`.
///
/// The value is kept normalized: no trailing zero digit after the point.
#[derive(Clone, Copy, Debug, PartialEq, Eq, Structural)]
pub struct Decimal {
    mantissa: i64,
    scale: u32,
}

impl Decimal {
    /// The digits, as an integer.
    pub closed spec fn spec_mantissa(self) -> i64 {
        self.mantissa
    }

    /// The number of digits after the point.
    pub closed spec fn spec_scale(self) -> u32 {
        self.scale
    }

    /// The digits, as an integer.
    pub fn mantissa(&self) -> (r: i64)
        ensures
            r == self.spec_mantissa(),
            -0x7fff_ffff_ffff_ffff <= r,
            self.wf(),
    {
        proof {
            use_type_invariant(self);
        }
        self.mantissa
    }

    /// The number of digits after the point.
    pub fn scale(&self) -> (r: u32)
        ensures
            r == self.spec_scale(),
            r <= 9,
            self.wf(),
    {
        proof {
            use_type_invariant(self);
        }
        self.scale
    }

    /// At most nine digits after the point, and none of them a trailing zero.
    #[verifier::type_invariant]
    pub closed spec fn wf(self) -> bool {
        &&& self.scale <= 9
        &&& (self.scale > 0 ==> self.mantissa % 10 != 0)
        &&& -0x7fff_ffff_ffff_ffff <= self.mantissa
    }

    /// The rendering `f32`'s `Display` gives for short decimals: the integer part, and the
    /// digits after the point when there are any.
    pub closed spec fn text(self) -> Seq<char> {
        let neg = self.mantissa < 0;
        let m: nat = if neg { (-self.mantissa) as nat } else { self.mantissa as nat };
        let p = pow10(self.scale as nat);
        let body = if self.scale == 0 {
            nat_text(m)
        } else {
            nat_text(m / p) + seq!['.'] + padded_text(m % p, self.scale as nat)
        };
        if neg { seq!['-'] + body } else { body }
    }

    /// Whether the value is zero.
    pub closed spec fn is_zero(self) -> bool {
        self.mantissa == 0
    }

    /// The whole number `i`.
    pub closed spec fn spec_from_int(i: i32) -> Decimal {
        Decimal { mantissa: i as i64, scale: 0 }
    }

    /// The whole number `i`.
    pub fn from_int(i: i32) -> (d: Decimal)
        ensures
            d == Decimal::spec_from_int(i),
            d.spec_mantissa() == i,
            d.spec_scale() == 0,
            d.is_zero() == (i == 0),
    {
        Decimal { mantissa: i as i64, scale: 0 }
    }

    /// Whether the value is zero.
    pub fn check_zero(&self) -> (b: bool)
        ensures
            b == self.is_zero(),
    {
        self.mantissa == 0
    }

    /// The value `mantissa / 10^scale`, with trailing zeros removed.
    pub fn normalized(mantissa: i64, scale: u32) -> (d: Decimal)
        requires
            scale <= 9,
            -0x7fff_ffff_ffff_ffff <= mantissa,
        ensures
            d.spec_mantissa() * pow10((scale - d.spec_scale()) as nat) == mantissa,
            d.spec_scale() <= scale,
    {
        let mut m = mantissa;
        let mut s = scale;
        assert(pow10((scale - s) as nat) == 1);
        assert(m * 1 == m);
        while s > 0 && m % 10 == 0
            invariant
                s <= scale,
                -0x7fff_ffff_ffff_ffff <= m,
                m * pow10((scale - s) as nat) == mantissa,
            decreases s,
        {
            proof {
                assert(pow10((scale - (s - 1)) as nat) == 10 * pow10((scale - s) as nat));
                assert((m / 10) * 10 == m);
                assert((m / 10) * pow10((scale - (s - 1)) as nat) == m * pow10((scale - s) as nat))
                    by (nonlinear_arith)
                    requires
                        (m / 10) * 10 == m,
                        pow10((scale - (s - 1)) as nat) == 10 * pow10((scale - s) as nat);
            }
            m = m / 10;
            s = s - 1;
        }
        Decimal { mantissa: m, scale: s }
    }

    /// The negated value.
    pub fn negate(self) -> (d: Decimal)
        ensures
            d.spec_mantissa() == -self.spec_mantissa(),
            d.spec_scale() == self.spec_scale(),
    {
        proof {
            use_type_invariant(&self);
        }
        Decimal { mantissa: -self.mantissa, scale: self.scale }
    }
}

/// Appends the `s` low digits of `n`, with leading zeros.
fn push_padded(out: &mut String, n: u64, s: u32)
    ensures
        final(out)@ == old(out)@ + padded_text(n as nat, s as nat),
    decreases s,
{
    if s > 0 {
        push_padded(out, n / 10, s - 1);
        let d = n % 10;
        let c = if d == 0 { '0' } else { ((48 + d) as u8) as char };
        proof {
            assert(d == 0 ==> digit_char(0) == '0');
        }
        out.push(c);
    }
    proof {
        assert(old(out)@ + padded_text(n as nat, s as nat) =~= out@);
    }
}

/// `10^s` as a machine integer.
pub fn pow10_u64(s: u32) -> (r: u64)
    requires
        s <= 18,
    ensures
        r == pow10(s as nat),
        r >= 1,
    decreases s,
{
    if s == 0 {
        1
    } else {
        let r = pow10_u64(s - 1);
        proof {
            lemma_pow10_bound((s - 1) as nat);
        }
        10 * r
    }
}

/// `10^s <= 10^17` for `s <= 17`.
pub proof fn lemma_pow10_bound(s: nat)
    requires
        s <= 17,
    ensures
        pow10(s) <= 100_000_000_000_000_000,
        pow10(s) >= 1,
{
    lemma_pow10_le(s, 17);
    reveal_with_fuel(pow10, 18);
    lemma_pow10_pos(s);
}

/// `10^s` grows with `s`.
pub proof fn lemma_pow10_le(s: nat, t: nat)
    requires
        s <= t,
    ensures
        pow10(s) <= pow10(t),
    decreases t,
{
    if s < t {
        lemma_pow10_le(s, (t - 1) as nat);
        lemma_pow10_pos((t - 1) as nat);
    }
}

/// `10^s` is positive.
pub proof fn lemma_pow10_pos(s: nat)
    ensures
        pow10(s) >= 1,
    decreases s,
{
    if s > 0 {
        lemma_pow10_pos((s - 1) as nat);
    }
}

/// Appends the rendering of `d` (see `Decimal::text`).
pub fn push_decimal(out: &mut String, d: Decimal)
    ensures
        final(out)@ == old(out)@ + d.text(),
{
    proof {
        use_type_invariant(&d);
    }
    let neg = d.mantissa < 0;
    if neg {
        out.push('-');
    }
    let m: u64 = if neg { (-d.mantissa) as u64 } else { d.mantissa as u64 };
    if d.scale == 0 {
        push_nat(out, m);
    } else {
        let p = pow10_u64(d.scale);
        push_nat(out, m / p);
        out.push('.');
        push_padded(out, m % p, d.scale);
    }
    proof {
        assert(old(out)@ + d.text() =~= out@);
    }
}

/// The rendering of `d` as a `String`.
pub fn decimal_string(d: Decimal) -> (r: String)
    ensures
        r@ == d.text(),
{
    let mut s = String::new();
    push_decimal(&mut s, d);
    proof {
        assert(s@ =~= d.text());
    }
    s
}

/// The remainder of `a` by `b` as Rust's `%` computes it on integers: it takes the sign of
/// `a`.
pub open spec fn trunc_rem(a: int, b: int) -> int {
    if a >= 0 {
        if b >= 0 { a % b } else { a % (-b) }
    } else {
        if b >= 0 { -((-a) % b) } else { -((-a) % (-b)) }
    }
}

/// Euclid's algorithm on Rust's truncating remainder: `euclid(a, 0) = a`,
/// `euclid(a, b) = euclid(b, a % b)`.
pub open spec fn euclid(a: int, b: int) -> int
    decreases (if b >= 0 { b } else { -b }),
{
    if b == 0 {
        a
    } else {
        proof {
            lemma_trunc_rem_bound(a, b);
        }
        euclid(b, trunc_rem(a, b))
    }
}

/// Integer division rounding toward zero, as Rust's `/` on integers.
pub open spec fn trunc_div(a: int, b: int) -> int {
    if a >= 0 {
        if b >= 0 { a / b } else { -(a / (-b)) }
    } else {
        if b >= 0 { -((-a) / b) } else { (-a) / (-b) }
    }
}

/// `g` divides `x`.
pub open spec fn divides(g: int, x: int) -> bool {
    exists|k: int| x == #[trigger] (k * g)
}

/// The truncating remainder is smaller than the divisor in absolute value.
pub proof fn lemma_trunc_rem_bound(a: int, b: int)
    requires
        b != 0,
    ensures
        trunc_rem(a, b) < (if b >= 0 { b } else { -b }),
        -(if b >= 0 { b } else { -b }) < trunc_rem(a, b),
{
    let c = if b >= 0 { b } else { -b };
    vstd::arithmetic::div_mod::lemma_mod_bound(a, c);
    vstd::arithmetic::div_mod::lemma_mod_bound(-a, c);
}

/// A truncating division step: `a == q * b + a % b`.
pub proof fn lemma_trunc_div_rem(a: int, b: int)
    requires
        b != 0,
    ensures
        a == trunc_div(a, b) * b + trunc_rem(a, b),
{
    let c = if b >= 0 { b } else { -b };
    vstd::arithmetic::div_mod::lemma_fundamental_div_mod(a, c);
    vstd::arithmetic::div_mod::lemma_fundamental_div_mod(-a, c);
    let q = trunc_div(a, b);
    let r = trunc_rem(a, b);
    if a >= 0 {
        let q0 = a / c;
        let r0 = a % c;
        if b > 0 {
            assert(q == q0 && r == r0);
            assert(a == q * b + r) by (nonlinear_arith) requires a == c * q0 + r0, q == q0, r == r0, c == b;
        } else {
            assert(q == -q0 && r == r0);
            assert(a == q * b + r) by (nonlinear_arith) requires a == c * q0 + r0, q == -q0, r == r0, c == -b;
        }
    } else {
        let q0 = (-a) / c;
        let r0 = (-a) % c;
        if b > 0 {
            assert(q == -q0 && r == -r0);
            assert(a == q * b + r) by (nonlinear_arith) requires -a == c * q0 + r0, q == -q0, r == -r0, c == b;
        } else {
            assert(q == q0 && r == -r0);
            assert(a == q * b + r) by (nonlinear_arith) requires -a == c * q0 + r0, q == q0, r == -r0, c == -b;
        }
    }
}

/// The result of Euclid's algorithm divides both arguments, and it is zero only when
/// both are.
pub proof fn lemma_euclid_divides(a: int, b: int)
    ensures
        divides(euclid(a, b), a),
        divides(euclid(a, b), b),
        euclid(a, b) == 0 ==> a == 0 && b == 0,
    decreases (if b >= 0 { b } else { -b }),
{
    if b == 0 {
        assert(a == 1 * a);
        assert(b == 0 * a);
    } else {
        let r = trunc_rem(a, b);
        lemma_trunc_rem_bound(a, b);
        lemma_euclid_divides(b, r);
        let g = euclid(b, r);
        assert(euclid(a, b) == g);
        lemma_trunc_div_rem(a, b);
        let q = trunc_div(a, b);
        let kb = choose|k: int| b == #[trigger] (k * g);
        let kr = choose|k: int| r == #[trigger] (k * g);
        assert(a == (q * kb + kr) * g) by (nonlinear_arith)
            requires
                a == q * b + r,
                b == kb * g,
                r == kr * g;
        assert(a == #[trigger] ((q * kb + kr) * g));
    }
}

/// Euclid's algorithm on `i32`, with Rust's truncating remainder.
pub fn euclidean_algorithm(a: i32, b: i32) -> (r: i32)
    requires
        a != i32::MIN,
        b != i32::MIN,
    ensures
        r == euclid(a as int, b as int),
        r != i32::MIN,
    decreases (if b >= 0 { b as int } else { -b }),
{
    if b == 0 {
        a
    } else {
        let aa = a as i64;
        let bb = b as i64;
        let m64: i64 = if aa >= 0 {
            if bb > 0 { aa % bb } else { aa % (-bb) }
        } else {
            if bb > 0 { -((-aa) % bb) } else { -((-aa) % (-bb)) }
        };
        proof {
            lemma_trunc_rem_bound(a as int, b as int);
        }
        let m = m64 as i32;
        proof {
            assert(m == trunc_rem(a as int, b as int));
            lemma_trunc_rem_bound(a as int, b as int);
        }
        euclidean_algorithm(b, m)
    }
}

/// Truncating division of `a` by a nonzero `b` on machine integers.
fn div_trunc(a: i64, b: i64) -> (q: i64)
    requires
        b != 0,
        a != i64::MIN,
        b != i64::MIN,
    ensures
        q == trunc_div(a as int, b as int),
{
    if a >= 0 {
        if b > 0 { a / b } else { -(a / (-b)) }
    } else {
        if b > 0 { -((-a) / b) } else { (-a) / (-b) }
    }
}

/// `(numerator, denominator)` divided by their greatest common divisor as Euclid's
/// algorithm computes it (the signs follow Rust's remainder).
pub open spec fn simplified(n: int, d: int) -> (int, int) {
    (trunc_div(n, euclid(n, d)), trunc_div(d, euclid(n, d)))
}

/// Divides numerator and denominator by the result of Euclid's algorithm on them.
pub fn simplify_fraction(fraction: (i32, i32)) -> (r: (i32, i32))
    requires
        fraction.1 != 0,
        fraction.0 != i32::MIN,
        fraction.1 != i32::MIN,
    ensures
        (r.0 as int, r.1 as int) == simplified(fraction.0 as int, fraction.1 as int),
        r.0 * euclid(fraction.0 as int, fraction.1 as int) == fraction.0,
        r.1 * euclid(fraction.0 as int, fraction.1 as int) == fraction.1,
{
    let (numerator, denominator) = fraction;
    let gcd = euclidean_algorithm(numerator, denominator);
    proof {
        lemma_euclid_divides(numerator as int, denominator as int);
    }
    proof {
        let g = gcd as int;
        let kn = choose|k: int| numerator as int == #[trigger] (k * g);
        let kd = choose|k: int| denominator as int == #[trigger] (k * g);
        lemma_exact_div(numerator as int, g, kn);
        lemma_exact_div(denominator as int, g, kd);
    }
    let a = div_trunc(numerator as i64, gcd as i64);
    let b = div_trunc(denominator as i64, gcd as i64);
    (a as i32, b as i32)
}

/// Dividing an exact multiple gives the factor back.
proof fn lemma_exact_div(x: int, g: int, k: int)
    requires
        x == k * g,
        g != 0,
        -0x8000_0000 < x < 0x8000_0000,
    ensures
        trunc_div(x, g) == k,
        -0x8000_0000 < k < 0x8000_0000,
{
    lemma_trunc_div_rem(x, g);
    lemma_trunc_rem_bound(x, g);
    let q = trunc_div(x, g);
    let r = trunc_rem(x, g);
    assert((k - q) * g == r) by (nonlinear_arith) requires x == k * g, x == q * g + r;
    if k != q {
        assert(k - q >= 1 || k - q <= -1);
        if g > 0 {
            assert((k - q) * g >= g || (k - q) * g <= -g) by (nonlinear_arith) requires k - q >= 1 || k - q <= -1, g > 0;
        } else {
            assert((k - q) * g >= -g || (k - q) * g <= g) by (nonlinear_arith) requires k - q >= 1 || k - q <= -1, g < 0;
        }
    }
    assert(-0x8000_0000 < k < 0x8000_0000) by (nonlinear_arith)
        requires
            x == k * g,
            g != 0,
            -0x8000_0000 < x < 0x8000_0000;
}

/// How far `p / q` is from `num / den`, scaled by `den * q`: `|num * q - p * den|`.
pub open spec fn frac_gap(num: int, den: int, p: int, q: int) -> int {
    if num * q - p * den < 0 { p * den - num * q } else { num * q - p * den }
}

/// No fraction with a denominator from 1 to `max` is closer to `num / den` than `p / q`.
pub open spec fn closest_within(num: int, den: int, p: int, q: int, max: int) -> bool {
    forall|p2: int, q2: int| 1 <= q2 <= max ==> #[trigger] frac_gap(num, den, p, q) * q2 <= frac_gap(num, den, p2, q2) * q
}

/// `num / den` rounded up (`den` positive).
pub open spec fn ceil_div(num: int, den: int) -> int {
    -((-num) / den)
}

/// `num / den` rounded up, where it fits in an `i32`.
fn ceil_quotient(num: i64, den: i64) -> (r: i32)
    requires
        1 <= den,
        -2147483647 * den <= num <= 2147483646 * den,
    ensures
        r == ceil_div(num as int, den as int),
{
    let n: i128 = num as i128;
    let d: i128 = den as i128;
    let m: i128 = -n;
    let (fq, neg) = if m >= 0 { (m / d, false) } else { (((-m) + d - 1) / d, true) };
    proof {
        let mi = m as int;
        let di = d as int;
        vstd::arithmetic::div_mod::lemma_fundamental_div_mod(mi, di);
        vstd::arithmetic::div_mod::lemma_mod_bound(mi, di);
        if neg {
            let a: int = -mi;
            vstd::arithmetic::div_mod::lemma_fundamental_div_mod(a + di - 1, di);
            vstd::arithmetic::div_mod::lemma_mod_bound(a + di - 1, di);
            let k = (a + di - 1) / di;
            let t = mi / di;
            // the floor of m / d is minus the ceiling of -m / d
            assert(t == -k) by (nonlinear_arith)
                requires
                    mi == di * t + mi % di,
                    0 <= mi % di < di,
                    a + di - 1 == di * k + (a + di - 1) % di,
                    0 <= (a + di - 1) % di < di,
                    a == -mi,
                    a > 0,
                    di >= 1;
        }
        assert(-2147483647 <= -(mi / di) <= 2147483646) by (nonlinear_arith)
            requires
                mi == di * (mi / di) + mi % di,
                0 <= mi % di < di,
                -2147483646 * di <= mi <= 2147483647 * di,
                di >= 1;
    }
    let c: i128 = if neg { fq } else { -fq };
    c as i32
}

/// Of the fractions as close to `num / den` as `p / q`, none has a denominator below `q`,
/// nor the denominator `q` and a numerator below `p`.
pub open spec fn first_closest(num: int, den: int, p: int, q: int) -> bool {
    &&& forall|p2: int, q2: int| 1 <= q2 < q ==> #[trigger] frac_gap(num, den, p2, q2) * q > frac_gap(num, den, p, q) * q2
    &&& forall|p2: int| p2 < p ==> #[trigger] frac_gap(num, den, p2, q) > frac_gap(num, den, p, q)
}

/// Given the fraction `num / den`, finds the fraction closest to it among those with a
/// denominator from 1 to `max_denominator` (the one with the smallest denominator among
/// equally close ones), then simplifies it. The numerator must fit in an `i32` for every
/// such denominator.
pub fn farey_approximation(num: i64, den: i64, max_denominator: i32) -> (r: (i32, i32))
    requires
        1 <= den,
        1 <= max_denominator ==> -2147483647 * den <= num * max_denominator <= 2147483646 * den,
        max_denominator < 1 ==> -2147483647 * den <= num <= 2147483646 * den,
    ensures
        1 <= max_denominator ==> exists|p: int, q: int|
            #![trigger simplified(p, q)]
            1 <= q <= max_denominator && (r.0 as int, r.1 as int) == simplified(p, q) && r.0 * q == p * r.1
                && closest_within(num as int, den as int, p, q, max_denominator as int) && first_closest(num as int, den as int, p, q),
        max_denominator < 1 ==> r.0 == ceil_div(num as int, den as int) && r.1 == 1,
{
    if max_denominator < 1 {
        return (ceil_quotient(num, den), 1);
    }
    let max = max_denominator as i64;
    proof {
        lemma_numerator_range(num as int, den as int, 1, max as int);
    }
    let (p1, g1) = closest_numerator(num, den, 1);
    let mut best_p: i64 = p1;
    let mut best_q: i64 = 1;
    let mut best_g: i128 = g1;
    let mut q: i64 = 2;
    while q <= max
        invariant
            1 <= den,
            1 <= max,
            max == max_denominator,
            -2147483647 * den <= num * max <= 2147483646 * den,
            2 <= q <= max + 1,
            1 <= best_q < q,
            -2147483647 <= best_p <= 2147483647,
            best_g == frac_gap(num as int, den as int, best_p as int, best_q as int),
            0 <= best_g < den,
            forall|p2: int, q2: int| 1 <= q2 < q ==> #[trigger] frac_gap(num as int, den as int, p2, q2) * best_q >= best_g * q2,
            first_closest(num as int, den as int, best_p as int, best_q as int),
        decreases max + 1 - q,
    {
        proof {
            lemma_numerator_range(num as int, den as int, q as int, max as int);
        }
        let (p, g) = closest_numerator(num, den, q);
        proof {
            assert(0 <= (g as int) * (best_q as int) <= 0x8000_0000_0000_0000 * 0x8000_0000_0000_0000) by (nonlinear_arith)
                requires 0 <= g < den, den <= 0x7fff_ffff_ffff_ffff, 1 <= best_q <= 0x7fff_ffff_ffff_ffff;
            assert(0 <= (best_g as int) * (q as int) <= 0x8000_0000_0000_0000 * 0x8000_0000_0000_0000) by (nonlinear_arith)
                requires 0 <= best_g < den, den <= 0x7fff_ffff_ffff_ffff, 1 <= q <= 0x7fff_ffff_ffff_ffff;
        }
        let ghost bq = best_q as int;
        let ghost bg = best_g as int;
        if g * (best_q as i128) < best_g * (q as i128) {
            proof {
                assert forall|p2: int, q2: int| 1 <= q2 < q + 1 implies #[trigger] frac_gap(num as int, den as int, p2, q2) * q
                    >= g * q2 by {
                    let f = frac_gap(num as int, den as int, p2, q2);
                    if q2 < q {
                        assert(f * bq >= bg * q2);
                        assert(f * q >= g * q2) by (nonlinear_arith)
                            requires f * bq >= bg * q2, g * bq < bg * q, bq >= 1, q2 >= 1, g >= 0, bg >= 0, q >= 1;
                    } else {
                        assert(f >= g);
                        assert(f * q >= g * q2) by (nonlinear_arith)
                            requires f >= g, q2 == q, q >= 1;
                    }
                }
                assert forall|p2: int, q2: int| 1 <= q2 < q implies #[trigger] frac_gap(num as int, den as int, p2, q2) * q > frac_gap(
                    num as int,
                    den as int,
                    p as int,
                    q as int,
                ) * q2 by {
                    let f = frac_gap(num as int, den as int, p2, q2);
                    assert(f * bq >= bg * q2);
                    assert(f * q > g * q2) by (nonlinear_arith)
                        requires f * bq >= bg * q2, g * bq < bg * q, bq >= 1, q2 >= 1, g >= 0, bg >= 0, q >= 1;
                }
            }
            best_p = p;
            best_q = q;
            best_g = g;
        } else {
            proof {
                assert forall|p2: int, q2: int| 1 <= q2 < q + 1 implies #[trigger] frac_gap(num as int, den as int, p2, q2) * bq
                    >= bg * q2 by {
                    let f = frac_gap(num as int, den as int, p2, q2);
                    if q2 == q {
                        assert(f >= g);
                        assert(f * bq >= bg * q2) by (nonlinear_arith)
                            requires f >= g, g * bq >= bg * q, q2 == q, bq >= 1;
                    }
                }
            }
        }
        q = q + 1;
    }
    let r = simplify_fraction((best_p as i32, best_q as i32));
    proof {
        let e = euclid(best_p as int, best_q as int);
        assert(r.0 * best_q == best_p * r.1) by (nonlinear_arith)
            requires r.0 * e == best_p, r.1 * e == best_q;
        assert forall|p2: int, q2: int| 1 <= q2 <= max_denominator implies #[trigger] frac_gap(
            num as int,
            den as int,
            best_p as int,
            best_q as int,
        ) * q2 <= frac_gap(num as int, den as int, p2, q2) * best_q by {
            assert(frac_gap(num as int, den as int, p2, q2) * best_q >= best_g * q2);
        }
        assert(closest_within(num as int, den as int, best_p as int, best_q as int, max_denominator as int));
    }
    r
}

/// For denominators up to `max`, the numerators next to `num * q / den` fit in an `i32`.
proof fn lemma_numerator_range(num: int, den: int, q: int, max: int)
    requires
        1 <= den,
        1 <= q <= max,
        -2147483647 * den <= num * max <= 2147483646 * den,
    ensures
        -2147483647 * den <= num * q <= 2147483646 * den,
{
    if num >= 0 {
        assert(0 <= num * q <= num * max) by (nonlinear_arith)
            requires num >= 0, 1 <= q <= max;
    } else {
        assert(num * max <= num * q <= 0) by (nonlinear_arith)
            requires num < 0, 1 <= q <= max;
    }
}

/// The numerator `p` whose `p / q` is closest to `num / den` (the lower one on a tie), and
/// its gap `frac_gap(num, den, p, q)`, which is below `den`.
fn closest_numerator(num: i64, den: i64, q: i64) -> (r: (i64, i128))
    requires
        1 <= den,
        1 <= q <= 0x7fff_ffff,
        -2147483647 * den <= num * q <= 2147483646 * den,
    ensures
        -2147483647 <= r.0 <= 2147483647,
        r.1 == frac_gap(num as int, den as int, r.0 as int, q as int),
        0 <= r.1 < den,
        forall|p2: int| #[trigger] frac_gap(num as int, den as int, p2, q as int) >= r.1,
        forall|p2: int| p2 < r.0 ==> #[trigger] frac_gap(num as int, den as int, p2, q as int) > r.1,
{
    proof {
        assert(-0x8000_0000_0000_0000 * 0x8000_0000 <= num * q <= 0x8000_0000_0000_0000 * 0x8000_0000) by (nonlinear_arith)
            requires -0x8000_0000_0000_0000 <= num < 0x8000_0000_0000_0000, 1 <= q <= 0x7fff_ffff;
    }
    let n: i128 = (num as i128) * (q as i128);
    let d: i128 = den as i128;
    let p0: i128 = if n >= 0 {
        n / d
    } else {
        let m: i128 = -n;
        let qq = m / d;
        let rr = m % d;
        if rr == 0 { -qq } else { -qq - 1 }
    };
    proof {
        vstd::arithmetic::div_mod::lemma_fundamental_div_mod(n as int, d as int);
        vstd::arithmetic::div_mod::lemma_mod_bound(n as int, d as int);
        if n >= 0 {
            assert(n - p0 * d == (n as int) % (d as int)) by (nonlinear_arith)
                requires p0 == (n as int) / (d as int), n == (d as int) * ((n as int) / (d as int)) + (n as int) % (d as int);
        }
        if n < 0 {
            let m: int = -n;
            vstd::arithmetic::div_mod::lemma_fundamental_div_mod(m, d as int);
            vstd::arithmetic::div_mod::lemma_mod_bound(m, d as int);
            let qq: int = m / (d as int);
            let rr: int = m % (d as int);
            if rr == 0 {
                assert(n == p0 * d) by (nonlinear_arith)
                    requires m == -n, m == d * qq + rr, rr == 0, p0 == -qq;
            } else {
                assert(n == p0 * d + (d - rr)) by (nonlinear_arith)
                    requires m == -n, m == d * qq + rr, p0 == -qq - 1;
            }
        }
        assert(0 <= n - p0 * d < d);
        assert(-2147483647 <= p0 <= 2147483646) by (nonlinear_arith)
            requires 0 <= n - p0 * d < d, -2147483647 * d <= n <= 2147483646 * d, d >= 1;
        assert(-0x8000_0000 * 0x8000_0000_0000_0000 <= p0 * d <= 0x8000_0000 * 0x8000_0000_0000_0000) by (nonlinear_arith)
            requires -2147483647 <= p0 <= 2147483646, 1 <= d < 0x8000_0000_0000_0000;
    }
    let g0: i128 = n - p0 * d;
    let g1: i128 = d - g0;
    proof {
        assert forall|p2: int| #[trigger] frac_gap(num as int, den as int, p2, q as int) >= (if g1 < g0 { g1 } else { g0 }) by {
            assert((num as int) * (q as int) == n as int);
            assert((d as int) == (den as int));
            if p2 <= p0 {
                assert(n - p2 * d >= n - p0 * d) by (nonlinear_arith)
                    requires p2 <= p0, d >= 1;
                assert(frac_gap(num as int, den as int, p2, q as int) == n - p2 * d);
            } else {
                assert(p2 * d - n >= (p0 + 1) * d - n) by (nonlinear_arith)
                    requires p2 >= p0 + 1, d >= 1;
                assert((p0 + 1) * d - n == g1) by (nonlinear_arith)
                    requires g0 == n - p0 * d, g1 == d - g0;
                assert(frac_gap(num as int, den as int, p2, q as int) == p2 * d - n);
            }
        }
        assert(frac_gap(num as int, den as int, p0 as int, q as int) == g0);
        assert(frac_gap(num as int, den as int, p0 + 1, q as int) == g1) by {
            assert((p0 + 1) * d == p0 * d + d) by (nonlinear_arith);
        }
        assert forall|p2: int| p2 < p0 implies #[trigger] frac_gap(num as int, den as int, p2, q as int) > g0 by {
            assert((num as int) * (q as int) == n as int);
            assert(n - p2 * d > n - p0 * d) by (nonlinear_arith)
                requires p2 < p0, d >= 1;
            assert(frac_gap(num as int, den as int, p2, q as int) == n - p2 * d);
        }
    }
    if g1 < g0 {
        ((p0 + 1) as i64, g1)
    } else {
        (p0 as i64, g0)
    }
}

} // verus!

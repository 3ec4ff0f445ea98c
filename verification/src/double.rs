//! Numbers as double precision holds them: a decimal number is rounded to 53 binary digits.
use vstd::arithmetic::power2::{
    lemma2_to64, lemma2_to64_rest, lemma_pow2_adds, lemma_pow2_pos, lemma_pow2_strictly_increases,
    lemma_pow2_unfold, pow2,
};
use vstd::prelude::*;

use crate::text::{digit_value, is_digit, number_of};

verus! {

/// Ten to the power `n`.
pub open spec fn pow10(n: int) -> int
    decreases n,
{
    if n <= 0 {
        1
    } else {
        10 * pow10(n - 1)
    }
}

/// Whether `m / 2^k` is the double precision number nearest to `n / p`, for a number below
/// `2^53`: `k` is chosen so that `m` has 53 binary digits, up to the 1074 digits behind the point
/// that there are, and of two numbers equally near the one with an even `m` is taken.
pub open spec fn is_double(n: int, p: int, m: int, k: nat) -> bool {
    let error = 2 * (n * pow2(k) - m * p);
    &&& -p <= error <= p
    &&& error == p || error == -p ==> m % 2 == 0
    &&& k <= 1074
    &&& n * pow2(k) < pow2(53) * p
    &&& k < 1074 ==> pow2(52) * p <= n * pow2(k)
}

/// The double precision number nearest to a billionth, counted in `2^-82`.
pub const BILLIONTH: u64 = 4_835_703_278_458_517;

/// Whether `2 * m / 2^k` is no further than a billionth from the integer `j`.
pub open spec fn is_near(m: int, k: nat, j: int) -> bool {
    -(BILLIONTH * pow2(k)) <= (2 * m - j * pow2(k)) * pow2(82) <= BILLIONTH * pow2(k)
}

/// Whether `2 * m / 2^k` is no further than a billionth from an integer.
pub open spec fn near_integer(m: int, k: nat) -> bool {
    exists|j: int| #[trigger] is_near(m, k, j)
}

// ---------------------------------------------------------------------------
// Decimal digits
// ---------------------------------------------------------------------------
/// A power of ten is positive.
pub proof fn pow10_positive(n: int)
    ensures
        pow10(n) >= 1,
    decreases n,
{
    if n > 0 {
        pow10_positive(n - 1);
    }
}

/// A number is below the power of ten of its number of digits.
pub proof fn number_of_below(s: Seq<char>)
    requires
        forall|i: int| 0 <= i < s.len() ==> is_digit(#[trigger] s[i]),
    ensures
        0 <= number_of(s) < pow10(s.len() as int),
    decreases s.len(),
{
    if s.len() > 0 {
        let t = s.drop_last();
        assert forall|i: int| 0 <= i < t.len() implies is_digit(#[trigger] t[i]) by {
            assert(is_digit(s[i]));
        }
        number_of_below(t);
        assert(is_digit(s[s.len() - 1]));
    }
}

/// The digits of two numbers one behind another.
pub proof fn number_of_concat(a: Seq<char>, b: Seq<char>)
    ensures
        number_of(a + b) == number_of(a) * pow10(b.len() as int) + number_of(b),
    decreases b.len(),
{
    if b.len() == 0 {
        assert(a + b =~= a);
    } else {
        number_of_concat(a, b.drop_last());
        assert((a + b).drop_last() =~= a + b.drop_last());
        assert((a + b).last() == b.last());
        let x = number_of(a);
        let p = pow10(b.len() - 1);
        assert((x * p) * 10 == x * (10 * p)) by (nonlinear_arith);
    }
}

/// One digit more in front of a number.
proof fn number_of_front(s: Seq<char>)
    requires
        s.len() > 0,
    ensures
        number_of(s) == digit_value(s[0]) * pow10(s.len() - 1) + number_of(s.skip(1)),
{
    let head = s.take(1);
    assert(s =~= head + s.skip(1));
    number_of_concat(head, s.skip(1));
    assert(head.drop_last() =~= seq![]);
    assert(number_of(head.drop_last()) == 0);
    assert(number_of(head) == digit_value(s[0]));
}

/// Zeros denote nothing, and nothing else does.
proof fn number_of_zeros(s: Seq<char>)
    requires
        forall|i: int| 0 <= i < s.len() ==> is_digit(#[trigger] s[i]),
    ensures
        number_of(s) == 0 <==> forall|i: int| 0 <= i < s.len() ==> #[trigger] s[i] == '0',
    decreases s.len(),
{
    if s.len() > 0 {
        let t = s.drop_last();
        assert forall|i: int| 0 <= i < t.len() implies is_digit(#[trigger] t[i]) by {
            assert(is_digit(s[i]));
        }
        number_of_zeros(t);
        number_of_below(t);
        assert(is_digit(s[s.len() - 1]));
        if number_of(s) == 0 {
            assert(number_of(t) == 0);
            assert forall|i: int| 0 <= i < s.len() implies #[trigger] s[i] == '0' by {
                if i < t.len() {
                    assert(t[i] == '0');
                }
            }
        }
        if forall|i: int| 0 <= i < s.len() ==> #[trigger] s[i] == '0' {
            assert forall|i: int| 0 <= i < t.len() implies #[trigger] t[i] == '0' by {
                assert(s[i] == '0');
            }
        }
    }
}

/// Tells whether there is a digit other than zero.
fn has_nonzero(s: &Vec<char>) -> (r: bool)
    requires
        forall|i: int| 0 <= i < s@.len() ==> is_digit(#[trigger] s@[i]),
    ensures
        r == (number_of(s@) > 0),
{
    proof {
        number_of_zeros(s@);
        number_of_below(s@);
    }
    let mut i: usize = 0;
    while i < s.len()
        invariant
            i <= s@.len(),
            forall|j: int| 0 <= j < i ==> #[trigger] s@[j] == '0',
            number_of(s@) >= 0,
            number_of(s@) == 0 <==> forall|j: int| 0 <= j < s@.len() ==> #[trigger] s@[j] == '0',
        decreases s@.len() - i,
    {
        if s[i] != '0' {
            return true;
        }
        i += 1;
    }
    false
}

/// Doubles a fraction, given by its digits, and gives the digit that comes out before the point.
fn double_fraction(digits: &mut Vec<char>) -> (carry: u64)
    requires
        forall|i: int| 0 <= i < old(digits)@.len() ==> is_digit(#[trigger] old(digits)@[i]),
    ensures
        carry <= 1,
        final(digits)@.len() == old(digits)@.len(),
        forall|i: int| 0 <= i < final(digits)@.len() ==> is_digit(#[trigger] final(digits)@[i]),
        2 * number_of(old(digits)@) == carry * pow10(old(digits)@.len() as int) + number_of(
            final(digits)@,
        ),
{
    let ghost before = digits@;
    let mut carry: u64 = 0;
    let len: usize = digits.len();
    let mut i: usize = len;
    assert(before.skip(len as int) =~= seq![]);
    assert(digits@.skip(len as int) =~= seq![]);
    assert(number_of(Seq::<char>::empty()) == 0);
    while i > 0
        invariant
            i <= len,
            len == digits@.len(),
            len == before.len(),
            carry <= 1,
            forall|j: int| 0 <= j < len ==> is_digit(#[trigger] before[j]),
            forall|j: int| 0 <= j < len ==> is_digit(#[trigger] digits@[j]),
            forall|j: int| 0 <= j < i ==> #[trigger] digits@[j] == before[j],
            2 * number_of(before.skip(i as int)) == carry * pow10(len - i) + number_of(
                digits@.skip(i as int),
            ),
        decreases i,
    {
        let ghost now = digits@;
        let ghost low = carry as int;
        i -= 1;
        assert(is_digit(digits@[i as int]));
        let d: u64 = (digits[i] as u64) - 48;
        let x: u64 = 2 * d + carry;
        let c = (48u8 + (x % 10) as u8) as char;
        digits.set(i, c);
        carry = x / 10;
        proof {
            let p = pow10(len - i - 1);
            number_of_front(before.skip(i as int));
            number_of_front(digits@.skip(i as int));
            assert(before.skip(i as int).skip(1) =~= before.skip(i + 1));
            assert(digits@.skip(i as int).skip(1) =~= now.skip(i + 1));
            let e = (x % 10) as int;
            assert(digit_value(c) == e);
            assert(2 * (d * p) + low * p == x * p) by (nonlinear_arith)
                requires
                    x == 2 * d + low,
            ;
            assert(x * p == (x / 10) * (10 * p) + e * p) by (nonlinear_arith)
                requires
                    e == x % 10,
                    x >= 0,
            ;
        }
    }
    assert(before.skip(0) =~= before);
    assert(digits@.skip(0) =~= digits@);
    carry
}

// ---------------------------------------------------------------------------
// Rounding
// ---------------------------------------------------------------------------
/// Rounds a number, given by its whole part and the digits behind its point.
pub fn nearest_double(whole: u64, fraction: &[char]) -> (r: (u64, u32))
    requires
        whole < 0x20_0000_0000_0000,
        forall|i: int| 0 <= i < fraction@.len() ==> is_digit(#[trigger] fraction@[i]),
    ensures
        r.0 <= 0x20_0000_0000_0000,
        is_double(
            whole * pow10(fraction@.len() as int) + number_of(fraction@),
            pow10(fraction@.len() as int),
            r.0 as int,
            r.1 as nat,
        ),
{
    let ghost p = pow10(fraction@.len() as int);
    let ghost n = whole * p + number_of(fraction@);
    let mut rest: Vec<char> = Vec::new();
    let mut i: usize = 0;
    while i < fraction.len()
        invariant
            i <= fraction@.len(),
            rest@ == fraction@.take(i as int),
        decreases fraction@.len() - i,
    {
        rest.push(fraction[i]);
        i += 1;
        assert(fraction@.take(i as int) =~= fraction@.take(i - 1).push(fraction@[i - 1]));
    }
    assert(rest@ =~= fraction@);
    let mut m: u64 = whole;
    let mut k: u32 = 0;
    proof {
        lemma2_to64();
        lemma2_to64_rest();
        pow10_positive(fraction@.len() as int);
        assert(n * pow2(0) == n) by (nonlinear_arith)
            requires
                pow2(0) == 1,
        ;
    }
    while m < 0x10_0000_0000_0000 && k < 1074
        invariant
            k <= 1074,
            m < 0x20_0000_0000_0000,
            p == pow10(rest@.len() as int),
            p >= 1,
            forall|j: int| 0 <= j < rest@.len() ==> is_digit(#[trigger] rest@[j]),
            n * pow2(k as nat) == m * p + number_of(rest@),
        decreases 1074 - k,
    {
        let ghost old_m = m as int;
        let ghost old_rest = number_of(rest@);
        let carry = double_fraction(&mut rest);
        m = 2 * m + carry;
        k += 1;
        proof {
            let x = pow2((k - 1) as nat) as int;
            lemma_pow2_unfold(k as nat);
            assert(n * (2 * x) == 2 * (n * x)) by (nonlinear_arith);
            assert(2 * (old_m * p) + carry * p == m * p) by (nonlinear_arith)
                requires
                    m == 2 * old_m + carry,
            ;
        }
    }
    let ghost part = number_of(rest@);
    proof {
        number_of_below(rest@);
        let b = pow2(53) as int;
        assert(m * p + part < b * p) by (nonlinear_arith)
            requires
                m + 1 <= b,
                0 <= part < p,
        ;
        let a = pow2(52) as int;
        assert(m >= a ==> a * p <= m * p + part) by (nonlinear_arith)
            requires
                0 <= part < p,
        ;
    }
    let odd = m % 2 == 1;
    let half = double_fraction(&mut rest);
    let more = has_nonzero(&rest);
    proof {
        number_of_below(rest@);
        assert(half == 0 ==> half * p == 0) by (nonlinear_arith);
        assert(half == 1 ==> half * p == p) by (nonlinear_arith);
        assert((m + 1) * p == m * p + p) by (nonlinear_arith);
    }
    if half == 1 && (more || odd) {
        (m + 1, k)
    } else {
        (m, k)
    }
}

/// Counted in smaller parts, a number has more binary digits.
proof fn scaled_up(n: int, p: int, k: nat, l: nat)
    requires
        n >= 0,
        p > 0,
        k < l,
        pow2(52) * p <= n * pow2(k),
    ensures
        pow2(53) * p <= n * pow2(l),
{
    lemma2_to64_rest();
    lemma_pow2_unfold(k + 1);
    let x = pow2(k) as int;
    assert(n * (2 * x) == 2 * (n * x)) by (nonlinear_arith);
    if k + 1 < l {
        lemma_pow2_strictly_increases(k + 1, l);
        let y = pow2(k + 1) as int;
        let z = pow2(l) as int;
        assert(n * y <= n * z) by (nonlinear_arith)
            requires
                n >= 0,
                y <= z,
        ;
    }
}

/// A number has one nearest double precision number.
pub proof fn double_is_unique(n: int, p: int, m: int, k: nat, m2: int, k2: nat)
    requires
        n >= 0,
        p > 0,
        is_double(n, p, m, k),
        is_double(n, p, m2, k2),
    ensures
        m == m2,
        k == k2,
{
    if k < k2 {
        scaled_up(n, p, k, k2);
    }
    if k2 < k {
        scaled_up(n, p, k2, k);
    }
    let d = m - m2;
    assert(m * p - m2 * p == d * p) by (nonlinear_arith)
        requires
            d == m - m2,
    ;
    assert(-p <= d * p <= p);
    assert(-1 <= d <= 1) by (nonlinear_arith)
        requires
            -p <= d * p <= p,
            p > 0,
    ;
    assert(d == 1 ==> d * p == p) by (nonlinear_arith);
    assert(d == -1 ==> d * p == -p) by (nonlinear_arith);
}

/// A double precision number is nothing only where the number nearest to it is no more than
/// `2^-1075`.
pub proof fn double_is_positive(n: int, p: int, m: int, k: nat)
    requires
        n >= 0,
        p > 0,
        is_double(n, p, m, k),
    ensures
        m > 0 <==> n * pow2(1075) > p,
        m >= 0,
{
    lemma2_to64_rest();
    lemma_pow2_unfold(1075);
    lemma_pow2_pos(k);
    let x = pow2(1074) as int;
    assert(n * (2 * x) == 2 * (n * x)) by (nonlinear_arith);
    let y = n * pow2(k);
    assert(y >= 0) by (nonlinear_arith)
        requires
            n >= 0,
            pow2(k) > 0,
            y == n * pow2(k),
    ;
    assert(m <= 0 ==> m * p <= 0) by (nonlinear_arith)
        requires
            p > 0,
    ;
    assert(m >= 1 ==> m * p >= p) by (nonlinear_arith)
        requires
            p > 0,
    ;
    assert(m >= 2 ==> m * p >= 2 * p) by (nonlinear_arith)
        requires
            p > 0,
    ;
    assert(m <= -1 ==> m * p <= -p) by (nonlinear_arith)
        requires
            p > 0,
    ;
    if k < 1074 {
        lemma_pow2_strictly_increases(k, 1074);
        assert(y <= n * x) by (nonlinear_arith)
            requires
                n >= 0,
                pow2(k) <= x,
                y == n * pow2(k),
        ;
    } else {
        assert(m == 1 ==> m * p == p) by (nonlinear_arith);
    }
}

// ---------------------------------------------------------------------------
// Nearness to an integer
// ---------------------------------------------------------------------------
/// Two to the power `k`.
fn power_of_two(k: u32) -> (r: u128)
    requires
        k <= 82,
    ensures
        r == pow2(k as nat),
        r > 0,
{
    let mut r: u128 = 1;
    let mut i: u32 = 0;
    proof {
        lemma2_to64();
    }
    while i < k
        invariant
            i <= k <= 82,
            r == pow2(i as nat),
            r > 0,
        decreases k - i,
    {
        proof {
            lemma_pow2_unfold((i + 1) as nat);
            lemma_pow2_adds(64, 18);
            lemma2_to64();
            if i < 82 {
                lemma_pow2_strictly_increases(i as nat, 82);
            }
        }
        r = r * 2;
        i += 1;
    }
    r
}

/// How the distance to the nearest integer decides: with `h` for `2^s` and `q` for `2^(82 - s)`,
/// the number `m / h` is near to an integer if `t`, the distance of `m` from the nearest multiple
/// of `h`, is no more than the whole part of a billionth over `q`.
proof fn near_by_distance(m: int, s: nat, h: int, q: int, t: int)
    requires
        m >= 0,
        1 <= s <= 82,
        h == pow2(s),
        q == pow2((82 - s) as nat),
        t == (if m % h <= h - m % h {
            m % h
        } else {
            h - m % h
        }),
    ensures
        near_integer(m, (s + 1) as nat) <==> t <= BILLIONTH as int / q,
{
    lemma_pow2_pos(s);
    lemma_pow2_pos((82 - s) as nat);
    lemma_pow2_adds(s, (82 - s) as nat);
    lemma_pow2_unfold(s + 1);
    let c = BILLIONTH as int;
    let k = s + 1;
    assert forall|j: int| #[trigger]
        is_near(m, k, j) <==> -(c / q) <= m - j * h <= c / q by {
        let e = m - j * h;
        assert(j * (2 * h) == 2 * (j * h)) by (nonlinear_arith);
        assert(2 * m - j * pow2(k) == 2 * e);
        assert((2 * e) * (h * q) == (e * q) * (2 * h)) by (nonlinear_arith);
        assert((e * q) * (2 * h) <= c * (2 * h) <==> e * q <= c) by (nonlinear_arith)
            requires
                h > 0,
        ;
        assert(-(c * (2 * h)) <= (e * q) * (2 * h) <==> -c <= e * q) by (nonlinear_arith)
            requires
                h > 0,
        ;
        assert(e * q <= c <==> e <= c / q) by (nonlinear_arith)
            requires
                q > 0,
        ;
        assert(-c <= e * q <==> -(c / q) <= e) by (nonlinear_arith)
            requires
                q > 0,
        ;
    }
    let j0 = m / h;
    assert(m == j0 * h + m % h) by (nonlinear_arith)
        requires
            h > 0,
            j0 == m / h,
    ;
    assert(0 <= m % h < h) by (nonlinear_arith)
        requires
            h > 0,
    ;
    assert((j0 + 1) * h == j0 * h + h) by (nonlinear_arith);
    if t <= c / q {
        if t == m % h {
            assert(is_near(m, k, j0));
        } else {
            assert(is_near(m, k, j0 + 1));
        }
    }
    if near_integer(m, k) {
        let j = choose|j: int| #[trigger] is_near(m, k, j);
        assert(-(c / q) <= m - j * h <= c / q);
        if j <= j0 {
            assert(j * h <= j0 * h) by (nonlinear_arith)
                requires
                    j <= j0,
                    h > 0,
            ;
        } else {
            assert((j0 + 1) * h <= j * h) by (nonlinear_arith)
                requires
                    j0 + 1 <= j,
                    h > 0,
            ;
        }
    }
}

/// Tells whether twice a double precision number is near to an integer.
pub fn twice_is_near_integer(m: u64, k: u32) -> (r: bool)
    requires
        m <= 0x20_0000_0000_0000,
        k <= 1074,
    ensures
        r == near_integer(m as int, k as nat),
{
    proof {
        lemma2_to64();
        lemma2_to64_rest();
        lemma_pow2_adds(64, 18);
    }
    if k <= 1 {
        proof {
            let j = if k == 0 {
                2 * m as int
            } else {
                m as int
            };
            assert(2 * m - j * pow2(k as nat) == 0) by (nonlinear_arith)
                requires
                    k == 0 && j == 2 * m && pow2(k as nat) == 1 || k == 1 && j == m && pow2(
                        k as nat,
                    ) == 2,
            ;
            assert(is_near(m as int, k as nat, j)) by (nonlinear_arith)
                requires
                    2 * m - j * pow2(k as nat) == 0,
                    pow2(k as nat) > 0,
                    is_near(m as int, k as nat, j) == (-(BILLIONTH * pow2(k as nat)) <= (2 * m - j
                        * pow2(k as nat)) * pow2(82) <= BILLIONTH * pow2(k as nat)),
            ;
        }
        return true;
    }
    if k > 83 {
        proof {
            lemma_pow2_adds(64, 20);
            if k > 84 {
                lemma_pow2_strictly_increases(84, k as nat);
            }
            let x = pow2(k as nat) as int;
            assert(0 * x == 0);
            assert((2 * m) * pow2(82) <= BILLIONTH * x) by (nonlinear_arith)
                requires
                    m <= 0x20_0000_0000_0000,
                    pow2(82) == 0x10000000000000000 * 0x40000,
                    x >= 0x10000000000000000 * 0x100000,
                    BILLIONTH == 4_835_703_278_458_517,
            ;
            assert(is_near(m as int, k as nat, 0));
        }
        return true;
    }
    let s: u32 = k - 1;
    let h = power_of_two(s);
    let q = power_of_two(82 - s);
    let rest: u128 = m as u128 % h;
    let t: u128 = if rest <= h - rest {
        rest
    } else {
        h - rest
    };
    proof {
        near_by_distance(m as int, s as nat, h as int, q as int, t as int);
    }
    t <= BILLIONTH as u128 / q
}

// ---------------------------------------------------------------------------
// What holds of double precision
// ---------------------------------------------------------------------------
/// `BILLIONTH` is what it is said to be.
pub proof fn billionth_is_nearest()
    ensures
        is_double(1, pow10(9), BILLIONTH as int, 82),
{
    lemma2_to64();
    lemma2_to64_rest();
    lemma_pow2_adds(64, 18);
    assert(pow10(9) == 1_000_000_000) by {
        reveal_with_fuel(pow10, 10);
    }
}

/// How many binary digits behind the point a number is rounded to.
proof fn scale_of(n: int, p: int, from: nat) -> (k: nat)
    requires
        n > 0,
        p > 0,
        from <= 1074,
        n * pow2(from) < pow2(53) * p,
    ensures
        from <= k <= 1074,
        n * pow2(k) < pow2(53) * p,
        k < 1074 ==> pow2(52) * p <= n * pow2(k),
    decreases 1074 - from,
{
    lemma2_to64_rest();
    if from == 1074 || pow2(52) * p <= n * pow2(from) {
        from
    } else {
        lemma_pow2_unfold(from + 1);
        let x = pow2(from) as int;
        assert(n * (2 * x) == 2 * (n * x)) by (nonlinear_arith);
        scale_of(n, p, from + 1)
    }
}

/// Every number below `2^53` has a nearest double precision number.
pub proof fn double_exists(n: int, p: int)
    requires
        n >= 0,
        p > 0,
        n < pow2(53) * p,
    ensures
        exists|m: int, k: nat| #[trigger] is_double(n, p, m, k),
{
    lemma2_to64();
    lemma2_to64_rest();
    assert(n * pow2(0) == n) by (nonlinear_arith)
        requires
            pow2(0) == 1,
    ;
    assert(n == 0 ==> n * pow2(1074) == 0) by (nonlinear_arith);
    let k = if n == 0 {
        1074
    } else {
        scale_of(n, p, 0)
    };
    let y = n * pow2(k);
    let q = y / p;
    let rest = y % p;
    assert(y == q * p + rest && 0 <= rest < p) by (nonlinear_arith)
        requires
            p > 0,
            q == y / p,
            rest == y % p,
    ;
    assert((q + 1) * p == q * p + p) by (nonlinear_arith);
    let m = if 2 * rest > p || (2 * rest == p && q % 2 == 1) {
        q + 1
    } else {
        q
    };
    assert(is_double(n, p, m, k));
}

/// A number that is a multiple of one half is one in double precision.
pub proof fn halves_are_near(n: int, p: int, h: int)
    requires
        n >= 0,
        p > 0,
        2 * n == h * p,
        n < pow2(53) * p,
    ensures
        exists|m: int, k: nat| #[trigger] is_double(n, p, m, k) && near_integer(m, k),
{
    double_exists(n, p);
    let (m, k) = choose|m: int, k: nat| #[trigger] is_double(n, p, m, k);
    lemma2_to64();
    let x = pow2(k) as int;
    lemma_pow2_pos(k);
    let j = if k == 0 {
        2 * m
    } else {
        h
    };
    let d = j * x - 2 * m;
    if k == 0 {
        assert(d == 0) by (nonlinear_arith)
            requires
                d == j * x - 2 * m,
                x == 1,
                j == 2 * m,
        ;
    } else {
        lemma_pow2_unfold(k);
        let y = pow2((k - 1) as nat) as int;
        assert(2 * (n * x) - 2 * (m * p) == d * p) by (nonlinear_arith)
            requires
                2 * n == h * p,
                d == h * x - 2 * m,
        ;
        assert(-1 <= d <= 1) by (nonlinear_arith)
            requires
                -p <= d * p <= p,
                p > 0,
        ;
        assert(h * (2 * y) == 2 * (h * y)) by (nonlinear_arith);
    }
    assert(0 * pow2(82) == 0);
    assert(BILLIONTH * x >= 0) by (nonlinear_arith)
        requires
            x >= 0,
    ;
    assert(is_near(m, k, j));
    assert(is_double(n, p, m, k) && near_integer(m, k));
}

/// How far twice a number below a million is from an integer decides, where it is less than half
/// a billionth or more than two billionths, how far the double precision number is.
pub proof fn twice_by_decimals(n: int, p: int, m: int, k: nat, j: int)
    requires
        n >= 0,
        p > 0,
        n < 1_000_000 * p,
        is_double(n, p, m, k),
    ensures
        -p <= (2 * n - j * p) * 2_000_000_000 <= p ==> is_near(m, k, j),
        (2 * n - j * p) * 1_000_000_000 > 2 * p ==> !is_near(m, k, j),
        (2 * n - j * p) * 1_000_000_000 < -2 * p ==> !is_near(m, k, j),
{
    lemma2_to64();
    lemma2_to64_rest();
    lemma_pow2_adds(64, 18);
    lemma_pow2_pos(k);
    let x = pow2(k) as int;
    let few = 0x2_0000_0000int;
    if k < 33 {
        if k < 32 {
            lemma_pow2_strictly_increases(k, 32);
        }
        assert(n * x <= n * 0x1_0000_0000) by (nonlinear_arith)
            requires
                0 <= n,
                x <= 0x1_0000_0000,
        ;
        assert(false);
    }
    if k > 33 {
        lemma_pow2_strictly_increases(33, k);
    }
    let a = 2 * n - j * p;
    let d = 2 * m - j * x;
    let w = x * p;
    let ax = a * x;
    assert(d * p == ax - 2 * (n * x - m * p)) by (nonlinear_arith)
        requires
            a == 2 * n - j * p,
            d == 2 * m - j * x,
            ax == a * x,
    ;
    assert(few * p <= w) by (nonlinear_arith)
        requires
            few <= x,
            p > 0,
            w == x * p,
    ;
    let c = BILLIONTH as int;
    let t = pow2(82) as int;
    let dp = d * p;
    assert(is_near(m, k, j) <==> -(c * w) <= dp * t <= c * w) by {
        let left = d * t;
        let right = c * x;
        assert(left * p == dp * t) by (nonlinear_arith)
            requires
                left == d * t,
                dp == d * p,
        ;
        assert(right * p == c * w) by (nonlinear_arith)
            requires
                right == c * x,
                w == x * p,
        ;
        assert(left <= right <==> left * p <= right * p) by (nonlinear_arith)
            requires
                p > 0,
        ;
        assert(-right <= left <==> -(right * p) <= left * p) by (nonlinear_arith)
            requires
                p > 0,
        ;
    }
    assert(a * 2_000_000_000 <= p ==> ax * 2_000_000_000 <= w) by (nonlinear_arith)
        requires
            x > 0,
            ax == a * x,
            w == x * p,
    ;
    assert(-p <= a * 2_000_000_000 ==> -w <= ax * 2_000_000_000) by (nonlinear_arith)
        requires
            x > 0,
            ax == a * x,
            w == x * p,
    ;
    assert(a * 1_000_000_000 > 2 * p ==> ax * 1_000_000_000 > 2 * w) by (nonlinear_arith)
        requires
            x > 0,
            ax == a * x,
            w == x * p,
    ;
    assert(a * 1_000_000_000 < -2 * p ==> ax * 1_000_000_000 < -2 * w) by (nonlinear_arith)
        requires
            x > 0,
            ax == a * x,
            w == x * p,
    ;
}

/// Twice a number of less than a trillion that is a hundredth or more from each integer is not near
/// to one in double precision.
pub proof fn twice_by_hundredths(n: int, p: int, m: int, k: nat, j: int)
    requires
        n >= 0,
        p > 0,
        n < 1_000_000_000_000 * p,
        is_double(n, p, m, k),
        (2 * n - j * p) * 100 >= p || (2 * n - j * p) * 100 <= -p,
    ensures
        !is_near(m, k, j),
{
    lemma2_to64();
    lemma2_to64_rest();
    lemma_pow2_adds(64, 18);
    lemma_pow2_pos(k);
    let x = pow2(k) as int;
    if k < 12 {
        lemma_pow2_strictly_increases(k, 12);
        assert(n * x <= n * 4096) by (nonlinear_arith)
            requires
                0 <= n,
                x <= 4096,
        ;
    }
    if k > 12 {
        lemma_pow2_strictly_increases(12, k);
    }
    let a = 2 * n - j * p;
    let d = 2 * m - j * x;
    let w = x * p;
    let ax = a * x;
    assert(d * p == ax - 2 * (n * x - m * p)) by (nonlinear_arith)
        requires
            a == 2 * n - j * p,
            d == 2 * m - j * x,
            ax == a * x,
    ;
    assert(4096 * p <= w) by (nonlinear_arith)
        requires
            4096 <= x,
            p > 0,
            w == x * p,
    ;
    let c = BILLIONTH as int;
    let t = pow2(82) as int;
    let dp = d * p;
    let left = d * t;
    let right = c * x;
    assert(left * p == dp * t) by (nonlinear_arith)
        requires
            left == d * t,
            dp == d * p,
    ;
    assert(right * p == c * w) by (nonlinear_arith)
        requires
            right == c * x,
            w == x * p,
    ;
    assert(left <= right <==> left * p <= right * p) by (nonlinear_arith)
        requires
            p > 0,
    ;
    assert(-right <= left <==> -(right * p) <= left * p) by (nonlinear_arith)
        requires
            p > 0,
    ;
    assert(a * 100 >= p ==> ax * 100 >= w) by (nonlinear_arith)
        requires
            x > 0,
            ax == a * x,
            w == x * p,
    ;
    assert(a * 100 <= -p ==> ax * 100 <= -w) by (nonlinear_arith)
        requires
            x > 0,
            ax == a * x,
            w == x * p,
    ;
}

} // verus!

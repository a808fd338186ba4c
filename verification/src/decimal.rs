//! Numbers as double-precision arithmetic reads them from text: a decimal is
//! taken to the nearest double, of two equally near to the even one. A double
//! is known by its place in the order of all doubles.

use vstd::prelude::*;
use crate::num::{
    all_digits, digits_value, int_text, int_text_reads_back, int_value, lemma_nat_text, nat_text,
};
use crate::text::{chars_of, digit, lower, lower_all, lowered, same, text_of};

verus! {

// ---------------------------------------------------------------------------
// Doubles
// ---------------------------------------------------------------------------

/// The place of infinity: the number of finite non-negative doubles.
pub const TOP: u64 = 0x7ff0_0000_0000_0000;

/// The number of doubles with one exponent.
pub const BAND: u64 = 0x10_0000_0000_0000;

/// Powers of two.
pub open spec fn two(n: nat) -> int
    decreases n,
{
    if n == 0 {
        1
    } else {
        2 * two((n - 1) as nat)
    }
}

/// Powers of ten.
pub open spec fn ten(n: nat) -> int
    decreases n,
{
    if n == 0 {
        1
    } else {
        10 * ten((n - 1) as nat)
    }
}

/// The significand of the double at a place.
pub open spec fn significand(k: int) -> int {
    if k < BAND {
        k
    } else {
        BAND + k % (BAND as int)
    }
}

/// The exponent of the double at a place, from the least one on.
pub open spec fn exponent(k: int) -> nat {
    if k < BAND {
        0
    } else {
        (k / (BAND as int) - 1) as nat
    }
}

/// The double at a place, in units of the least positive one, which is
/// two to the power of -1074. At the place of infinity: where the next double
/// would be.
pub open spec fn double_at(k: int) -> int {
    significand(k) * two(exponent(k))
}

/// Twice the middle between a double and the next.
pub open spec fn halfway(k: int) -> int {
    double_at(k) + double_at(k + 1)
}

/// The place of the double nearest to `n / d`, of two equally near the even
/// one.
pub open spec fn is_nearest(n: int, d: int, k: int) -> bool {
    let x = n * two(1075);
    &&& 0 <= k <= TOP
    &&& k > 0 ==> x > d * halfway(k - 1) || (x == d * halfway(k - 1) && k % 2 == 0)
    &&& k < TOP ==> x < d * halfway(k) || (x == d * halfway(k) && k % 2 == 0)
}

pub open spec fn nearest(n: int, d: int) -> int {
    choose|k: int| is_nearest(n, d, k)
}

/// The numerator of `digits` times ten to the power of `exp`.
pub open spec fn above_line(digits: int, exp: int) -> int {
    if exp >= 0 {
        digits * ten(exp as nat)
    } else {
        digits
    }
}

/// The denominator of `digits` times ten to the power of `exp`.
pub open spec fn below_line(exp: int) -> int {
    if exp >= 0 {
        1
    } else {
        ten((-exp) as nat)
    }
}

/// A double: not a number, or one with its place in the order, which is
/// negative below zero. Both zeros have the place zero.
#[derive(Clone, Copy, Debug)]
pub enum Double {
    Nan,
    Place(i64),
}

// ---------------------------------------------------------------------------
// The grammar
// ---------------------------------------------------------------------------

/// The first place of an `e` or `E`, or else the end.
pub open spec fn exponent_mark(s: Seq<char>, i: int) -> int
    decreases s.len() - i,
{
    if i < 0 || i >= s.len() || lower(s[i]) == 'e' {
        i
    } else {
        exponent_mark(s, i + 1)
    }
}

/// The first place of a point, or else the end.
pub open spec fn point_mark(s: Seq<char>, i: int) -> int
    decreases s.len() - i,
{
    if i < 0 || i >= s.len() || s[i] == '.' {
        i
    } else {
        point_mark(s, i + 1)
    }
}

/// Digits before and after an optional point, at least one in all: the number
/// without the point, and how many digits stand behind it.
pub open spec fn mantissa(s: Seq<char>) -> Option<(Seq<char>, int)> {
    let p = point_mark(s, 0);
    let ds = if p < s.len() {
        s.take(p) + s.skip(p + 1)
    } else {
        s
    };
    if all_digits(ds) {
        Some(
            (
                ds,
                if p < s.len() {
                    s.len() - p - 1
                } else {
                    0
                },
            ),
        )
    } else {
        None
    }
}

/// A decimal number without a sign: its digits, and the power of ten to take
/// them by.
pub open spec fn decimal(s: Seq<char>) -> Option<(Seq<char>, int)> {
    let e = exponent_mark(s, 0);
    match mantissa(s.take(e)) {
        Some((ds, behind)) => if e < s.len() {
            match int_value(s.skip(e + 1)) {
                Some(x) => Some((ds, x - behind)),
                None => None,
            }
        } else {
            Some((ds, -behind))
        },
        None => None,
    }
}

pub open spec fn signed(negative: bool, k: int) -> Double {
    if negative {
        Double::Place((-k) as i64)
    } else {
        Double::Place(k as i64)
    }
}

/// What stands behind a sign.
pub open spec fn unsigned_part(s: Seq<char>) -> Seq<char> {
    if s.len() > 0 && (s[0] == '-' || s[0] == '+') {
        s.skip(1)
    } else {
        s
    }
}

/// The double that a text is read as: an optional sign, and `inf`,
/// `infinity`, `nan` in any case or a decimal number.
pub open spec fn double_of(s: Seq<char>) -> Option<Double> {
    let negative = s.len() > 0 && s[0] == '-';
    let body = unsigned_part(s);
    let name = lowered(body);
    if name == "nan"@ {
        Some(Double::Nan)
    } else if name == "inf"@ || name == "infinity"@ {
        Some(signed(negative, TOP as int))
    } else {
        match decimal(body) {
            Some((ds, exp)) => Some(
                signed(
                    negative,
                    nearest(above_line(digits_value(ds), exp), below_line(exp)),
                ),
            ),
            None => None,
        }
    }
}

// ---------------------------------------------------------------------------
// Powers
// ---------------------------------------------------------------------------

proof fn lemma_two_add(a: nat, b: nat)
    ensures
        two(a + b) == two(a) * two(b),
        two(a) > 0,
    decreases a,
{
    if a > 0 {
        lemma_two_add((a - 1) as nat, b);
        assert(((a - 1) as nat) + b == (a + b - 1) as nat);
        assert(2 * (two((a - 1) as nat) * two(b)) == (2 * two((a - 1) as nat)) * two(b))
            by (nonlinear_arith);
    } else {
        assert(1 * two(b) == two(b));
    }
}

proof fn lemma_ten_add(a: nat, b: nat)
    ensures
        ten(a + b) == ten(a) * ten(b),
        ten(a) > 0,
    decreases a,
{
    if a > 0 {
        lemma_ten_add((a - 1) as nat, b);
        assert(((a - 1) as nat) + b == (a + b - 1) as nat);
        assert(10 * (ten((a - 1) as nat) * ten(b)) == (10 * ten((a - 1) as nat)) * ten(b))
            by (nonlinear_arith);
    } else {
        assert(1 * ten(b) == ten(b));
    }
}

proof fn lemma_ten_grows(a: nat, b: nat)
    requires
        a <= b,
    ensures
        0 < ten(a) <= ten(b),
{
    lemma_ten_add(a, (b - a) as nat);
    lemma_ten_add((b - a) as nat, 0);
    let x = ten(a);
    let y = ten((b - a) as nat);
    assert(x * y >= x) by (nonlinear_arith)
        requires
            x > 0,
            y >= 1,
    ;
}

proof fn lemma_constants()
    ensures
        two(93) == 9903520314283042199192993792,
        ten(28) == 10000000000000000000000000000,
{
    assert(two(31) == 0x8000_0000) by {
        reveal_with_fuel(two, 32);
    }
    lemma_two_add(31, 31);
    lemma_two_add(31, 62);
    assert(ten(14) == 100000000000000) by {
        reveal_with_fuel(ten, 15);
    }
    lemma_ten_add(14, 14);
}

proof fn lemma_tens_and_twos(j: nat)
    ensures
        0 < two(93 * j) <= ten(28 * j),
    decreases j,
{
    if j > 0 {
        lemma_tens_and_twos((j - 1) as nat);
        lemma_two_add(93, (93 * (j - 1)) as nat);
        lemma_ten_add(28, (28 * (j - 1)) as nat);
        assert(93 + (93 * (j - 1)) as nat == 93 * j);
        assert(28 + (28 * (j - 1)) as nat == 28 * j);
        lemma_constants();
        let a = two(93);
        let b = two((93 * (j - 1)) as nat);
        let c = ten(28);
        let d = ten((28 * (j - 1)) as nat);
        assert(0 < a * b <= c * d) by (nonlinear_arith)
            requires
                0 < a <= c,
                0 < b <= d,
        ;
    }
}

/// Ten to the power of 309 lies above all doubles, and to the power of -327
/// below half of the least.
proof fn lemma_limits()
    ensures
        two(1024) <= ten(309),
        two(1075) <= ten(327),
        two(1024) > 0,
        two(1075) > 0,
{
    lemma_tens_and_twos(11);
    lemma_two_add(1, 1023);
    lemma_ten_add(1, 308);
    assert(two(1) == 2) by {
        reveal_with_fuel(two, 2);
    }
    assert(ten(1) == 10) by {
        reveal_with_fuel(ten, 2);
    }
    lemma_two_add(52, 1023);
    lemma_ten_add(19, 308);
    assert(two(52) == 4503599627370496) by {
        reveal_with_fuel(two, 53);
    }
    assert(ten(19) == 10000000000000000000) by {
        reveal_with_fuel(ten, 20);
    }
    let a = two(1023);
    let b = ten(308);
    assert(a <= b);
    assert(4503599627370496 * a <= 10000000000000000000 * b);
}

// ---------------------------------------------------------------------------
// The nearest double
// ---------------------------------------------------------------------------

proof fn lemma_next_double(k: int)
    requires
        0 <= k,
    ensures
        double_at(k + 1) == (significand(k) + 1) * two(exponent(k)),
        halfway(k) == (2 * significand(k) + 1) * two(exponent(k)),
        double_at(k) < double_at(k + 1),
        two(exponent(k)) > 0,
{
    let b = BAND as int;
    lemma_two_add(exponent(k), 0);
    let t = two(exponent(k));
    let m = significand(k);
    assert((m + 1) * t == m * t + t) by (nonlinear_arith);
    assert((2 * m + 1) * t == m * t + (m + 1) * t) by (nonlinear_arith);
    if k + 1 < b {
    } else if k + 1 == b {
        assert((k + 1) / b == 1 && (k + 1) % b == 0);
    } else if k % b == b - 1 {
        assert((k + 1) / b == k / b + 1 && (k + 1) % b == 0) by (nonlinear_arith)
            requires
                k % b == b - 1,
                b == 0x10_0000_0000_0000,
                k >= 0,
        ;
        assert(two(exponent(k + 1)) == 2 * t);
        assert(b * (2 * t) == (m + 1) * t) by (nonlinear_arith)
            requires
                m + 1 == 2 * b,
        ;
    } else {
        assert((k + 1) / b == k / b && (k + 1) % b == k % b + 1) by (nonlinear_arith)
            requires
                k % b < b - 1,
                b == 0x10_0000_0000_0000,
                k >= 0,
        ;
    }
}

proof fn lemma_halfway_grows(j: int, k: int)
    requires
        0 <= j < k,
    ensures
        halfway(j) < halfway(k),
    decreases k - j,
{
    lemma_next_double(k - 1);
    lemma_next_double(k);
    if j < k - 1 {
        lemma_halfway_grows(j, k - 1);
    }
}

proof fn lemma_scale(d: int, x: int, y: int)
    requires
        d > 0,
        x < y,
    ensures
        d * x < d * y,
{
    assert(d * x < d * y) by (nonlinear_arith)
        requires
            d > 0,
            x < y,
    ;
}

proof fn lemma_one_nearest(n: int, d: int, j: int, k: int)
    requires
        d > 0,
        is_nearest(n, d, j),
        is_nearest(n, d, k),
    ensures
        j == k,
{
    let x = n * two(1075);
    if j < k {
        if j < k - 1 {
            lemma_halfway_grows(j, k - 1);
            lemma_scale(d, halfway(j), halfway(k - 1));
        }
        assert(false);
    } else if k < j {
        if k < j - 1 {
            lemma_halfway_grows(k, j - 1);
            lemma_scale(d, halfway(k), halfway(j - 1));
        }
        assert(false);
    }
}

/// There is one nearest double, and no other.
pub proof fn nearest_is_unique(n: int, d: int, k: int)
    requires
        d > 0,
        is_nearest(n, d, k),
    ensures
        nearest(n, d) == k,
{
    lemma_one_nearest(n, d, k, nearest(n, d));
}

/// A number of at least two to the power of 1024 is read as infinity.
proof fn lemma_huge(n: int, d: int)
    requires
        d > 0,
        n >= d * two(1024),
    ensures
        nearest(n, d) == TOP,
{
    let k = TOP as int;
    lemma_next_double(k - 1);
    assert(significand(k) == BAND && exponent(k) == 2046);
    lemma_two_add(52, 2046);
    assert(two(52) == BAND) by {
        reveal_with_fuel(two, 53);
    }
    assert(double_at(k) == two(2098));
    assert(two(2099) == 2 * two(2098));
    lemma_two_add(1024, 1075);
    lemma_two_add(1075, 0);
    let x = n * two(1075);
    let p = two(1075);
    let q = two(1024);
    assert(x >= d * (q * p)) by (nonlinear_arith)
        requires
            x == n * p,
            n >= d * q,
            p > 0,
    ;
    lemma_scale(d, halfway(k - 1), two(2099));
    assert(is_nearest(n, d, k));
    nearest_is_unique(n, d, k);
}

/// A number below half of the least double is read as zero.
proof fn lemma_tiny(n: int, d: int)
    requires
        d > 0,
        n * two(1075) < d,
    ensures
        nearest(n, d) == 0,
{
    lemma_next_double(0);
    assert(halfway(0) == 1) by {
        assert(two(0) == 1);
    }
    assert(is_nearest(n, d, 0));
    nearest_is_unique(n, d, 0);
}

// ---------------------------------------------------------------------------
// Large natural numbers
// ---------------------------------------------------------------------------

/// Powers of two to the power of 32.
spec fn base(n: nat) -> int
    decreases n,
{
    if n == 0 {
        1
    } else {
        0x1_0000_0000 * base((n - 1) as nat)
    }
}

spec fn limbs_value(s: Seq<u32>) -> int
    decreases s.len(),
{
    if s.len() == 0 {
        0
    } else {
        limbs_value(s.drop_last()) + s.last() * base((s.len() - 1) as nat)
    }
}

/// A natural number of any size, least limb first.
struct Big {
    limbs: Vec<u32>,
}

enum Sign {
    Less,
    Equal,
    Greater,
}

proof fn lemma_limbs_bound(s: Seq<u32>)
    ensures
        0 <= limbs_value(s) < base(s.len()),
    decreases s.len(),
{
    if s.len() > 0 {
        lemma_limbs_bound(s.drop_last());
        let b = base((s.len() - 1) as nat);
        let x = s.last() as int;
        assert(0 <= x * b && x * b + b <= 0x1_0000_0000 * b) by (nonlinear_arith)
            requires
                0 <= x < 0x1_0000_0000,
                b >= 0,
        ;
    }
}

impl Big {
    spec fn value(self) -> int {
        limbs_value(self.limbs@)
    }

    fn small(n: u32) -> (r: Big)
        ensures
            r.value() == n,
    {
        let mut limbs: Vec<u32> = Vec::new();
        limbs.push(n);
        assert(limbs@.drop_last() =~= Seq::empty());
        assert(limbs_value(Seq::empty()) == 0);
        assert(base(0) == 1);
        Big { limbs }
    }

    fn copy(&self) -> (r: Big)
        ensures
            r.value() == self.value(),
    {
        let mut limbs: Vec<u32> = Vec::new();
        let mut i: usize = 0;
        while i < self.limbs.len()
            invariant
                i <= self.limbs.len(),
                limbs@ == self.limbs@.take(i as int),
            decreases self.limbs.len() - i,
        {
            limbs.push(self.limbs[i]);
            i += 1;
        }
        assert(limbs@ =~= self.limbs@);
        Big { limbs }
    }

    fn push(&mut self, x: u32)
        ensures
            final(self).value() == old(self).value() + x * base(old(self).limbs@.len()),
            final(self).limbs@.len() == old(self).limbs@.len() + 1,
    {
        self.limbs.push(x);
        assert(self.limbs@.drop_last() =~= old(self).limbs@);
    }

    /// Takes the number times `m`, and adds `a`.
    fn scale(&mut self, m: u64, a: u64)
        ensures
            final(self).value() == old(self).value() * m + a,
    {
        let ghost before = self.limbs@;
        let mut out = Big { limbs: Vec::new() };
        let mut carry: u64 = a;
        let mut i: usize = 0;
        assert(before.take(0) =~= Seq::empty());
        assert(out.limbs@ =~= Seq::empty());
        assert(carry * base(0) == a) by {
            assert(base(0) == 1);
        }
        while i < self.limbs.len()
            invariant
                i <= self.limbs.len(),
                before == self.limbs@,
                out.limbs@.len() == i,
                out.value() + carry * base(i as nat) == limbs_value(before.take(i as int)) * m + a,
            decreases self.limbs.len() - i,
        {
            let x: u32 = self.limbs[i];
            assert(x * m + carry <= 0xffff_ffff * 0xffff_ffff_ffff_ffff + 0xffff_ffff_ffff_ffff)
                by (nonlinear_arith)
                requires
                    0 <= x <= 0xffff_ffff,
                    0 <= m <= 0xffff_ffff_ffff_ffff,
                    0 <= carry <= 0xffff_ffff_ffff_ffff,
            ;
            assert(x * m <= 0xffff_ffff * 0xffff_ffff_ffff_ffff) by (nonlinear_arith)
                requires
                    0 <= x <= 0xffff_ffff,
                    0 <= m <= 0xffff_ffff_ffff_ffff,
            ;
            let t: u128 = (x as u128) * (m as u128) + (carry as u128);
            let low: u32 = (t % 0x1_0000_0000) as u32;
            let high: u64 = (t / 0x1_0000_0000) as u64;
            let ghost v = out.value();
            let ghost b = base(i as nat);
            out.push(low);
            proof {
                let w = limbs_value(before.take(i as int));
                assert(before.take(i + 1).drop_last() =~= before.take(i as int));
                assert(limbs_value(before.take(i + 1)) == w + x * b);
                assert(t == low + 0x1_0000_0000 * high);
                assert(v + low * b + high * (0x1_0000_0000 * b) == (w + x * b) * m + a)
                    by (nonlinear_arith)
                    requires
                        v + carry * b == w * m + a,
                        x * m + carry == low + 0x1_0000_0000 * high,
                ;
                assert(base((i + 1) as nat) == 0x1_0000_0000 * b);
            }
            carry = high;
            i += 1;
        }
        assert(before.take(before.len() as int) =~= before);
        let low: u32 = (carry % 0x1_0000_0000) as u32;
        let high: u32 = (carry / 0x1_0000_0000) as u32;
        let ghost v = out.value();
        let ghost b = base(i as nat);
        out.push(low);
        out.push(high);
        proof {
            assert(base((i + 1) as nat) == 0x1_0000_0000 * b);
            assert(v + low * b + high * (0x1_0000_0000 * b) == v + carry * b) by (nonlinear_arith)
                requires
                    carry == low + 0x1_0000_0000 * high,
            ;
        }
        self.limbs = out.limbs;
        self.drop_zeros();
    }

    /// Takes away limbs that hold nothing: the zeros above the highest limb that
    /// holds something, and no others.
    fn drop_zeros(&mut self)
        ensures
            final(self).value() == old(self).value(),
            final(self).limbs@.is_prefix_of(old(self).limbs@),
            forall|i: int|
                final(self).limbs@.len() <= i < old(self).limbs@.len() ==> #[trigger] old(
                    self,
                ).limbs@[i] == 0,
            final(self).limbs@.len() > 0 ==> final(self).limbs@.last() != 0,
    {
        while self.limbs.len() > 0 && self.limbs[self.limbs.len() - 1] == 0
            invariant
                self.value() == old(self).value(),
                self.limbs@.is_prefix_of(old(self).limbs@),
                forall|i: int|
                    self.limbs@.len() <= i < old(self).limbs@.len() ==> #[trigger] old(
                        self,
                    ).limbs@[i] == 0,
            decreases self.limbs.len(),
        {
            let ghost before = self.limbs@;
            self.limbs.pop();
            assert(self.limbs@ =~= before.drop_last());
            assert(0 * base((before.len() - 1) as nat) == 0);
            assert(before.last() == old(self).limbs@[before.len() - 1]);
        }
    }

    /// Takes the number times two to the power of `n`.
    fn shift(&mut self, n: u32)
        ensures
            final(self).value() == old(self).value() * two(n as nat),
    {
        let ghost v = self.value();
        let mut left: u32 = n;
        assert(v * two(0) == v);
        proof {
            lemma_two_add(0, n as nat);
        }
        while left >= 32
            invariant
                left <= n,
                v * two(n as nat) == self.value() * two(left as nat),
            decreases left,
        {
            let ghost w = self.value();
            self.scale(0x1_0000_0000, 0);
            proof {
                lemma_two_add(32, (left - 32) as nat);
                assert(two(32) == 0x1_0000_0000) by {
                    reveal_with_fuel(two, 33);
                }
                let p = two((left - 32) as nat);
                assert(w * (0x1_0000_0000 * p) == (w * 0x1_0000_0000) * p) by (nonlinear_arith);
            }
            left -= 32;
        }
        while left > 0
            invariant
                left <= n,
                v * two(n as nat) == self.value() * two(left as nat),
            decreases left,
        {
            let ghost w = self.value();
            self.scale(2, 0);
            proof {
                let p = two((left - 1) as nat);
                assert(two(left as nat) == 2 * p);
                assert(w * (2 * p) == (w * 2) * p) by (nonlinear_arith);
            }
            left -= 1;
        }
        assert(self.value() * two(0) == self.value());
    }

    /// Takes the number times ten to the power of `n`.
    fn raise(&mut self, n: u128)
        ensures
            final(self).value() == old(self).value() * ten(n as nat),
    {
        let ghost v = self.value();
        let mut left: u128 = n;
        while left > 0
            invariant
                left <= n,
                v * ten(n as nat) == self.value() * ten(left as nat),
            decreases left,
        {
            let ghost w = self.value();
            self.scale(10, 0);
            proof {
                let p = ten((left - 1) as nat);
                assert(ten(left as nat) == 10 * p);
                assert(w * (10 * p) == (w * 10) * p) by (nonlinear_arith);
            }
            left -= 1;
        }
        assert(self.value() * ten(0) == self.value());
    }

    fn widen(&mut self, n: usize)
        ensures
            final(self).value() == old(self).value(),
            final(self).limbs@.len() >= n,
            old(self).limbs@.len() <= n ==> final(self).limbs@.len() == n,
    {
        while self.limbs.len() < n
            invariant
                self.value() == old(self).value(),
                old(self).limbs@.len() <= n ==> self.limbs@.len() <= n,
            decreases n - self.limbs.len(),
        {
            let ghost b = base(self.limbs@.len());
            self.push(0);
            assert(0 * b == 0);
        }
    }

    fn against(&self, other: &Big) -> (r: Sign)
        ensures
            match r {
                Sign::Less => self.value() < other.value(),
                Sign::Equal => self.value() == other.value(),
                Sign::Greater => self.value() > other.value(),
            },
    {
        let mut x = self.copy();
        let mut y = other.copy();
        x.drop_zeros();
        y.drop_zeros();
        let n: usize = if x.limbs.len() > y.limbs.len() {
            x.limbs.len()
        } else {
            y.limbs.len()
        };
        x.widen(n);
        y.widen(n);
        let mut i: usize = n;
        assert(x.limbs@.take(n as int) =~= x.limbs@);
        assert(y.limbs@.take(n as int) =~= y.limbs@);
        while i > 0
            invariant
                i <= n,
                x.limbs@.len() == n,
                y.limbs@.len() == n,
                x.value() == self.value(),
                y.value() == other.value(),
                x.value() - limbs_value(x.limbs@.take(i as int)) == y.value() - limbs_value(
                    y.limbs@.take(i as int),
                ),
            decreases i,
        {
            let a: u32 = x.limbs[i - 1];
            let b: u32 = y.limbs[i - 1];
            proof {
                assert(x.limbs@.take(i as int).drop_last() =~= x.limbs@.take(i - 1));
                assert(y.limbs@.take(i as int).drop_last() =~= y.limbs@.take(i - 1));
                lemma_limbs_bound(x.limbs@.take(i - 1));
                lemma_limbs_bound(y.limbs@.take(i - 1));
                let s = base((i - 1) as nat);
                if a < b {
                    assert(a * s + s <= b * s) by (nonlinear_arith)
                        requires
                            a < b,
                            s >= 0,
                    ;
                }
                if b < a {
                    assert(b * s + s <= a * s) by (nonlinear_arith)
                        requires
                            b < a,
                            s >= 0,
                    ;
                }
            }
            if a < b {
                return Sign::Less;
            }
            if b < a {
                return Sign::Greater;
            }
            i -= 1;
        }
        assert(x.limbs@.take(0) =~= Seq::empty());
        assert(y.limbs@.take(0) =~= Seq::empty());
        Sign::Equal
    }
}

// ---------------------------------------------------------------------------
// Reading
// ---------------------------------------------------------------------------

/// The middle behind a place, taken by `2 * d`.
fn bound_at(d: &Big, mid: u64) -> (r: Big)
    requires
        mid < TOP,
    ensures
        r.value() == d.value() * halfway(mid as int),
{
    let sig: u64 = if mid < BAND {
        mid
    } else {
        BAND + mid % BAND
    };
    let exp: u64 = if mid < BAND {
        0
    } else {
        mid / BAND - 1
    };
    let mut bound = d.copy();
    bound.scale(2 * sig + 1, 0);
    bound.shift(exp as u32);
    proof {
        lemma_next_double(mid as int);
        let t = two(exponent(mid as int));
        let c = 2 * significand(mid as int) + 1;
        assert((d.value() * c) * t == d.value() * (c * t)) by (nonlinear_arith);
    }
    bound
}

/// The number lies before the middle behind a place, or on it where the place
/// is even.
#[verifier::opaque]
spec fn falls_short(x: int, d: int, k: int) -> bool {
    x < d * halfway(k) || (x == d * halfway(k) && k % 2 == 0)
}

proof fn lemma_found(n: int, d: int, k: int)
    requires
        d > 0,
        0 <= k <= TOP,
        k > 0 ==> !falls_short(n * two(1075), d, k - 1),
        k < TOP ==> falls_short(n * two(1075), d, k),
    ensures
        nearest(n, d) == k,
{
    reveal(falls_short);
    nearest_is_unique(n, d, k);
}

fn is_short(x: &Big, d: &Big, k: u64) -> (r: bool)
    requires
        k < TOP,
    ensures
        r == falls_short(x.value(), d.value(), k as int),
{
    let bound = bound_at(d, k);
    proof {
        reveal(falls_short);
    }
    match x.against(&bound) {
        Sign::Less => true,
        Sign::Equal => k % 2 == 0,
        Sign::Greater => false,
    }
}

/// The place of the double nearest to `n / d`, where `x` is `n` times two to
/// the power of 1075.
fn find_nearest(x: &Big, d: &Big, Ghost(n): Ghost<int>) -> (k: u64)
    requires
        x.value() == n * two(1075),
        d.value() > 0,
    ensures
        k == nearest(n, d.value()),
        k <= TOP,
{
    let mut lo: u64 = 0;
    let mut hi: u64 = TOP;
    while lo < hi
        invariant
            lo <= hi <= TOP,
            lo > 0 ==> !falls_short(x.value(), d.value(), lo - 1),
            hi < TOP ==> falls_short(x.value(), d.value(), hi as int),
        decreases hi - lo,
    {
        let mid: u64 = lo + (hi - lo) / 2;
        if is_short(x, d, mid) {
            hi = mid;
        } else {
            lo = mid + 1;
        }
    }
    proof {
        lemma_found(n, d.value(), lo as int);
    }
    lo
}

proof fn lemma_digits_split(a: Seq<char>, b: Seq<char>)
    ensures
        digits_value(a + b) == digits_value(a) * ten(b.len()) + digits_value(b),
    decreases b.len(),
{
    if b.len() == 0 {
        assert(a + b =~= a);
        assert(digits_value(a) * ten(0) == digits_value(a));
    } else {
        lemma_digits_split(a, b.drop_last());
        assert((a + b).drop_last() =~= a + b.drop_last());
        let v = digits_value(a);
        let t = ten((b.len() - 1) as nat);
        assert(v * t * 10 == v * (10 * t)) by (nonlinear_arith);
    }
}

proof fn lemma_digits_bounds(s: Seq<char>)
    requires
        forall|i: int| 0 <= i < s.len() ==> digit(#[trigger] s[i]),
    ensures
        0 <= digits_value(s) < ten(s.len()),
        s.len() > 0 && s[0] != '0' ==> digits_value(s) >= ten((s.len() - 1) as nat),
    decreases s.len(),
{
    if s.len() > 0 {
        let u = s.drop_last();
        assert forall|i: int| 0 <= i < u.len() implies digit(#[trigger] u[i]) by {
            assert(u[i] == s[i]);
        }
        lemma_digits_bounds(u);
        assert(digit(s[s.len() - 1]));
        if s.len() > 1 {
            assert(u[0] == s[0]);
        }
    }
}

/// The digits without zeros in front.
fn significant(ds: &Vec<char>) -> (r: Vec<char>)
    requires
        forall|i: int| 0 <= i < ds.len() ==> digit(#[trigger] ds@[i]),
    ensures
        digits_value(r@) == digits_value(ds@),
        r.len() <= ds.len(),
        forall|i: int| 0 <= i < r.len() ==> digit(#[trigger] r@[i]),
        r.len() > 0 ==> r@[0] != '0',
{
    let mut z: usize = 0;
    while z < ds.len() && ds[z] == '0'
        invariant
            z <= ds.len(),
            forall|i: int| 0 <= i < z ==> ds@[i] == '0',
        decreases ds.len() - z,
    {
        z += 1;
    }
    let mut r: Vec<char> = Vec::new();
    let mut i: usize = z;
    while i < ds.len()
        invariant
            z <= i <= ds.len(),
            r@ == ds@.subrange(z as int, i as int),
        decreases ds.len() - i,
    {
        r.push(ds[i]);
        i += 1;
    }
    proof {
        let front = ds@.take(z as int);
        assert(ds@ =~= front + r@);
        lemma_digits_split(front, r@);
        lemma_zeros(front);
        assert(0 * ten(r@.len()) == 0);
        assert forall|i: int| 0 <= i < r.len() implies digit(#[trigger] r@[i]) by {
            assert(r@[i] == ds@[z + i]);
        }
    }
    r
}

proof fn lemma_zeros(s: Seq<char>)
    requires
        forall|i: int| 0 <= i < s.len() ==> s[i] == '0',
    ensures
        digits_value(s) == 0,
    decreases s.len(),
{
    if s.len() > 0 {
        lemma_zeros(s.drop_last());
    }
}

/// An exponent so large that no number of digits makes up for it.
const FAR: i128 = 0x1_0000_0000_0000_0000_0000;

/// The exponent `exp` stands for `power`: it is the same, or both are large.
spec fn stands_for(exp: int, power: int) -> bool {
    ||| exp == power
    ||| exp >= FAR && power >= FAR
    ||| exp <= -FAR && power <= -FAR
}

/// The place of the double nearest to a decimal number.
fn place_of(ds: &Vec<char>, exp: i128, Ghost(power): Ghost<int>) -> (k: u64)
    requires
        forall|i: int| 0 <= i < ds.len() ==> digit(#[trigger] ds@[i]),
        -0x100 * FAR <= exp <= 0x100 * FAR,
        stands_for(exp as int, power),
    ensures
        k == nearest(above_line(digits_value(ds@), power), below_line(power)),
        k <= TOP,
{
    let s = significant(ds);
    let ghost v = digits_value(ds@);
    let ghost n = above_line(v, power);
    let ghost d = below_line(power);
    let len: i128 = s.len() as i128;
    proof {
        lemma_digits_bounds(s@);
        lemma_limits();
        if power < 0 {
            lemma_ten_add((-power) as nat, 0);
        }
    }
    if s.len() == 0 {
        proof {
            assert(v == 0);
            assert(0 * ten(power as nat) == 0);
            assert(0 * two(1075) == 0);
            lemma_tiny(n, d);
        }
        return 0;
    }
    if len - 1 + exp >= 309 {
        proof {
            let q = two(1024);
            lemma_ten_grows(309, (len - 1 + power) as nat);
            let l = (len - 1) as nat;
            if power >= 0 {
                lemma_ten_add(l, power as nat);
                lemma_ten_add(power as nat, 0);
                let a = ten(l);
                let b = ten(power as nat);
                assert(v * b >= a * b) by (nonlinear_arith)
                    requires
                        v >= a,
                        b > 0,
                ;
                assert(l + power as nat == (len - 1 + power) as nat);
                assert(1 * q == q);
            } else {
                let m = (len - 1 + power) as nat;
                lemma_ten_add(m, (-power) as nat);
                assert(m + (-power) as nat == l);
                assert(ten(m) * d >= q * d) by (nonlinear_arith)
                    requires
                        ten(m) >= q,
                        d > 0,
                ;
                assert(q * d == d * q) by (nonlinear_arith);
            }
            lemma_huge(n, d);
        }
        return TOP;
    }
    if len + exp <= -327 {
        proof {
            let m = (-power - len) as nat;
            lemma_ten_grows(327, m);
            lemma_ten_add(len as nat, m);
            assert(len as nat + m == (-power) as nat);
            let p = two(1075);
            let a = ten(len as nat);
            let b = ten(m);
            assert(v * p < a * b) by (nonlinear_arith)
                requires
                    0 <= v < a,
                    0 < p <= b,
            ;
            lemma_tiny(n, d);
        }
        return 0;
    }
    assert(exp == power);
    let mut x = Big::small(0);
    let mut i: usize = 0;
    assert(s@.take(0) =~= Seq::empty());
    while i < s.len()
        invariant
            i <= s.len(),
            forall|i: int| 0 <= i < s.len() ==> digit(#[trigger] s@[i]),
            x.value() == digits_value(s@.take(i as int)),
        decreases s.len() - i,
    {
        assert(digit(s@[i as int]));
        let c: u64 = (s[i] as u32 - 48) as u64;
        x.scale(10, c);
        assert(s@.take(i + 1).drop_last() =~= s@.take(i as int));
        i += 1;
    }
    assert(s@.take(s@.len() as int) =~= s@);
    let mut d_big = Big::small(1);
    if exp >= 0 {
        x.raise(exp as u128);
    } else {
        d_big.raise((-exp) as u128);
        assert(1 * ten((-exp) as nat) == ten((-exp) as nat));
    }
    x.shift(1075);
    find_nearest(&x, &d_big, Ghost(n))
}

/// The exponent that stands behind an `e`.
fn read_exponent(v: &Vec<char>, from: usize) -> (r: Option<i128>)
    requires
        from <= v.len(),
    ensures
        match r {
            Some(x) => int_value(v@.skip(from as int)) matches Some(y) && (x == y || (x >= 4 * FAR
                && y >= 4 * FAR) || (x <= -4 * FAR && y <= -4 * FAR)) && -0x80 * FAR <= x <= 0x80
                * FAR,
            None => int_value(v@.skip(from as int)) is None,
        },
{
    let ghost rest = v@.skip(from as int);
    let mut i: usize = from;
    let mut negative = false;
    if i < v.len() && (v[i] == '-' || v[i] == '+') {
        assert(rest[0] == v@[i as int]);
        negative = v[i] == '-';
        i += 1;
    } else {
        assert(rest.len() > 0 ==> rest[0] == v@[i as int]);
    }
    let start: usize = i;
    let ghost ds = v@.skip(start as int);
    assert(start == from + 1 ==> ds =~= rest.skip(1));
    assert(start == from + 1 ==> !digit(rest[0]));
    assert(start == from + 1 ==> !all_digits(rest)) by {
        if start == from + 1 && all_digits(rest) {
            assert(digit(rest[0]));
        }
    }
    assert(start == from ==> ds =~= rest);
    assert(!all_digits(ds) ==> int_value(rest) is None);
    if start == v.len() {
        return None;
    }
    let mut size: u128 = 0;
    assert(ds.take(0) =~= Seq::empty());
    while i < v.len()
        invariant
            start <= i <= v.len(),
            ds == v@.skip(start as int),
            rest == v@.skip(from as int),
            !all_digits(ds) ==> int_value(rest) is None,
            forall|k: int| 0 <= k < i - start ==> digit(#[trigger] ds[k]),
            size < 0x80 * FAR,
            size == digits_value(ds.take(i - start)) || (size >= 4 * FAR && digits_value(
                ds.take(i - start),
            ) >= 4 * FAR),
        decreases v.len() - i,
    {
        let c = v[i];
        assert(ds[i - start] == c);
        if !('0' <= c && c <= '9') {
            assert(!all_digits(ds)) by {
                if all_digits(ds) {
                    assert(digit(ds[i - start]));
                }
            }
            return None;
        }
        assert(ds.take(i + 1 - start).drop_last() =~= ds.take(i - start));
        if size < 4 * FAR as u128 {
            size = size * 10 + (c as u32 - 48) as u128;
        }
        i += 1;
    }
    assert(ds.take(ds.len() as int) =~= ds);
    if negative {
        Some(-(size as i128))
    } else {
        Some(size as i128)
    }
}

/// The place of the double nearest to a decimal number without a sign.
fn read_decimal(v: &Vec<char>) -> (r: Option<u64>)
    ensures
        match r {
            Some(k) => decimal(v@) matches Some((ds, exp)) && k == nearest(
                above_line(digits_value(ds), exp),
                below_line(exp),
            ) && k <= TOP,
            None => decimal(v@) is None,
        },
{
    let mut e: usize = 0;
    while e < v.len() && v[e] != 'e' && v[e] != 'E'
        invariant
            e <= v.len(),
            exponent_mark(v@, 0) == exponent_mark(v@, e as int),
        decreases v.len() - e,
    {
        e += 1;
    }
    let ghost m = v@.take(e as int);
    let mut p: usize = 0;
    while p < e && v[p] != '.'
        invariant
            p <= e <= v.len(),
            m == v@.take(e as int),
            point_mark(m, 0) == point_mark(m, p as int),
        decreases e - p,
    {
        p += 1;
    }
    let mut ds: Vec<char> = Vec::new();
    let mut i: usize = 0;
    while i < p
        invariant
            i <= p <= e <= v.len(),
            m == v@.take(e as int),
            ds@ == m.take(i as int),
        decreases p - i,
    {
        ds.push(v[i]);
        i += 1;
    }
    let mut behind: usize = 0;
    if p < e {
        behind = e - p - 1;
        let mut i: usize = p + 1;
        while i < e
            invariant
                p + 1 <= i <= e <= v.len(),
                m == v@.take(e as int),
                ds@ == m.take(p as int) + m.subrange(p + 1, i as int),
            decreases e - i,
        {
            ds.push(v[i]);
            i += 1;
        }
        assert(m.subrange(p + 1, e as int) =~= m.skip(p + 1));
    } else {
        assert(m.take(p as int) =~= m);
    }
    if ds.len() == 0 {
        return None;
    }
    let mut i: usize = 0;
    while i < ds.len()
        invariant
            i <= ds.len(),
            forall|k: int| 0 <= k < i ==> digit(#[trigger] ds@[k]),
            !all_digits(ds@) ==> mantissa(m) is None,
            exponent_mark(v@, 0) == e,
            m == v@.take(e as int),
        decreases ds.len() - i,
    {
        if !('0' <= ds[i] && ds[i] <= '9') {
            assert(!all_digits(ds@)) by {
                if all_digits(ds@) {
                    assert(digit(ds@[i as int]));
                }
            }
            return None;
        }
        i += 1;
    }
    assert(all_digits(ds@));
    if e < v.len() {
        match read_exponent(v, e + 1) {
            Some(x) => {
                let ghost power = int_value(v@.skip(e + 1))->0 - behind;
                Some(place_of(&ds, x - behind as i128, Ghost(power)))
            },
            None => None,
        }
    } else {
        Some(place_of(&ds, -(behind as i128), Ghost(-(behind as int))))
    }
}

/// The double that a text is read as.
pub fn read_double(s: &str) -> (r: Option<Double>)
    ensures
        r == double_of(s@),
{
    let v = chars_of(s);
    let mut from: usize = 0;
    let mut negative = false;
    if v.len() > 0 && (v[0] == '-' || v[0] == '+') {
        negative = v[0] == '-';
        from = 1;
    }
    let body = text_of(&v, from, v.len());
    assert(body@ =~= unsigned_part(s@));
    let name = lower_all(body.as_str());
    if same(name.as_str(), "nan") {
        return Some(Double::Nan);
    }
    let k: u64 = if same(name.as_str(), "inf") || same(name.as_str(), "infinity") {
        TOP
    } else {
        match read_decimal(&chars_of(body.as_str())) {
            Some(k) => k,
            None => return None,
        }
    };
    if negative {
        Some(Double::Place(-(k as i64)))
    } else {
        Some(Double::Place(k as i64))
    }
}

// ---------------------------------------------------------------------------
// What numbers are read as
// ---------------------------------------------------------------------------

proof fn lemma_doubles_grow(j: int, k: int)
    requires
        0 <= j < k,
    ensures
        double_at(j) < double_at(k),
    decreases k - j,
{
    lemma_next_double(k - 1);
    if j < k - 1 {
        lemma_doubles_grow(j, k - 1);
    }
}

/// A number of at most 53 bits times a power of two has a place of its own.
proof fn lemma_has_place(s: int, e: nat, v: int) -> (k: int)
    requires
        1 <= s < 2 * BAND,
        e <= 2045,
        v == s * two(e),
    ensures
        0 < k < TOP,
        double_at(k) == v,
    decreases 2 * BAND - s,
{
    let b = BAND as int;
    if s >= b {
        let k = (e + 1) * b + (s - b);
        assert(k / b == e + 1 && k % b == s - b) by (nonlinear_arith)
            requires
                k == (e + 1) * b + (s - b),
                0 <= s - b < b,
                b == 0x10_0000_0000_0000,
        ;
        k
    } else if e == 0 {
        s
    } else {
        let h = two((e - 1) as nat);
        assert(two(e) == 2 * h);
        assert((2 * s) * h == s * (2 * h)) by (nonlinear_arith);
        lemma_has_place(2 * s, (e - 1) as nat, v)
    }
}

/// What a double is exactly is read as that double.
proof fn lemma_exact(n: int, k: int)
    requires
        0 <= k < TOP,
        double_at(k) == n * two(1074),
    ensures
        nearest(n, 1) == k,
{
    assert(two(1075) == 2 * two(1074));
    let t = two(1074);
    assert(n * (2 * t) == 2 * (n * t)) by (nonlinear_arith);
    lemma_next_double(k);
    if k > 0 {
        lemma_next_double(k - 1);
    }
    nearest_is_unique(n, 1, k);
}

/// Every whole number of at most two to the power of 53 is read exactly.
pub proof fn whole_numbers_are_read_exactly(n: int) -> (k: int)
    requires
        0 <= n <= 0x20_0000_0000_0000,
    ensures
        nearest(n, 1) == k,
        0 <= k < TOP,
        double_at(k) == n * two(1074),
{
    if n == 0 {
        assert(double_at(0) == 0 * two(0)) by {
            assert(significand(0) == 0 && exponent(0) == 0);
        }
        assert(0 * two(1074) == 0);
        lemma_exact(0, 0);
        0
    } else if n < 2 * BAND {
        let k = lemma_has_place(n, 1074, n * two(1074));
        lemma_exact(n, k);
        k
    } else {
        let t = two(1074);
        assert(two(1075) == 2 * t);
        let b = BAND as int;
        assert(n * t == b * (2 * t)) by (nonlinear_arith)
            requires
                n == 2 * b,
        ;
        let k = lemma_has_place(b, 1075, n * t);
        lemma_exact(n, k);
        k
    }
}

proof fn lemma_no_exponent(s: Seq<char>, i: int)
    requires
        0 <= i <= s.len(),
        forall|j: int| i <= j < s.len() ==> lower(#[trigger] s[j]) != 'e',
    ensures
        exponent_mark(s, i) == s.len(),
    decreases s.len() - i,
{
    if i < s.len() {
        lemma_no_exponent(s, i + 1);
    }
}

proof fn lemma_exponent_at(s: Seq<char>, i: int, k: int)
    requires
        0 <= i <= k < s.len(),
        forall|j: int| i <= j < k ==> lower(#[trigger] s[j]) != 'e',
        lower(s[k]) == 'e',
    ensures
        exponent_mark(s, i) == k,
    decreases k - i,
{
    if i < k {
        lemma_exponent_at(s, i + 1, k);
    }
}

proof fn lemma_point_at(s: Seq<char>, i: int, k: int)
    requires
        0 <= i <= k <= s.len(),
        forall|j: int| i <= j < k ==> #[trigger] s[j] != '.',
        k < s.len() ==> s[k] == '.',
    ensures
        point_mark(s, i) == k,
    decreases k - i,
{
    if i < k {
        lemma_point_at(s, i + 1, k);
    }
}

/// A body that begins with a digit is none of the names.
proof fn lemma_is_no_name(s: Seq<char>)
    requires
        s.len() > 0,
        digit(s[0]),
    ensures
        lowered(s) != "nan"@,
        lowered(s) != "inf"@,
        lowered(s) != "infinity"@,
        unsigned_part(s) == s,
{
    reveal_strlit("nan");
    reveal_strlit("inf");
    reveal_strlit("infinity");
    assert(lowered(s)[0] == lower(s[0]));
    assert("nan"@[0] == 'n' && "inf"@[0] == 'i' && "infinity"@[0] == 'i');
}

proof fn lemma_digits_read(ds: Seq<char>)
    requires
        all_digits(ds),
    ensures
        decimal(ds) == Some((ds, 0int)),
{
    assert forall|j: int| 0 <= j < ds.len() implies lower(#[trigger] ds[j]) != 'e' && ds[j]
        != '.' by {
        assert(digit(ds[j]));
    }
    lemma_no_exponent(ds, 0);
    assert(ds.take(ds.len() as int) =~= ds);
    lemma_point_at(ds, 0, ds.len() as int);
}

/// Digits are read as the double nearest to the number that they write; behind
/// a minus as its negative.
pub proof fn digits_are_read(ds: Seq<char>)
    requires
        all_digits(ds),
    ensures
        double_of(ds) == Some(signed(false, nearest(digits_value(ds), 1))),
        double_of(seq!['-'] + ds) == Some(signed(true, nearest(digits_value(ds), 1))),
{
    assert(digit(ds[0]));
    lemma_is_no_name(ds);
    lemma_digits_read(ds);
    assert(ten(0) == 1);
    let m = seq!['-'] + ds;
    assert(m.skip(1) =~= ds);
    assert(m[0] == '-');
}

/// Digits around a point are read as the double nearest to what they write:
/// the number without the point, as many tenths down as digits stand behind
/// the point.
pub proof fn points_are_read(a: Seq<char>, b: Seq<char>)
    requires
        all_digits(a),
        all_digits(b),
    ensures
        double_of(a + (seq!['.'] + b)) == Some(
            signed(false, nearest(digits_value(a + b), ten(b.len()))),
        ),
{
    let s = a + (seq!['.'] + b);
    let n = a.len() as int;
    assert(digit(a[0]));
    assert(s[0] == a[0]);
    lemma_is_no_name(s);
    assert forall|j: int| 0 <= j < s.len() implies lower(#[trigger] s[j]) != 'e' && (j != n ==> s[j]
        != '.') by {
        if j < n {
            assert(s[j] == a[j]);
            assert(digit(a[j]));
        } else if j > n {
            assert(s[j] == b[j - n - 1]);
            assert(digit(b[j - n - 1]));
        }
    }
    lemma_no_exponent(s, 0);
    assert(s.take(s.len() as int) =~= s);
    assert(s[n] == '.');
    lemma_point_at(s, 0, n);
    assert(s.take(n) + s.skip(n + 1) =~= a + b);
    assert(all_digits(a + b)) by {
        assert forall|i: int| 0 <= i < (a + b).len() implies digit(#[trigger] (a + b)[i]) by {
            if i < n {
                assert((a + b)[i] == a[i]);
            } else {
                assert((a + b)[i] == b[i - n]);
            }
        }
    }
}

/// A power of ten behind an `e` takes the number up, or down where it is
/// negative.
pub proof fn exponents_are_read(ds: Seq<char>, x: int)
    requires
        all_digits(ds),
    ensures
        double_of(ds + (seq!['e'] + int_text(x))) == Some(
            signed(
                false,
                if x >= 0 {
                    nearest(digits_value(ds) * ten(x as nat), 1)
                } else {
                    nearest(digits_value(ds), ten((-x) as nat))
                },
            ),
        ),
{
    let s = ds + (seq!['e'] + int_text(x));
    let n = ds.len() as int;
    assert(digit(ds[0]));
    assert(s[0] == ds[0]);
    lemma_is_no_name(s);
    assert forall|j: int| 0 <= j < n implies lower(#[trigger] s[j]) != 'e' by {
        assert(s[j] == ds[j]);
        assert(digit(ds[j]));
    }
    assert(s[n] == 'e');
    lemma_exponent_at(s, 0, n);
    assert(s.take(n) =~= ds);
    assert(s.skip(n + 1) =~= int_text(x));
    assert forall|j: int| 0 <= j < n implies #[trigger] ds[j] != '.' by {
        assert(digit(ds[j]));
    }
    lemma_point_at(ds, 0, n);
    int_text_reads_back(x);
}

/// Whole numbers of at most 53 bits are read in their order: as the same
/// double where they are the same, and else as one before the other.
pub proof fn whole_numbers_are_read_in_order(m: int, n: int)
    requires
        -0x20_0000_0000_0000 <= m <= 0x20_0000_0000_0000,
        -0x20_0000_0000_0000 <= n <= 0x20_0000_0000_0000,
    ensures
        double_of(int_text(m)) matches Some(Double::Place(x)) && double_of(int_text(n)) matches Some(
            Double::Place(y),
        ) && (x < y <==> m < n) && (x == y <==> m == n),
{
    let a = if m < 0 {
        -m
    } else {
        m
    };
    let b = if n < 0 {
        -n
    } else {
        n
    };
    let j = whole_numbers_are_read_exactly(a);
    let k = whole_numbers_are_read_exactly(b);
    lemma_nat_text(a);
    lemma_nat_text(b);
    digits_are_read(nat_text(a));
    digits_are_read(nat_text(b));
    lemma_two_add(1074, 0);
    let t = two(1074);
    if a < b {
        assert(a * t < b * t) by (nonlinear_arith)
            requires
                a < b,
                t > 0,
        ;
        if k < j {
            lemma_doubles_grow(k, j);
        }
    } else if b < a {
        assert(b * t < a * t) by (nonlinear_arith)
            requires
                b < a,
                t > 0,
        ;
        if j < k {
            lemma_doubles_grow(j, k);
        }
    }
    if a > 0 {
        assert(a * t > 0) by (nonlinear_arith)
            requires
                a > 0,
                t > 0,
        ;
        assert(double_at(0) == 0 * two(0));
    }
    if b > 0 {
        assert(b * t > 0) by (nonlinear_arith)
            requires
                b > 0,
                t > 0,
        ;
        assert(double_at(0) == 0 * two(0));
    }
}

} // verus!

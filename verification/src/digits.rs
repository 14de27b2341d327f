//! Decimal digits of an unsigned integer, most significant first.
//!
//! The number of digits is estimated from the bit length of the number
//! (`log10(2) ~ 1233 / 4096`), which gives the largest power of ten that does
//! not exceed it; the digits are then peeled off from the top.
use vstd::prelude::*;
use vstd::arithmetic::power::pow;
use vstd::std_specs::bits::u64_leading_zeros;

verus! {

/// `2^k`.
pub open spec fn exp2(k: nat) -> nat
    decreases k,
{
    if k == 0 {
        1
    } else {
        2 * exp2((k - 1) as nat)
    }
}

/// `10^k`.
pub open spec fn exp10(k: nat) -> nat
    decreases k,
{
    if k == 0 {
        1
    } else {
        10 * exp10((k - 1) as nat)
    }
}

/// The decimal digits of `n`, most significant first. Zero has no digits.
pub open spec fn decimal_digits(n: nat) -> Seq<u64>
    decreases n,
{
    if n == 0 {
        seq![]
    } else {
        decimal_digits(n / 10).push((n % 10) as u64)
    }
}

/// The number that a sequence of decimal digits, most significant first, denotes.
pub open spec fn decimal_value(s: Seq<u64>) -> nat
    decreases s.len(),
{
    if s.len() == 0 {
        0
    } else {
        decimal_value(s.drop_last()) * 10 + s.last() as nat
    }
}

/// Every element is a decimal digit and the first one, if any, is not zero.
pub open spec fn canonical_digits(s: Seq<u64>) -> bool {
    &&& forall|i: int| 0 <= i < s.len() ==> #[trigger] s[i] < 10
    &&& s.len() > 0 ==> s[0] > 0
}

/// `u64::pow` raises `self` to the power `exp`. The standard library documents that the
/// computation overflows (and panics when overflow checks are on) when the power does
/// not fit in a `u64`; `requires` leaves those arguments out.
pub assume_specification[ u64::pow ](base: u64, exp: u32) -> (r: u64)
    requires
        pow(base as int, exp as nat) <= u64::MAX,
    ensures
        r as int == pow(base as int, exp as nat),
;

proof fn lemma_pow10_is_exp10(k: nat)
    ensures
        pow(10, k) == exp10(k),
    decreases k,
{
    reveal(pow);
    if k > 0 {
        lemma_pow10_is_exp10((k - 1) as nat);
    }
}

proof fn lemma_exp2_monotone(a: nat, b: nat)
    requires
        a <= b,
    ensures
        exp2(a) <= exp2(b),
    decreases b,
{
    if a < b {
        lemma_exp2_monotone(a, (b - 1) as nat);
    }
}

proof fn lemma_exp10_monotone(a: nat, b: nat)
    requires
        a <= b,
    ensures
        exp10(a) <= exp10(b),
    decreases b,
{
    if a < b {
        lemma_exp10_monotone(a, (b - 1) as nat);
    }
}

proof fn lemma_exp10_positive(k: nat)
    ensures
        exp10(k) >= 1,
    decreases k,
{
    if k > 0 {
        lemma_exp10_positive((k - 1) as nat);
    }
}

proof fn lemma_exp10_values()
    ensures
        exp10(0) == 1,
        exp10(1) == 10,
        exp10(2) == 100,
        exp10(3) == 1000,
        exp10(4) == 10000,
        exp10(5) == 100000,
        exp10(6) == 1000000,
        exp10(7) == 10000000,
        exp10(8) == 100000000,
        exp10(9) == 1000000000,
        exp10(10) == 10000000000,
        exp10(11) == 100000000000,
        exp10(12) == 1000000000000,
        exp10(13) == 10000000000000,
        exp10(14) == 100000000000000,
        exp10(15) == 1000000000000000,
        exp10(16) == 10000000000000000,
        exp10(17) == 100000000000000000,
        exp10(18) == 1000000000000000000,
        exp10(19) == 10000000000000000000,
        exp10(20) == 100000000000000000000,
{
    reveal_with_fuel(exp10, 21);

}

proof fn lemma_exp2_low_values()
    ensures
        exp2(0) == 0x1,
        exp2(1) == 0x2,
        exp2(2) == 0x4,
        exp2(3) == 0x8,
        exp2(4) == 0x10,
        exp2(5) == 0x20,
        exp2(6) == 0x40,
        exp2(7) == 0x80,
        exp2(8) == 0x100,
        exp2(9) == 0x200,
        exp2(10) == 0x400,
        exp2(11) == 0x800,
        exp2(12) == 0x1000,
        exp2(13) == 0x2000,
        exp2(14) == 0x4000,
        exp2(15) == 0x8000,
        exp2(16) == 0x1_0000,
        exp2(17) == 0x2_0000,
        exp2(18) == 0x4_0000,
        exp2(19) == 0x8_0000,
        exp2(20) == 0x10_0000,
        exp2(21) == 0x20_0000,
        exp2(22) == 0x40_0000,
        exp2(23) == 0x80_0000,
        exp2(24) == 0x100_0000,
        exp2(25) == 0x200_0000,
        exp2(26) == 0x400_0000,
        exp2(27) == 0x800_0000,
        exp2(28) == 0x1000_0000,
        exp2(29) == 0x2000_0000,
        exp2(30) == 0x4000_0000,
        exp2(31) == 0x8000_0000,
        exp2(32) == 0x1_0000_0000,
{
    reveal_with_fuel(exp2, 33);
}

/// `2^(k + 32) == 2^32 * 2^k`.
proof fn lemma_exp2_shift(k: nat)
    ensures
        exp2(k + 32) == 0x1_0000_0000 * exp2(k),
    decreases k,
{
    if k == 0 {
        lemma_exp2_low_values();
    } else {
        lemma_exp2_shift((k - 1) as nat);
    }
}

proof fn lemma_exp2_values()
    ensures
        exp2(0) == 0x1,
        exp2(1) == 0x2,
        exp2(2) == 0x4,
        exp2(4) == 0x10,
        exp2(5) == 0x20,
        exp2(7) == 0x80,
        exp2(8) == 0x100,
        exp2(11) == 0x800,
        exp2(12) == 0x1000,
        exp2(14) == 0x4000,
        exp2(15) == 0x8000,
        exp2(17) == 0x2_0000,
        exp2(18) == 0x4_0000,
        exp2(21) == 0x20_0000,
        exp2(22) == 0x40_0000,
        exp2(24) == 0x100_0000,
        exp2(25) == 0x200_0000,
        exp2(27) == 0x800_0000,
        exp2(28) == 0x1000_0000,
        exp2(31) == 0x8000_0000,
        exp2(32) == 0x1_0000_0000,
        exp2(34) == 0x4_0000_0000,
        exp2(35) == 0x8_0000_0000,
        exp2(37) == 0x20_0000_0000,
        exp2(38) == 0x40_0000_0000,
        exp2(41) == 0x200_0000_0000,
        exp2(42) == 0x400_0000_0000,
        exp2(44) == 0x1000_0000_0000,
        exp2(45) == 0x2000_0000_0000,
        exp2(47) == 0x8000_0000_0000,
        exp2(48) == 0x1_0000_0000_0000,
        exp2(51) == 0x8_0000_0000_0000,
        exp2(52) == 0x10_0000_0000_0000,
        exp2(54) == 0x40_0000_0000_0000,
        exp2(55) == 0x80_0000_0000_0000,
        exp2(57) == 0x200_0000_0000_0000,
        exp2(58) == 0x400_0000_0000_0000,
        exp2(61) == 0x2000_0000_0000_0000,
        exp2(62) == 0x4000_0000_0000_0000,
        exp2(64) == 0x1_0000_0000_0000_0000,
{
    lemma_exp2_low_values();
    lemma_exp2_shift(2);
    lemma_exp2_shift(3);
    lemma_exp2_shift(5);
    lemma_exp2_shift(6);
    lemma_exp2_shift(9);
    lemma_exp2_shift(10);
    lemma_exp2_shift(12);
    lemma_exp2_shift(13);
    lemma_exp2_shift(15);
    lemma_exp2_shift(16);
    lemma_exp2_shift(19);
    lemma_exp2_shift(20);
    lemma_exp2_shift(22);
    lemma_exp2_shift(23);
    lemma_exp2_shift(25);
    lemma_exp2_shift(26);
    lemma_exp2_shift(29);
    lemma_exp2_shift(30);
    lemma_exp2_shift(32);
}

/// For a positive `n` with `lz` leading zero bits, `2^(63 - lz) <= n < 2^(64 - lz)`.
proof fn lemma_bit_length(n: u64)
    requires
        n > 0,
    ensures
        0 <= u64_leading_zeros(n) < 64,
        exp2((63 - u64_leading_zeros(n)) as nat) <= n < exp2((64 - u64_leading_zeros(n)) as nat),
    decreases n,
{
    reveal(u64_leading_zeros);
    if n == 1 {
        assert(u64_leading_zeros(0) == 64);
        assert(u64_leading_zeros(1) == 63);
    } else {
        let h = (n / 2) as u64;
        lemma_bit_length(h);
        assert(u64_leading_zeros(n) == u64_leading_zeros(h) - 1);
        let e = (63 - u64_leading_zeros(h)) as nat;
        assert(exp2(e + 1) == 2 * exp2(e));
        assert(exp2(e + 2) == 2 * exp2(e + 1));
    }
}

proof fn lemma_estimate_range(b: nat, lo: nat, hi: nat, t: nat)
    requires
        1 <= lo <= b <= hi,
        t == ((b + 1) * 1233) / 4096,
        t == 0 || exp10((t - 1) as nat) <= exp2((lo - 1) as nat),
        exp2(hi) <= exp10(t + 1),
    ensures
        t == 0 || exp10((t - 1) as nat) <= exp2((b - 1) as nat),
        exp2(b) <= exp10(t + 1),
{
    lemma_exp2_monotone((lo - 1) as nat, (b - 1) as nat);
    lemma_exp2_monotone(b, hi);
}

/// The estimate `((b + 1) * 1233) / 4096` of the number of decimal digits of a number of
/// bit length `b`, less one, is never too small and at most one too large.
proof fn lemma_estimate(b: nat)
    requires
        1 <= b <= 64,
    ensures
        ({
            let t = ((b + 1) * 1233) / 4096;
            &&& t <= 19
            &&& t == 0 || exp10((t - 1) as nat) <= exp2((b - 1) as nat)
            &&& exp2(b) <= exp10(t + 1)
        }),
{
    lemma_exp10_values();
    lemma_exp2_values();
    let t = ((b + 1) * 1233) / 4096;
    if b <= 2 {
        lemma_estimate_range(b, 1, 2, t);
    } else if b <= 5 {
        lemma_estimate_range(b, 3, 5, t);
    } else if b <= 8 {
        lemma_estimate_range(b, 6, 8, t);
    } else if b <= 12 {
        lemma_estimate_range(b, 9, 12, t);
    } else if b <= 15 {
        lemma_estimate_range(b, 13, 15, t);
    } else if b <= 18 {
        lemma_estimate_range(b, 16, 18, t);
    } else if b <= 22 {
        lemma_estimate_range(b, 19, 22, t);
    } else if b <= 25 {
        lemma_estimate_range(b, 23, 25, t);
    } else if b <= 28 {
        lemma_estimate_range(b, 26, 28, t);
    } else if b <= 32 {
        lemma_estimate_range(b, 29, 32, t);
    } else if b <= 35 {
        lemma_estimate_range(b, 33, 35, t);
    } else if b <= 38 {
        lemma_estimate_range(b, 36, 38, t);
    } else if b <= 42 {
        lemma_estimate_range(b, 39, 42, t);
    } else if b <= 45 {
        lemma_estimate_range(b, 43, 45, t);
    } else if b <= 48 {
        lemma_estimate_range(b, 46, 48, t);
    } else if b <= 52 {
        lemma_estimate_range(b, 49, 52, t);
    } else if b <= 55 {
        lemma_estimate_range(b, 53, 55, t);
    } else if b <= 58 {
        lemma_estimate_range(b, 56, 58, t);
    } else if b <= 62 {
        lemma_estimate_range(b, 59, 62, t);
    } else {
        lemma_estimate_range(b, 63, 64, t);
    }
}

proof fn lemma_canonical_positive(s: Seq<u64>)
    requires
        canonical_digits(s),
        s.len() > 0,
    ensures
        decimal_value(s) >= 1,
    decreases s.len(),
{
    if s.len() > 1 {
        let init = s.drop_last();
        assert(init[0] == s[0]);
        assert forall|i: int| 0 <= i < init.len() implies #[trigger] init[i] < 10 by {
            assert(init[i] == s[i]);
        }
        lemma_canonical_positive(init);
    }
}

/// A number has exactly one canonical decimal representation: the digits that
/// `decimal_digits` gives.
pub proof fn lemma_canonical_digits_unique(s: Seq<u64>)
    requires
        canonical_digits(s),
    ensures
        s == decimal_digits(decimal_value(s)),
    decreases s.len(),
{
    if s.len() > 0 {
        let init = s.drop_last();
        let x = s.last();
        let n = decimal_value(s);
        assert(x == s[s.len() - 1]);
        assert(x < 10);
        assert(n == decimal_value(init) * 10 + x);
        assert(n / 10 == decimal_value(init));
        assert(n % 10 == x);
        if init.len() > 0 {
            assert(init[0] == s[0]);
            assert forall|i: int| 0 <= i < init.len() implies #[trigger] init[i] < 10 by {
                assert(init[i] == s[i]);
            }
            lemma_canonical_positive(init);
            lemma_canonical_digits_unique(init);
        } else {
            assert(x == s[0]);
        }
        assert(n > 0);
        assert(decimal_digits(n) == decimal_digits(n / 10).push((n % 10) as u64));
        assert(s == init.push(x));
    }
}

/// Digits denote less than the next power of ten above their count.
pub proof fn lemma_digits_upper_bound(s: Seq<u64>)
    requires
        forall|i: int| 0 <= i < s.len() ==> #[trigger] s[i] < 10,
    ensures
        decimal_value(s) < exp10(s.len()),
    decreases s.len(),
{
    if s.len() > 0 {
        let init = s.drop_last();
        assert forall|i: int| 0 <= i < init.len() implies #[trigger] init[i] < 10 by {
            assert(init[i] == s[i]);
        }
        lemma_digits_upper_bound(init);
        assert(s.last() == s[s.len() - 1]);
    }
}

/// A number `n` with `10^k <= n < 10^(k + 1)` has `k + 1` digits.
pub proof fn lemma_digit_count(n: nat, k: nat)
    requires
        exp10(k) <= n < exp10(k + 1),
    ensures
        decimal_digits(n).len() == k + 1,
{
    let s = decimal_digits(n);
    lemma_digit_count_bound(n, k + 1);
    lemma_decimal_digits_canonical(n);
    lemma_digits_upper_bound(s);
    if s.len() < k + 1 {
        lemma_exp10_monotone(s.len(), k);
    }
}

/// The digit of `n` at index `i`, most significant first, is `(n / 10^(L - 1 - i)) % 10`
/// where `L` is the number of digits of `n`.
pub proof fn lemma_digit_at(n: nat, i: int)
    requires
        0 <= i < decimal_digits(n).len(),
    ensures
        decimal_digits(n)[i] == (n / exp10((decimal_digits(n).len() - 1 - i) as nat)) % 10,
    decreases n,
{
    let s = decimal_digits(n);
    let init = decimal_digits(n / 10);
    assert(n > 0);
    assert(s == init.push((n % 10) as u64));
    if i < init.len() {
        lemma_digit_at(n / 10, i);
        let k = (init.len() - 1 - i) as nat;
        assert(s[i] == init[i]);
        lemma_exp10_positive(k);
        vstd::arithmetic::div_mod::lemma_div_denominator(n as int, 10, exp10(k) as int);
        assert(exp10(k + 1) == 10 * exp10(k));
        assert((s.len() - 1 - i) as nat == k + 1);
        assert((n / 10) / exp10(k) == n / exp10(k + 1));
        assert(init[i] == ((n / 10) / exp10(k)) % 10);
    } else {
        assert(i == s.len() - 1);
        assert(exp10(0) == 1);
        assert(n / exp10(0) == n);
        assert(s[i] == n % 10);
    }
}

/// Taking the remainder by `10 * p` and then dividing by `p` gives the decimal digit of
/// place value `p`; taking the remainder by `p` afterwards keeps the lower digits.
proof fn lemma_split_place(n: nat, p: nat)
    requires
        p > 0,
    ensures
        (n % (10 * p)) / p == (n / p) % 10,
        (n % (10 * p)) % p == n % p,
{
    vstd::arithmetic::div_mod::lemma_breakdown(n as int, p as int, 10);
    assert(p * 10 == 10 * p);
    let q = (n / p) % 10;
    let r = n % p;
    assert(n % (10 * p) == q * p + r) by (nonlinear_arith)
        requires
            n % (p * 10) == p * q + r,
            p * 10 == 10 * p,
    ;
    vstd::arithmetic::div_mod::lemma_fundamental_div_mod_converse(
        (n % (10 * p)) as int,
        p as int,
        q as int,
        r as int,
    );
}

/// The digits of a number that are still to be produced, most significant first.
///
/// `digits_iterator` sets it up; each call of `next_digit` produces one digit. It holds
/// the part of the number that has not been produced yet and the place value of the next
/// digit, which is zero once all digits are out.
pub struct Digits {
    rest: u64,
    splitter: u64,
    count: usize,
    number: Ghost<nat>,
    produced: Ghost<nat>,
}

impl Digits {
    /// The number whose digits are produced.
    pub closed spec fn number(&self) -> nat {
        self.number@
    }

    /// The digits still to come.
    pub closed spec fn remaining(&self) -> Seq<u64> {
        decimal_digits(self.number@).skip(self.produced@ as int)
    }

    /// The state matches the digits produced so far.
    pub closed spec fn wf(&self) -> bool {
        let total = decimal_digits(self.number@).len();
        &&& self.produced@ <= total
        &&& total <= 20
        &&& self.count == total - self.produced@
        &&& self.produced@ < total ==> {
            &&& self.splitter == exp10((total - 1 - self.produced@) as nat)
            &&& self.rest == self.number@ % exp10((total - self.produced@) as nat)
        }
        &&& self.produced@ == total ==> self.splitter == 0
    }

    /// How many digits are still to come.
    pub fn len(&self) -> (count: usize)
        requires
            self.wf(),
        ensures
            count == self.remaining().len(),
    {
        self.count
    }

    /// The next digit, or `None` once all digits have been produced.
    pub fn next_digit(&mut self) -> (digit: Option<u64>)
        requires
            old(self).wf(),
        ensures
            final(self).wf(),
            final(self).number() == old(self).number(),
            old(self).remaining().len() == 0 ==> digit is None && final(self).remaining()
                == old(self).remaining(),
            old(self).remaining().len() > 0 ==> digit == Some(old(self).remaining()[0])
                && final(self).remaining() == old(self).remaining().drop_first(),
    {
        let ghost s = decimal_digits(self.number@);
        let ghost total = s.len();
        let ghost i = self.produced@;
        if self.splitter > 0 {
            proof {
                if i == total {
                    assert(false);
                }
                let p = exp10((total - 1 - i) as nat);
                lemma_exp10_positive((total - 1 - i) as nat);
                assert(exp10((total - i) as nat) == 10 * p);
                lemma_split_place(self.number@, p);
                lemma_digit_at(self.number@, i as int);
                if i + 1 < total {
                    assert(p == 10 * exp10((total - 2 - i) as nat));
                }
            }
            let digit = self.rest / self.splitter;
            self.rest = self.rest % self.splitter;
            self.splitter = self.splitter / 10;
            self.count = self.count - 1;
            self.produced = Ghost(i + 1);
            proof {
                assert(s.skip(i as int)[0] == s[i as int]);
                assert(s.skip((i + 1) as int) =~= s.skip(i as int).drop_first());
            }
            Some(digit)
        } else {
            proof {
                if i < total {
                    lemma_exp10_positive((total - 1 - i) as nat);
                }
            }
            None
        }
    }
}

/// The decimal digits of `n`, most significant first; zero has none.
///
/// The number of digits is estimated from the bit length of `n`, which gives the largest
/// power of ten not above `n`; the digits are then produced one by one, on demand.
pub fn digits_iterator(n: u64) -> (digits: Digits)
    ensures
        digits.wf(),
        digits.number() == n,
        digits.remaining() == decimal_digits(n as nat),
        digits.remaining().len() <= 20,
{
    let ghost number = n as nat;
    let log2: u32 = u64::BITS - n.leading_zeros();
    let ghost b = log2 as nat;
    proof {
        if n > 0 {
            lemma_bit_length(n);
            lemma_estimate(b);
        } else {
            reveal(u64_leading_zeros);
        }
    }
    let scaled: u32 = (log2 + 1) * 1233;
    assert(scaled >> 12u32 == scaled / 4096) by (bit_vector);
    let log10: u32 = scaled >> 12;
    proof {
        lemma_pow10_is_exp10(log10 as nat);
        lemma_exp10_values();
        lemma_exp10_monotone(log10 as nat, 19);
    }
    let mut splitter: u64 = 10_u64.pow(log10);
    let mut count: usize = (log10 + 1) as usize;

    if n < splitter {
        splitter /= 10;
        count = log10 as usize;
    }
    proof {
        lemma_exp10_values();
        lemma_digit_count_bound(number, 20);
        assert(decimal_digits(0) =~= Seq::<u64>::empty());
        if n > 0 {
            let k = (count - 1) as nat;
            assert(exp10(k + 1) == 10 * exp10(k));
            assert(exp10(k) <= n < exp10(k + 1));
            lemma_digit_count(number, k);
            vstd::arithmetic::div_mod::lemma_small_mod(number, exp10(k + 1));
        }
        assert(decimal_digits(number).skip(0) =~= decimal_digits(number));
    }
    Digits { rest: n, splitter, count, number: Ghost(number), produced: Ghost(0) }
}

/// `k` zero digits.
pub open spec fn zero_digits(k: nat) -> Seq<u64> {
    Seq::new(k, |i: int| 0u64)
}

/// Leading zeros do not change the number that digits denote.
pub proof fn lemma_leading_zeros_value(k: nat, s: Seq<u64>)
    ensures
        decimal_value(zero_digits(k) + s) == decimal_value(s),
    decreases s.len(), k,
{
    if s.len() == 0 {
        assert(zero_digits(k) + s == zero_digits(k));
        if k > 0 {
            assert(zero_digits(k).drop_last() == zero_digits((k - 1) as nat));
            lemma_leading_zeros_value((k - 1) as nat, s);
            assert(zero_digits((k - 1) as nat) + s == zero_digits((k - 1) as nat));
        }
    } else {
        let t = zero_digits(k) + s;
        assert(t.drop_last() == zero_digits(k) + s.drop_last());
        assert(t.last() == s.last());
        lemma_leading_zeros_value(k, s.drop_last());
    }
}

/// A canonical sequence of `m > 0` digits denotes at least `10^(m - 1)`.
pub proof fn lemma_canonical_lower_bound(s: Seq<u64>)
    requires
        canonical_digits(s),
        s.len() > 0,
    ensures
        decimal_value(s) >= exp10((s.len() - 1) as nat),
    decreases s.len(),
{
    if s.len() > 1 {
        let init = s.drop_last();
        assert(init[0] == s[0]);
        assert forall|i: int| 0 <= i < init.len() implies #[trigger] init[i] < 10 by {
            assert(init[i] == s[i]);
        }
        lemma_canonical_lower_bound(init);
    } else {
        assert(s.drop_last().len() == 0);
        assert(s.last() == s[0]);
    }
}

/// The canonical digits of a number below `10^w` are at most `w` many.
pub proof fn lemma_digit_count_bound(n: nat, w: nat)
    requires
        n < exp10(w),
    ensures
        decimal_digits(n).len() <= w,
{
    let s = decimal_digits(n);
    lemma_decimal_digits_canonical(n);
    if s.len() > w {
        lemma_canonical_lower_bound(s);
        lemma_exp10_monotone(w, (s.len() - 1) as nat);
    }
}

/// `decimal_digits(n)` is canonical and denotes `n`.
pub proof fn lemma_decimal_digits_canonical(n: nat)
    ensures
        canonical_digits(decimal_digits(n)),
        decimal_value(decimal_digits(n)) == n,
    decreases n,
{
    if n > 0 {
        lemma_decimal_digits_canonical(n / 10);
        let init = decimal_digits(n / 10);
        let s = decimal_digits(n);
        assert(s == init.push((n % 10) as u64));
        assert(s.drop_last() == init);
        assert forall|i: int| 0 <= i < s.len() implies #[trigger] s[i] < 10 by {
            if i < init.len() {
                assert(s[i] == init[i]);
            }
        }
        if init.len() > 0 {
            assert(s[0] == init[0]);
        } else {
            assert(n / 10 == 0);
        }
    }
}

} // verus!

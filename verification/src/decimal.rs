//! The exact decimal number that tokens and expression trees carry.
//!
//! A [`Decimal`] holds, as plain integers, the parts of a
//! `rust_decimal::Decimal`: a 96-bit magnitude in three limbs, a sign and a
//! scale.  Its value is `magnitude / 10^scale`, negated where `negative` is set.
//! The arithmetic itself is done by `rust_decimal`.  The functions that call it
//! are trusted: Verus takes their contracts for granted.  Each contract gives
//! the result a name, and adds only what the source of `rust_decimal` shows
//! at a glance.
//!
//! Each of them builds its operands with `from_parts`, which panics on a scale
//! above [`MAX_SCALE`] and clears the sign of a zero; `set_sign_negative` then
//! puts the sign back, so that `-0` reaches the arithmetic as `-0`.  The result
//! is taken apart with `unpack`.

use rust_decimal::MathematicalOps;
use std::str::FromStr;
use vstd::prelude::*;
use vstd::std_specs::cmp::PartialEqSpecImpl;

verus! {

/// The largest scale a decimal can have.
pub const MAX_SCALE: u32 = 28;

/// The largest magnitude a decimal can have: `2^96 - 1`.
pub const MAX_MAGNITUDE: u128 = 0xffff_ffff_ffff_ffff_ffff_ffff;

/// The longest literal whose digits are known to be taken over exactly.
pub const EXACT_LITERAL_LEN: usize = 17;

/// A decimal number: `magnitude() / 10^scale`, with a sign.
///
/// In contracts `==` compares the parts.  In executable code `==` compares the
/// numbers: `1.0 == 1.00` and `0 == -0` hold there, see [`Decimal::same_value`].
#[derive(Clone, Copy, Debug)]
pub struct Decimal {
    pub negative: bool,
    pub scale: u32,
    pub hi: u32,
    pub mid: u32,
    pub lo: u32,
}

/// The power `10^n`.
pub open spec fn pow10(n: nat) -> nat
    decreases n,
{
    if n == 0 {
        1
    } else {
        10 * pow10((n - 1) as nat)
    }
}

/// Whether `c` is one of the digits `0` to `9`.
pub open spec fn is_digit(c: char) -> bool {
    '0' <= c <= '9'
}

/// The number that a digit stands for.
pub open spec fn digit_value(c: char) -> nat {
    (c as nat - '0' as nat) as nat
}

/// Whether `text` is a number as it is written in an expression: a digit,
/// then digits and at most one decimal point.
pub open spec fn is_literal(text: Seq<char>) -> bool {
    &&& text.len() > 0
    &&& is_digit(text[0])
    &&& forall|i: int| 0 <= i < text.len() ==> is_digit(#[trigger] text[i]) || text[i] == '.'
    &&& forall|i: int, j: int|
        0 <= i < j < text.len() ==> !(#[trigger] text[i] == '.' && #[trigger] text[j] == '.')
}

/// The integer that the digits of `text` spell when the decimal point is left out.
pub open spec fn digits_value(text: Seq<char>) -> nat
    decreases text.len(),
{
    if text.len() == 0 {
        0
    } else if text.last() == '.' {
        digits_value(text.drop_last())
    } else {
        digits_value(text.drop_last()) * 10 + digit_value(text.last())
    }
}

/// The number of characters that follow the first decimal point of `text`.
pub open spec fn fraction_digits(text: Seq<char>) -> nat
    decreases text.len(),
{
    if text.len() == 0 {
        0
    } else if text[0] == '.' {
        (text.len() - 1) as nat
    } else {
        fraction_digits(text.drop_first())
    }
}

impl Decimal {
    /// A decimal is well formed when its scale is at most [`MAX_SCALE`].
    pub open spec fn wf(self) -> bool {
        self.scale <= MAX_SCALE
    }

    /// The 96-bit integer made of the three limbs.
    pub open spec fn magnitude(self) -> nat {
        self.lo as nat + self.mid as nat * 0x1_0000_0000 + self.hi as nat
            * 0x1_0000_0000_0000_0000
    }

    /// The magnitude with the sign applied.
    pub open spec fn mantissa(self) -> int {
        if self.negative {
            -(self.magnitude() as int)
        } else {
            self.magnitude() as int
        }
    }

    /// Whether two decimals stand for the same number: `m1 / 10^s1 == m2 / 10^s2`,
    /// with the fractions cleared.
    pub open spec fn same_value(self, other: Decimal) -> bool {
        self.mantissa() * pow10(other.scale as nat) == other.mantissa() * pow10(self.scale as nat)
    }

    /// The non-negative decimal with the given magnitude and scale.
    pub open spec fn from_magnitude(magnitude: nat, scale: nat) -> Decimal {
        Decimal {
            negative: false,
            scale: scale as u32,
            hi: (magnitude / 0x1_0000_0000_0000_0000) as u32,
            mid: ((magnitude / 0x1_0000_0000) % 0x1_0000_0000) as u32,
            lo: (magnitude % 0x1_0000_0000) as u32,
        }
    }

    /// The same magnitude and scale with the opposite sign.
    pub open spec fn negated(self) -> Decimal {
        Decimal { negative: !self.negative, ..self }
    }

    pub open spec fn spec_is_zero(&self) -> bool {
        self.magnitude() == 0
    }

    /// The decimal `num / 10^scale`.
    pub fn new(num: i64, scale: u32) -> (r: Decimal)
        requires
            scale <= MAX_SCALE,
        ensures
            r.wf(),
            r.scale == scale,
            r.mantissa() == num,
            r.negative == (num < 0),
            r.hi == 0,
    {
        let magnitude: u64 = if num >= 0 {
            num as u64
        } else if num == i64::MIN {
            0x8000_0000_0000_0000u64
        } else {
            (-num) as u64
        };
        Decimal {
            negative: num < 0,
            scale,
            hi: 0,
            mid: (magnitude / 0x1_0000_0000) as u32,
            lo: (magnitude % 0x1_0000_0000) as u32,
        }
    }

    /// The 96-bit integer made of the three limbs.
    pub fn limbs(&self) -> (r: u128)
        ensures
            r == self.magnitude(),
            r <= MAX_MAGNITUDE,
    {
        let low: u128 = self.lo as u128;
        let middle: u128 = self.mid as u128;
        let high: u128 = self.hi as u128;
        low + middle * 0x1_0000_0000 + high * 0x1_0000_0000_0000_0000
    }

    /// Whether the magnitude is zero.
    #[verifier::when_used_as_spec(spec_is_zero)]
    pub fn is_zero(&self) -> (r: bool)
        ensures
            r == self.spec_is_zero(),
    {
        self.hi == 0 && self.mid == 0 && self.lo == 0
    }

    /// Reads a literal.
    pub fn from_literal(text: &Vec<char>) -> (r: Option<Decimal>)
        requires
            is_literal(text@),
        ensures
            r == literal_value(text@),
            r matches Some(d) ==> d.wf(),
    {
        parse(text)
    }

    /// The decimal as `rust_decimal` writes it.
    pub fn to_text(&self) -> (r: String)
        requires
            self.wf(),
        ensures
            r@ == decimal_text(*self),
    {
        display(*self)
    }
}

impl PartialEq for Decimal {
    /// Whether the two decimals stand for the same number.
    fn eq(&self, other: &Decimal) -> (r: bool) {
        let a = self.limbs();
        let b = other.limbs();
        proof {
            lemma_same_value(*self, *other);
        }
        if a == 0 || b == 0 {
            a == 0 && b == 0
        } else if self.negative != other.negative {
            false
        } else if self.scale <= other.scale {
            scales_to(a, other.scale - self.scale, b)
        } else {
            scales_to(b, self.scale - other.scale, a)
        }
    }
}

impl PartialEqSpecImpl for Decimal {
    open spec fn obeys_eq_spec() -> bool {
        true
    }

    open spec fn eq_spec(&self, other: &Decimal) -> bool {
        self.same_value(*other)
    }
}

/// Whether `x * 10^k` is `y`.
pub fn scales_to(x: u128, k: u32, y: u128) -> (r: bool)
    requires
        0 < x,
        y <= MAX_MAGNITUDE,
    ensures
        r == (x * pow10(k as nat) == y),
{
    let mut scaled = x;
    let mut i: u32 = 0;
    assert(x * pow10(0) == x) by (nonlinear_arith)
        requires
            pow10(0) == 1,
    ;
    while i < k
        invariant
            i <= k,
            0 < x,
            y <= MAX_MAGNITUDE,
            scaled == x * pow10(i as nat),
        decreases k - i,
    {
        if scaled > y {
            proof {
                lemma_pow10_grows(i as nat, k as nat);
                assert(x * pow10(i as nat) <= x * pow10(k as nat)) by (nonlinear_arith)
                    requires
                        pow10(i as nat) <= pow10(k as nat),
                        0 < x,
                ;
            }
            return false;
        }
        proof {
            assert(x * pow10((i + 1) as nat) == (x * pow10(i as nat)) * 10) by (nonlinear_arith)
                requires
                    pow10((i + 1) as nat) == 10 * pow10(i as nat),
            ;
        }
        scaled = scaled * 10;
        i += 1;
    }
    scaled == y
}

/// Powers of ten are positive and grow with the exponent.
pub proof fn lemma_pow10_grows(i: nat, k: nat)
    requires
        i <= k,
    ensures
        0 < pow10(i) <= pow10(k),
    decreases k,
{
    if i < k {
        lemma_pow10_grows(i, (k - 1) as nat);
    } else if k > 0 {
        lemma_pow10_grows((i - 1) as nat, (k - 1) as nat);
    }
}

/// The power of a sum is the product of the powers.
pub proof fn lemma_pow10_adds(i: nat, k: nat)
    ensures
        pow10(i + k) == pow10(i) * pow10(k),
    decreases k,
{
    if k > 0 {
        lemma_pow10_adds(i, (k - 1) as nat);
        assert(pow10(i) * (10 * pow10((k - 1) as nat)) == 10 * (pow10(i) * pow10((k - 1) as nat)))
            by (nonlinear_arith);
    } else {
        assert(pow10(i) * 1 == pow10(i)) by (nonlinear_arith);
    }
}

/// Two decimals stand for the same number when both are zero, or when they
/// have the same sign and the magnitude with the smaller scale, brought to the
/// larger scale, is the other magnitude.
pub proof fn lemma_same_value(a: Decimal, b: Decimal)
    ensures
        a.magnitude() == 0 || b.magnitude() == 0 ==> (a.same_value(b) <==> a.magnitude() == 0
            && b.magnitude() == 0),
        a.magnitude() != 0 && b.magnitude() != 0 && a.negative != b.negative ==> !a.same_value(b),
        a.magnitude() != 0 && b.magnitude() != 0 && a.negative == b.negative && a.scale <= b.scale
            ==> (a.same_value(b) <==> a.magnitude() * pow10((b.scale - a.scale) as nat)
            == b.magnitude()),
        a.magnitude() != 0 && b.magnitude() != 0 && a.negative == b.negative && a.scale > b.scale
            ==> (a.same_value(b) <==> b.magnitude() * pow10((a.scale - b.scale) as nat)
            == a.magnitude()),
{
    let m = a.magnitude() as int;
    let n = b.magnitude() as int;
    let p = pow10(a.scale as nat) as int;
    let q = pow10(b.scale as nat) as int;
    lemma_pow10_grows(0, a.scale as nat);
    lemma_pow10_grows(0, b.scale as nat);
    assert(m == 0 ==> m * q == 0 && (-m) * q == 0) by (nonlinear_arith);
    assert(n == 0 ==> n * p == 0 && (-n) * p == 0) by (nonlinear_arith);
    assert(m > 0 ==> m * q > 0 && (-m) * q < 0) by (nonlinear_arith)
        requires
            q > 0,
    ;
    assert(n > 0 ==> n * p > 0 && (-n) * p < 0) by (nonlinear_arith)
        requires
            p > 0,
    ;
    assert((-m) * q == -(m * q) && (-n) * p == -(n * p)) by (nonlinear_arith);
    if a.scale <= b.scale {
        let d = pow10((b.scale - a.scale) as nat) as int;
        lemma_pow10_adds(a.scale as nat, (b.scale - a.scale) as nat);
        assert(q == p * d);
        assert(m * q == (m * d) * p) by (nonlinear_arith)
            requires
                q == p * d,
        ;
        assert(((m * d) * p == n * p) <==> (m * d == n)) by (nonlinear_arith)
            requires
                p > 0,
        ;
    } else {
        let d = pow10((a.scale - b.scale) as nat) as int;
        lemma_pow10_adds(b.scale as nat, (a.scale - b.scale) as nat);
        assert(p == q * d);
        assert(n * p == (n * d) * q) by (nonlinear_arith)
            requires
                p == q * d,
        ;
        assert((m * q == (n * d) * q) <==> (m == n * d)) by (nonlinear_arith)
            requires
                q > 0,
        ;
    }
}

/// What `rust_decimal` reads from a literal; `None` where the number is too
/// large for 96 bits.
pub uninterp spec fn decimal_from_text(text: Seq<char>) -> Option<Decimal>;

/// The number that a literal stands for.  A literal of at most
/// [`EXACT_LITERAL_LEN`] characters is taken over digit by digit; of a longer
/// one this says only that it is what `rust_decimal` reads.
pub open spec fn literal_value(text: Seq<char>) -> Option<Decimal> {
    if text.len() <= EXACT_LITERAL_LEN {
        Some(Decimal::from_magnitude(digits_value(text), fraction_digits(text)))
    } else {
        decimal_from_text(text)
    }
}

/// How `rust_decimal` writes a decimal.
pub uninterp spec fn decimal_text(d: Decimal) -> Seq<char>;

/// What `rust_decimal` gives for `a + b`; `None` where it reports an overflow.
pub uninterp spec fn decimal_sum(a: Decimal, b: Decimal) -> Option<Decimal>;

/// What `rust_decimal` gives for `a - b`; `None` where it reports an overflow.
pub uninterp spec fn decimal_difference(a: Decimal, b: Decimal) -> Option<Decimal>;

/// What `rust_decimal` gives for `a * b`; `None` where it reports an overflow.
pub uninterp spec fn decimal_product(a: Decimal, b: Decimal) -> Option<Decimal>;

/// What `rust_decimal` gives for `a / b`; `None` where `b` is zero or it
/// reports an overflow.
pub uninterp spec fn decimal_quotient(a: Decimal, b: Decimal) -> Option<Decimal>;

/// What `rust_decimal` gives for `a` raised to `b`; `None` where it reports an
/// overflow.
pub uninterp spec fn decimal_power(a: Decimal, b: Decimal) -> Option<Decimal>;

/// Calls `Decimal::from_str` of `rust_decimal` on a literal.
///
/// The contract names the result and claims that it is well formed.  For a
/// literal of at most [`EXACT_LITERAL_LEN`] characters it also claims what the
/// parser's 64-bit path computes: no failure, no sign, the digits as the
/// magnitude and the count of digits after the point as the scale.
#[verifier::external_body]
pub(crate) fn parse(text: &Vec<char>) -> (r: Option<Decimal>)
    requires
        is_literal(text@),
    ensures
        r == decimal_from_text(text@),
        r matches Some(d) ==> d.wf(),
        text@.len() <= EXACT_LITERAL_LEN ==> r == Some(
            Decimal::from_magnitude(digits_value(text@), fraction_digits(text@)),
        ),
{
    let literal: String = text.iter().collect();
    match rust_decimal::Decimal::from_str(&literal) {
        Ok(d) => {
            let u = d.unpack();
            Some(Decimal { negative: u.negative, scale: u.scale, hi: u.hi, mid: u.mid, lo: u.lo })
        },
        Err(_) => None,
    }
}

/// Calls `to_string` on a `rust_decimal::Decimal`, which writes it through its
/// `Display`.  The contract names the result.
#[verifier::external_body]
pub(crate) fn display(a: Decimal) -> (r: String)
    requires
        a.wf(),
    ensures
        r@ == decimal_text(a),
{
    let mut x = rust_decimal::Decimal::from_parts(a.lo, a.mid, a.hi, a.negative, a.scale);
    x.set_sign_negative(a.negative);
    x.to_string()
}

/// Calls `Neg::neg` of `rust_decimal::Decimal`, which flips the sign bit and
/// leaves magnitude and scale as they are, also for zero.
#[verifier::external_body]
pub(crate) fn negate(a: Decimal) -> (r: Decimal)
    requires
        a.wf(),
    ensures
        r == a.negated(),
{
    let mut x = rust_decimal::Decimal::from_parts(a.lo, a.mid, a.hi, a.negative, a.scale);
    x.set_sign_negative(a.negative);
    let u = (-x).unpack();
    Decimal { negative: u.negative, scale: u.scale, hi: u.hi, mid: u.mid, lo: u.lo }
}

/// Calls `rust_decimal::Decimal::checked_add`.  The contract names the result
/// and claims that it is well formed.
#[verifier::external_body]
pub(crate) fn checked_add(a: Decimal, b: Decimal) -> (r: Option<Decimal>)
    requires
        a.wf(),
        b.wf(),
    ensures
        r == decimal_sum(a, b),
        r matches Some(d) ==> d.wf(),
{
    let mut x = rust_decimal::Decimal::from_parts(a.lo, a.mid, a.hi, a.negative, a.scale);
    x.set_sign_negative(a.negative);
    let mut y = rust_decimal::Decimal::from_parts(b.lo, b.mid, b.hi, b.negative, b.scale);
    y.set_sign_negative(b.negative);
    match x.checked_add(y) {
        Some(d) => {
            let u = d.unpack();
            Some(Decimal { negative: u.negative, scale: u.scale, hi: u.hi, mid: u.mid, lo: u.lo })
        },
        None => None,
    }
}

/// Calls `rust_decimal::Decimal::checked_sub`.  The contract names the result
/// and claims that it is well formed.
#[verifier::external_body]
pub(crate) fn checked_sub(a: Decimal, b: Decimal) -> (r: Option<Decimal>)
    requires
        a.wf(),
        b.wf(),
    ensures
        r == decimal_difference(a, b),
        r matches Some(d) ==> d.wf(),
{
    let mut x = rust_decimal::Decimal::from_parts(a.lo, a.mid, a.hi, a.negative, a.scale);
    x.set_sign_negative(a.negative);
    let mut y = rust_decimal::Decimal::from_parts(b.lo, b.mid, b.hi, b.negative, b.scale);
    y.set_sign_negative(b.negative);
    match x.checked_sub(y) {
        Some(d) => {
            let u = d.unpack();
            Some(Decimal { negative: u.negative, scale: u.scale, hi: u.hi, mid: u.mid, lo: u.lo })
        },
        None => None,
    }
}

/// Calls `rust_decimal::Decimal::checked_mul`.  The contract names the result
/// and claims that it is well formed.
#[verifier::external_body]
pub(crate) fn checked_mul(a: Decimal, b: Decimal) -> (r: Option<Decimal>)
    requires
        a.wf(),
        b.wf(),
    ensures
        r == decimal_product(a, b),
        r matches Some(d) ==> d.wf(),
{
    let mut x = rust_decimal::Decimal::from_parts(a.lo, a.mid, a.hi, a.negative, a.scale);
    x.set_sign_negative(a.negative);
    let mut y = rust_decimal::Decimal::from_parts(b.lo, b.mid, b.hi, b.negative, b.scale);
    y.set_sign_negative(b.negative);
    match x.checked_mul(y) {
        Some(d) => {
            let u = d.unpack();
            Some(Decimal { negative: u.negative, scale: u.scale, hi: u.hi, mid: u.mid, lo: u.lo })
        },
        None => None,
    }
}

/// Calls `rust_decimal::Decimal::checked_div`.  The contract names the result
/// and claims that it is well formed.
#[verifier::external_body]
pub(crate) fn checked_div(a: Decimal, b: Decimal) -> (r: Option<Decimal>)
    requires
        a.wf(),
        b.wf(),
    ensures
        r == decimal_quotient(a, b),
        r matches Some(d) ==> d.wf(),
{
    let mut x = rust_decimal::Decimal::from_parts(a.lo, a.mid, a.hi, a.negative, a.scale);
    x.set_sign_negative(a.negative);
    let mut y = rust_decimal::Decimal::from_parts(b.lo, b.mid, b.hi, b.negative, b.scale);
    y.set_sign_negative(b.negative);
    match x.checked_div(y) {
        Some(d) => {
            let u = d.unpack();
            Some(Decimal { negative: u.negative, scale: u.scale, hi: u.hi, mid: u.mid, lo: u.lo })
        },
        None => None,
    }
}

/// Calls `MathematicalOps::checked_powd` of `rust_decimal`, which gives no
/// number where the power overflows.  The contract names the result and
/// claims that it is well formed.
#[verifier::external_body]
pub(crate) fn checked_pow(a: Decimal, b: Decimal) -> (r: Option<Decimal>)
    requires
        a.wf(),
        b.wf(),
    ensures
        r == decimal_power(a, b),
        r matches Some(d) ==> d.wf(),
{
    let mut x = rust_decimal::Decimal::from_parts(a.lo, a.mid, a.hi, a.negative, a.scale);
    x.set_sign_negative(a.negative);
    let mut y = rust_decimal::Decimal::from_parts(b.lo, b.mid, b.hi, b.negative, b.scale);
    y.set_sign_negative(b.negative);
    match x.checked_powd(y) {
        Some(d) => {
            let u = d.unpack();
            Some(Decimal { negative: u.negative, scale: u.scale, hi: u.hi, mid: u.mid, lo: u.lo })
        },
        None => None,
    }
}

} // verus!

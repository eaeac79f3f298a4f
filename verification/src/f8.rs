//! The packed 8-bit float: bit-layout codec, normalizer, arithmetic and the
//! integer cores of the float conversions.
//!
//! Layout of the byte: `1 (sign) | 3 (exponent) | 4 (significand)`, sign bit
//! set meaning negative, exponent biased by [`BIAS`], magnitude
//! `2^(exponent - BIAS) * significand`.

use vstd::prelude::*;

verus! {

/// Bias of the stored exponent field: heavily favours values close to zero.
pub const BIAS: u8 = 2;

const SIGN_MASK: u8 = 0x80;
const EXP_MASK: u8 = 0x70;
const SIGNIF_MASK: u8 = 0x0f;

/// An 8-bit floating point value, packed as `1 (sign) | 3 (exp) | 4 (signif)`.
///
/// Equality is equality of the packed byte. In particular the negative-zero
/// pattern (only the sign bit set) is numerically zero yet distinct under
/// `==` from the all-zero byte.
#[derive(Debug, Copy, Clone, PartialEq, Eq)]
pub struct F8(u8);

impl F8 {
    /// The packed byte, the single piece of state a value has.
    pub closed spec fn bits(self) -> u8 {
        self.0
    }
}

/// The sign field of a packed byte: 0 for non-negative, 1 for negative.
pub open spec fn sign_of(b: u8) -> int {
    b as int / 128
}

/// The 3-bit biased exponent field of a packed byte.
pub open spec fn exp_of(b: u8) -> int {
    (b as int / 16) % 8
}

/// The 4-bit significand field of a packed byte.
pub open spec fn signif_of(b: u8) -> int {
    b as int % 16
}

/// Packing a (sign, exponent, significand) triple into one byte; each field
/// is truncated to its width before being placed.
pub open spec fn spec_pack(sign: int, exp: int, signif: int) -> u8 {
    ((sign % 2) * 128 + (exp % 8) * 16 + (signif % 16)) as u8
}

impl F8 {
    /// Packs a raw triple. Out-of-range bits of each field are silently
    /// truncated to the field's width; this is documented, not guarded.
    pub fn new(sign: u8, exp: u8, signif: u8) -> (r: F8)
        ensures
            r.bits() == spec_pack(sign as int, exp as int, signif as int),
    {
        proof {
            assert((sign << 7 | ((exp << 4) & 0x70) | (signif & 0x0f)) as int
                == (sign as int % 2) * 128 + (exp as int % 8) * 16 + (signif as int % 16))
                by (bit_vector);
        }
        F8(sign << 7 | ((exp << 4) & EXP_MASK) | (signif & SIGNIF_MASK))
    }

    /// The additive identity: the all-zero byte.
    pub fn zero() -> (r: F8)
        ensures
            r.bits() == 0,
    {
        F8(0)
    }

    /// True exactly of the all-zero byte. The negative-zero pattern and the
    /// zero-significand patterns at higher exponents are not recognised here.
    pub fn is_zero(&self) -> (r: bool)
        ensures
            r == (self.bits() == 0),
    {
        self.0 == 0
    }

    /// The multiplicative identity: significand 1 at biased exponent [`BIAS`].
    pub fn one() -> (r: F8)
        ensures
            r.bits() == spec_pack(0, BIAS as int, 1),
    {
        F8::new(0, BIAS, 1)
    }

    /// True exactly of the byte that [`F8::one`] returns.
    pub fn is_one(&self) -> (r: bool)
        ensures
            r == (self.bits() == spec_pack(0, BIAS as int, 1)),
    {
        proof {
            assert(spec_pack(0, 2, 1) == 0x21);
        }
        self.0 == 0x21
    }

    /// True when the sign bit is clear.
    pub fn is_sign_positive(self) -> (r: bool)
        ensures
            r == (sign_of(self.bits()) == 0),
    {
        proof {
            let b = self.0;
            assert((b & 0x80 == 0) == (b as int / 128 == 0)) by (bit_vector);
        }
        self.0 & SIGN_MASK == 0
    }

    /// True when the sign bit is set.
    pub fn is_sign_negative(self) -> (r: bool)
        ensures
            r == (sign_of(self.bits()) == 1),
    {
        proof {
            let b = self.0;
            assert((b & 0x80 != 0) == (b as int / 128 == 1)) by (bit_vector);
        }
        self.0 & SIGN_MASK != 0
    }

    /// The raw 3-bit biased exponent field.
    pub fn exponent(self) -> (r: u8)
        ensures
            r == exp_of(self.bits()),
            0 <= r <= 7,
    {
        proof {
            let b = self.0;
            assert(((b & 0x70) >> 4) as int == (b as int / 16) % 8) by (bit_vector);
        }
        (self.0 & EXP_MASK) >> 4
    }

    /// The raw 4-bit significand field.
    pub fn significand(self) -> (r: u8)
        ensures
            r == signif_of(self.bits()),
            0 <= r <= 15,
    {
        proof {
            let b = self.0;
            assert((b & 0x0f) as int == b as int % 16) by (bit_vector);
        }
        self.0 & SIGNIF_MASK
    }

    /// The sign as a signed digit: 0 when the significand field is zero
    /// (whatever the sign bit says), otherwise +1 or -1 by the sign bit.
    pub fn signum(self) -> (r: i8)
        ensures
            r == spec_signum(self.bits()),
    {
        if self.significand() == 0 {
            return 0;
        }
        if self.is_sign_positive() {
            1
        } else {
            -1
        }
    }

    /// The value taken apart: the significand field, the unbiased exponent,
    /// and the signed sign digit of [`F8::signum`].
    pub fn integer_decode(self) -> (r: (u8, i8, i8))
        ensures
            r.0 == signif_of(self.bits()),
            r.1 == exp_of(self.bits()) - BIAS,
            r.2 == spec_signum(self.bits()),
    {
        (self.significand(), (self.exponent() as i8) - (BIAS as i8), self.signum())
    }

    /// Negation: flips the sign bit and nothing else, so both zero patterns
    /// and the saturation sentinel negate by the same rule.
    pub fn neg(self) -> (r: F8)
        ensures
            r.bits() == neg_of(self.bits()),
    {
        proof {
            let b = self.0;
            assert(b < 128 ==> (b ^ 0x80) == b + 128) by (bit_vector);
            assert(b >= 128 ==> (b ^ 0x80) == b - 128) by (bit_vector);
        }
        F8(self.0 ^ SIGN_MASK)
    }
}

/// The sign digit of a packed byte: 0 for a zero significand field, else
/// +1 or -1 by the sign bit.
pub open spec fn spec_signum(b: u8) -> int {
    if signif_of(b) == 0 {
        0
    } else if sign_of(b) == 0 {
        1
    } else {
        -1
    }
}

/// The packed byte with the sign bit flipped.
pub open spec fn neg_of(b: u8) -> u8 {
    if b < 128 {
        (b + 128) as u8
    } else {
        (b - 128) as u8
    }
}

/// Flipping the sign bit leaves the exponent and significand fields alone
/// and flips only the sign field.
pub proof fn lemma_neg_fields(b: u8)
    ensures
        sign_of(neg_of(b)) == 1 - sign_of(b),
        exp_of(neg_of(b)) == exp_of(b),
        signif_of(neg_of(b)) == signif_of(b),
{
}

/// 2 to the power `k`.
pub open spec fn two_pow(k: nat) -> nat
    decreases k,
{
    if k == 0 {
        1
    } else {
        2 * two_pow((k - 1) as nat)
    }
}

/// What the normalizer computes: restores the significand to its 4-bit range
/// by repeated halving, decrementing the exponent with each halving as the
/// format prescribes. Saturates to the sentinel (exponent 7, significand 0)
/// when the exponent has reached the top of its range, or when the halving
/// runs out of exponent room at 0.
pub open spec fn spec_normalize(exp: int, signif: int) -> (int, int)
    recommends
        0 <= exp,
        0 <= signif,
    decreases signif,
{
    if exp >= 7 {
        (7int, 0int)
    } else if signif > 15 {
        if exp <= 0 {
            (7int, 0int)
        } else {
            spec_normalize(exp - 1, signif / 2)
        }
    } else {
        (exp, signif)
    }
}

/// The normalizer always lands both fields in their packed ranges.
pub proof fn lemma_normalize_in_range(exp: int, signif: int)
    requires
        0 <= exp,
        0 <= signif,
    ensures
        0 <= spec_normalize(exp, signif).0 <= 7,
        0 <= spec_normalize(exp, signif).1 <= 15,
    decreases signif,
{
    if exp >= 7 || signif <= 15 {
    } else if exp <= 0 {
    } else {
        lemma_normalize_in_range(exp - 1, signif / 2);
    }
}

/// Restores the invariant that the significand fits its 4-bit field after an
/// arithmetic step widened it: halves the significand and decrements the
/// exponent until the significand is at most 15, saturating to the infinity
/// sentinel (exponent 7, significand 0) when the exponent is already at or
/// past the top of its 3-bit range, or when the halving reaches exponent 0
/// with the significand still too wide.
pub fn normalize(exp: u8, signif: u64) -> (r: (u8, u8))
    ensures
        (r.0 as int, r.1 as int) == spec_normalize(exp as int, signif as int),
        r.0 <= 7,
        r.1 <= 15,
{
    if exp >= 7 {
        return (7, 0);
    }
    let mut e: u8 = exp;
    let mut s: u64 = signif;
    while s > 15
        invariant
            e <= 6,
            spec_normalize(e as int, s as int) == spec_normalize(exp as int, signif as int),
        decreases s,
    {
        if e == 0 {
            return (7, 0);
        }
        e = e - 1;
        s = s / 2;
    }
    (e, s as u8)
}

proof fn lemma_mul_le(a: int, b: int, ab: int, bb: int)
    by (nonlinear_arith)
    requires
        0 <= a <= ab,
        0 <= b <= bb,
    ensures
        a * b <= ab * bb,
{
}

proof fn lemma_mul_two(s: int, t: int)
    by (nonlinear_arith)
    ensures
        (s * t) * 2 == s * (2 * t),
{
}

proof fn lemma_two_pow_mono(a: nat, b: nat)
    requires
        a <= b,
    ensures
        two_pow(a) <= two_pow(b),
    decreases b,
{
    if a < b {
        lemma_two_pow_mono(a, (b - 1) as nat);
    }
}

proof fn lemma_two_pow_le_128(k: nat)
    requires
        k <= 7,
    ensures
        two_pow(k) <= 128,
{
    lemma_two_pow_mono(k, 7);
    assert(two_pow(7) == 128) by {
        reveal_with_fuel(two_pow, 9);
    }
}

/// What addition computes. Both significands are brought to the larger of
/// the two exponents by doubling (exact, in an unbounded intermediate
/// domain), then combined by the sign pair: same sign adds the magnitudes
/// and keeps that sign; opposite signs with equal aligned magnitudes cancel
/// to the all-zero byte; otherwise the smaller aligned magnitude is
/// subtracted from the larger and the sign of the larger-magnitude operand
/// wins. The combined significand goes through the normalizer exactly once.
pub open spec fn spec_add(a: u8, b: u8) -> u8 {
    let e0 = exp_of(a);
    let e1 = exp_of(b);
    let e = if e0 >= e1 {
        e0
    } else {
        e1
    };
    let am0 = signif_of(a) * two_pow((e - e0) as nat);
    let am1 = signif_of(b) * two_pow((e - e1) as nat);
    if sign_of(a) == sign_of(b) {
        let n = spec_normalize(e, am0 + am1);
        spec_pack(sign_of(a), n.0, n.1)
    } else if am0 == am1 {
        0
    } else if am0 > am1 {
        let n = spec_normalize(e, am0 - am1);
        spec_pack(sign_of(a), n.0, n.1)
    } else {
        let n = spec_normalize(e, am1 - am0);
        spec_pack(sign_of(b), n.0, n.1)
    }
}

impl F8 {
    /// Addition: aligns the operands to a common exponent, combines the
    /// significands by the four sign cases, and normalizes once. Total;
    /// overflow saturates to the sentinel, exact cancellation of opposite
    /// signs gives the all-zero byte.
    pub fn add(self, o: F8) -> (r: F8)
        ensures
            r.bits() == spec_add(self.bits(), o.bits()),
    {
        let ghost ga: u8 = self.bits();
        let ghost gb: u8 = o.bits();
        let mut e0: u8 = self.exponent();
        let mut e1: u8 = o.exponent();
        let mut m0: u64 = self.significand() as u64;
        let mut m1: u64 = o.significand() as u64;
        proof {
            assert(two_pow(0) == 1);
            assert((e0 - exp_of(ga)) as nat == 0);
            assert(m0 == signif_of(ga) * two_pow((e0 - exp_of(ga)) as nat));
        }
        while e0 < e1
            invariant
                e0 <= e1 || e0 == exp_of(ga),
                exp_of(ga) <= e0,
                e0 <= 7,
                e1 == exp_of(gb),
                m1 == signif_of(gb),
                m0 == signif_of(ga) * two_pow((e0 - exp_of(ga)) as nat),
            decreases e1 - e0,
        {
            proof {
                let k = (e0 - exp_of(ga)) as nat;
                lemma_two_pow_le_128(k);
                lemma_mul_le(signif_of(ga), two_pow(k) as int, 15, 128);
                lemma_mul_two(signif_of(ga), two_pow(k) as int);
            }
            m0 = m0 * 2;
            e0 = e0 + 1;
        }
        proof {
            assert(two_pow(0) == 1);
            assert((e1 - exp_of(gb)) as nat == 0);
            assert(m1 == signif_of(gb) * two_pow((e1 - exp_of(gb)) as nat));
        }
        while e1 < e0
            invariant
                e1 <= e0,
                exp_of(gb) <= e1,
                e0 <= 7,
                m0 == signif_of(ga) * two_pow((e0 - exp_of(ga)) as nat),
                m1 == signif_of(gb) * two_pow((e1 - exp_of(gb)) as nat),
            decreases e0 - e1,
        {
            proof {
                let k = (e1 - exp_of(gb)) as nat;
                lemma_two_pow_le_128(k);
                lemma_mul_le(signif_of(gb), two_pow(k) as int, 15, 128);
                lemma_mul_two(signif_of(gb), two_pow(k) as int);
            }
            m1 = m1 * 2;
            e1 = e1 + 1;
        }
        proof {
            let k0 = (e0 - exp_of(ga)) as nat;
            let k1 = (e1 - exp_of(gb)) as nat;
            lemma_two_pow_le_128(k0);
            lemma_two_pow_le_128(k1);
            lemma_mul_le(signif_of(ga), two_pow(k0) as int, 15, 128);
            lemma_mul_le(signif_of(gb), two_pow(k1) as int, 15, 128);
        }
        let sp0 = self.is_sign_positive();
        let sp1 = o.is_sign_positive();
        if sp0 == sp1 {
            let n = normalize(e0, m0 + m1);
            F8::new(if sp0 { 0 } else { 1 }, n.0, n.1)
        } else if m0 == m1 {
            F8::zero()
        } else if m0 > m1 {
            let n = normalize(e0, m0 - m1);
            F8::new(if sp0 { 0 } else { 1 }, n.0, n.1)
        } else {
            let n = normalize(e0, m1 - m0);
            F8::new(if sp1 { 0 } else { 1 }, n.0, n.1)
        }
    }
}

/// What multiplication computes: the sign is the XOR of the operand signs,
/// the exponent is the sum of the biased exponents with the double-counted
/// bias removed, the significand is the product of the significand fields,
/// normalized once. When the exponent sum is below the bias the magnitude
/// saturates to zero (the sign bit is kept), the documented policy for
/// exponent underflow.
pub open spec fn spec_mul(a: u8, b: u8) -> u8 {
    let s = if sign_of(a) == sign_of(b) {
        0int
    } else {
        1int
    };
    let esum = exp_of(a) + exp_of(b);
    if esum < BIAS {
        spec_pack(s, 0, 0)
    } else {
        let n = spec_normalize(esum - BIAS, signif_of(a) * signif_of(b));
        spec_pack(s, n.0, n.1)
    }
}

impl F8 {
    /// Subtraction, defined as addition of the negated right operand.
    pub fn sub(self, o: F8) -> (r: F8)
        ensures
            r.bits() == spec_add(self.bits(), neg_of(o.bits())),
    {
        self.add(o.neg())
    }

    /// Multiplication: XOR of the signs, sum of the biased exponents minus
    /// the bias, product of the significands, one normalization. Total; an
    /// exponent sum below the bias saturates the magnitude to zero and
    /// keeps the computed sign bit.
    pub fn mul(self, o: F8) -> (r: F8)
        ensures
            r.bits() == spec_mul(self.bits(), o.bits()),
    {
        let sign: u8 = if self.is_sign_negative() != o.is_sign_negative() {
            1
        } else {
            0
        };
        let e0: u8 = self.exponent();
        let e1: u8 = o.exponent();
        let m0: u64 = self.significand() as u64;
        let m1: u64 = o.significand() as u64;
        proof {
            lemma_mul_le(m0 as int, m1 as int, 15, 15);
        }
        let esum: u8 = e0 + e1;
        if esum < BIAS {
            F8::new(sign, 0, 0)
        } else {
            let n = normalize(esum - BIAS, m0 * m1);
            F8::new(sign, n.0, n.1)
        }
    }
}

/// Reading the fields back out of a packed triple: packing in-range fields
/// and unpacking them is the identity.
pub proof fn lemma_unpack(s: int, e: int, m: int)
    requires
        0 <= s <= 1,
        0 <= e <= 7,
        0 <= m <= 15,
    ensures
        sign_of(spec_pack(s, e, m)) == s,
        exp_of(spec_pack(s, e, m)) == e,
        signif_of(spec_pack(s, e, m)) == m,
{
    let v = s * 128 + e * 16 + m;
    assert(spec_pack(s, e, m) == v);
    assert(v / 128 == s && (v / 16) % 8 == e && v % 16 == m) by (nonlinear_arith)
        requires
            0 <= s <= 1,
            0 <= e <= 7,
            0 <= m <= 15,
            v == s * 128 + e * 16 + m,
    ;
}

/// What the exact conversion computes from a decoded float, given as a
/// significand at an unbiased power-of-two exponent. A zero significand is
/// exactly zero at any scale and keeps only the sign. Otherwise the pair is
/// reduced to its canonical odd-significand form, the bias is added, and a
/// still-negative biased exponent means the magnitude sits below what the
/// format can hold: the conversion refuses it rather than round. An odd
/// significand wider than the 4-bit field still goes through the normalizer
/// and is coarsened by it like any arithmetic result.
pub open spec fn spec_exact_from(sign: int, signif: nat, exp: int) -> Option<u8>
    decreases signif,
{
    if signif == 0 {
        Some(spec_pack(sign, 0, 0))
    } else if signif % 2 == 0 {
        spec_exact_from(sign, signif / 2, exp + 1)
    } else if exp + BIAS < 0 {
        None
    } else {
        let n = spec_normalize(exp + BIAS, signif as int);
        Some(spec_pack(sign, n.0, n.1))
    }
}

/// A nonzero significand whose biased exponent already reaches the top of
/// the exponent range converts to the saturation sentinel, no matter how
/// many factors of two are still folded into the significand.
pub proof fn lemma_exact_saturates(sign: int, signif: nat, exp: int)
    requires
        signif > 0,
        exp + BIAS >= 7,
    ensures
        spec_exact_from(sign, signif, exp) == Some(spec_pack(sign, 7, 0)),
    decreases signif,
{
    if signif % 2 == 0 {
        lemma_exact_saturates(sign, signif / 2, exp + 1);
    }
}

/// What the lossy conversion computes from a decoded float: while the
/// unbiased exponent is below the smallest the format can hold, the
/// significand is halved (truncating, rounding toward zero) and the
/// exponent raised; then the pair is normalized and packed. Total.
pub open spec fn spec_approx_from(sign: int, signif: nat, exp: int) -> u8
    decreases (if exp < -(BIAS as int) {
        -exp
    } else {
        0
    }),
{
    if exp < -(BIAS as int) {
        spec_approx_from(sign, signif / 2, exp + 1)
    } else {
        let n = spec_normalize(exp + BIAS, signif as int);
        spec_pack(sign, n.0, n.1)
    }
}

impl F8 {
    /// The exact-or-reject conversion path, taking the value already decoded
    /// from the wider float as `signif * 2^exp`, with the low bit of `sign`
    /// set meaning negative. Returns the packed value, or `None` when the
    /// biased exponent of the canonical odd-significand form is negative:
    /// then the magnitude sits below what the format can represent. A zero
    /// significand converts to zero, keeping the sign bit. Values whose odd
    /// significand does not fit the 4-bit field pass through the normalizer
    /// and lose precision there; only the underflow case is refused.
    pub fn try_from_parts(sign: u8, signif: u64, exp: i32) -> (r: Option<F8>)
        ensures
            (match r {
                Some(v) => spec_exact_from(sign as int, signif as nat, exp as int) == Some(
                    v.bits(),
                ),
                None => spec_exact_from(sign as int, signif as nat, exp as int) is None,
            }),
    {
        let mut s: u64 = signif;
        if s == 0 {
            return Some(F8::new(sign, 0, 0));
        }
        let mut e: i64 = exp as i64;
        while s % 2 == 0 && e < 5
            invariant
                s > 0,
                exp as i64 <= e,
                e <= 5 || e == exp as i64,
                spec_exact_from(sign as int, s as nat, e as int) == spec_exact_from(
                    sign as int,
                    signif as nat,
                    exp as int,
                ),
            decreases s,
        {
            s = s / 2;
            e = e + 1;
        }
        let eb: i64 = e + BIAS as i64;
        if eb < 0 {
            return None;
        }
        if eb >= 7 {
            proof {
                lemma_exact_saturates(sign as int, s as nat, e as int);
            }
            return Some(F8::new(sign, 7, 0));
        }
        let n = normalize(eb as u8, s);
        Some(F8::new(sign, n.0, n.1))
    }

    /// The lossy, total conversion path, taking the value already decoded
    /// from the wider float as `signif * 2^exp`. Instead of rejecting a
    /// too-small magnitude it sheds low significand bits (truncating toward
    /// zero) until the biased exponent is in range, then normalizes and
    /// packs.
    pub fn approx_from_parts(sign: u8, signif: u64, exp: i32) -> (r: F8)
        ensures
            r.bits() == spec_approx_from(sign as int, signif as nat, exp as int),
    {
        let mut s: u64 = signif;
        let mut e: i64 = exp as i64;
        while e < -(BIAS as i64)
            invariant
                e <= -(BIAS as i64) || e == exp as i64,
                spec_approx_from(sign as int, s as nat, e as int) == spec_approx_from(
                    sign as int,
                    signif as nat,
                    exp as int,
                ),
            decreases -e,
        {
            s = s / 2;
            e = e + 1;
        }
        let eb: i64 = e + BIAS as i64;
        if eb >= 7 {
            return F8::new(sign, 7, 0);
        }
        let n = normalize(eb as u8, s);
        F8::new(sign, n.0, n.1)
    }
}

/// Unpacking a byte and packing the fields again gives the byte back: the
/// three fields are all the state there is.
pub proof fn lemma_repack(b: u8)
    ensures
        spec_pack(sign_of(b), exp_of(b), signif_of(b)) == b,
{
    assert(((b as int / 128) % 2) * 128 + (((b as int / 16) % 8) % 8) * 16 + ((b as int % 16)
        % 16) == b as int) by (bit_vector);
}

/// Structural invariant of every value, saturating results included: the
/// significand field is within its 4-bit range, the exponent field within
/// its 3-bit range, the sign field a single bit. Every operation packs its
/// result, so every operation's result satisfies this.
pub proof fn lemma_fields_in_range(b: u8)
    ensures
        0 <= sign_of(b) <= 1,
        0 <= exp_of(b) <= 7,
        0 <= signif_of(b) <= 15,
{
}

/// Addition is commutative, bit for bit.
pub proof fn lemma_add_comm(a: u8, b: u8)
    ensures
        spec_add(a, b) == spec_add(b, a),
{
}

/// Adding a value to its negation cancels exactly to the all-zero byte,
/// with no residual, for every packed value.
pub proof fn lemma_add_neg_cancels(b: u8)
    ensures
        spec_add(b, neg_of(b)) == 0,
{
    lemma_neg_fields(b);
    assert(two_pow(0) == 1);
}

proof fn lemma_mul_nonneg(a: int, b: int)
    by (nonlinear_arith)
    requires
        0 <= a,
        0 <= b,
    ensures
        0 <= a * b,
{
}

/// The sign of a product is the XOR of the operand signs; this holds for
/// every pair of values, saturated and zero results included, because
/// multiplication always packs the combined sign bit.
pub proof fn lemma_mul_sign(a: u8, b: u8)
    ensures
        sign_of(spec_mul(a, b)) == (if sign_of(a) == sign_of(b) {
            0int
        } else {
            1int
        }),
{
    let s = if sign_of(a) == sign_of(b) {
        0int
    } else {
        1int
    };
    let esum = exp_of(a) + exp_of(b);
    if esum < BIAS {
        lemma_unpack(s, 0, 0);
    } else {
        lemma_mul_nonneg(signif_of(a), signif_of(b));
        lemma_normalize_in_range(esum - BIAS, signif_of(a) * signif_of(b));
        let n = spec_normalize(esum - BIAS, signif_of(a) * signif_of(b));
        lemma_unpack(s, n.0, n.1);
    }
}

/// The canonical packed forms: a zero significand only at exponent field 0,
/// and otherwise an odd significand below the saturation exponent. These
/// are exactly the bit patterns the exact conversion path produces.
pub open spec fn canonical(b: u8) -> bool {
    if signif_of(b) == 0 {
        exp_of(b) == 0
    } else {
        signif_of(b) % 2 == 1 && exp_of(b) < 7
    }
}

/// Round-trip law for the exact conversion: a canonical value, handed back
/// as any of the scalings `(signif * 2^t) * 2^(exp - BIAS - t)` that a wider
/// float's decoding can present its magnitude in, converts back to the
/// bit-identical byte.
pub proof fn lemma_exact_round_trip(b: u8, t: nat)
    requires
        canonical(b),
    ensures
        spec_exact_from(
            sign_of(b),
            (signif_of(b) * two_pow(t)) as nat,
            exp_of(b) - BIAS - t,
        ) == Some(b),
    decreases t,
{
    let m = signif_of(b);
    if m == 0 {
        lemma_repack(b);
    } else if t == 0 {
        assert(two_pow(0) == 1);
        lemma_repack(b);
    } else {
        let p = two_pow((t - 1) as nat);
        lemma_two_pow_pos((t - 1) as nat);
        assert(two_pow(t) == 2 * p);
        assert(m * (2 * p) == 2 * (m * p) && (2 * (m * p)) / 2 == m * p && (2 * (m * p)) % 2
            == 0) by (nonlinear_arith);
        lemma_mul_pos(m, p as int);
        lemma_exact_round_trip(b, (t - 1) as nat);
    }
}

proof fn lemma_two_pow_pos(k: nat)
    ensures
        two_pow(k) >= 1,
    decreases k,
{
    if k > 0 {
        lemma_two_pow_pos((k - 1) as nat);
    }
}

proof fn lemma_mul_pos(a: int, b: int)
    by (nonlinear_arith)
    requires
        1 <= a,
        1 <= b,
    ensures
        1 <= a * b,
{
}

} // verus!

//! Arithmetic over a prime finite field: addition, subtraction,
//! multiplication, exponentiation, and division of residues modulo a prime
//! `p`, generic over the backing unsigned integer representation.

use vstd::prelude::*;

verus! {

use vstd::arithmetic::div_mod::{
    lemma_small_mod, lemma_mod_multiples_vanish, lemma_add_mod_noop, lemma_mul_mod_noop_left,
    lemma_mul_mod_noop_right,
};

/// Capability contract for a backing integer type: it must expose its
/// additive and multiplicative identities and support comparison, addition,
/// subtraction, and remainder, each tied to the mathematical value given by
/// `as_nat`.
pub trait DefaultNumber: Sized + Copy {
    /// The mathematical (unbounded, nonnegative) value of this number.
    spec fn as_nat(self) -> nat;

    /// The additive identity.
    fn zero() -> (r: Self)
        ensures
            r.as_nat() == 0,
    ;

    /// The multiplicative identity.
    fn one() -> (r: Self)
        ensures
            r.as_nat() == 1,
    ;

    /// Addition, usable whenever some existing value bounds the sum, so that
    /// no representation can overflow.
    fn add_below(self, other: Self, bound: Self) -> (r: Self)
        requires
            self.as_nat() + other.as_nat() < bound.as_nat(),
        ensures
            r.as_nat() == self.as_nat() + other.as_nat(),
    ;

    /// Subtraction of a smaller or equal value.
    fn sub_val(self, other: Self) -> (r: Self)
        requires
            other.as_nat() <= self.as_nat(),
        ensures
            r.as_nat() == self.as_nat() - other.as_nat(),
    ;

    /// Remainder by a nonzero divisor.
    fn rem_val(self, other: Self) -> (r: Self)
        requires
            other.as_nat() > 0,
        ensures
            r.as_nat() == self.as_nat() % other.as_nat(),
    ;

    /// Strict order on the mathematical values.
    fn lt_val(self, other: Self) -> (r: bool)
        ensures
            r == (self.as_nat() < other.as_nat()),
    ;

    /// Equality of the mathematical values.
    fn eq_val(self, other: Self) -> (r: bool)
        ensures
            r == (self.as_nat() == other.as_nat()),
    ;
}

impl DefaultNumber for u64 {
    open spec fn as_nat(self) -> nat {
        self as nat
    }

    fn zero() -> (r: Self) {
        0
    }

    fn one() -> (r: Self) {
        1
    }

    fn add_below(self, other: Self, bound: Self) -> (r: Self) {
        self + other
    }

    fn sub_val(self, other: Self) -> (r: Self) {
        self - other
    }

    fn rem_val(self, other: Self) -> (r: Self) {
        self % other
    }

    fn lt_val(self, other: Self) -> (r: bool) {
        self < other
    }

    fn eq_val(self, other: Self) -> (r: bool) {
        self == other
    }
}

impl DefaultNumber for u128 {
    open spec fn as_nat(self) -> nat {
        self as nat
    }

    fn zero() -> (r: Self) {
        0
    }

    fn one() -> (r: Self) {
        1
    }

    fn add_below(self, other: Self, bound: Self) -> (r: Self) {
        self + other
    }

    fn sub_val(self, other: Self) -> (r: Self) {
        self - other
    }

    fn rem_val(self, other: Self) -> (r: Self) {
        self % other
    }

    fn lt_val(self, other: Self) -> (r: bool) {
        self < other
    }

    fn eq_val(self, other: Self) -> (r: bool) {
        self == other
    }
}

/// Why a field operation was refused instead of producing an element.
#[derive(Clone, Copy, PartialEq, Eq, Debug)]
pub enum FieldError {
    /// The two operands carry different moduli, so they live in different
    /// fields and cannot be combined.
    FieldMismatch,
    /// The divisor's representative is the additive identity, whose
    /// multiplicative inverse does not exist.
    DivisionByZeroResidue,
}

/// The residue of the sum of two residues, reduced modulo `p`.
pub open spec fn add_value(va: int, vb: int, p: int) -> int {
    (va + vb) % p
}

/// The residue of the difference of two residues, reduced modulo `p`.
pub open spec fn sub_value(va: int, vb: int, p: int) -> int {
    (va + p - vb) % p
}

/// The residue of the product of two residues, reduced modulo `p`.
pub open spec fn mul_value(va: int, vb: int, p: int) -> int {
    (va * vb) % p
}

/// The residue computed by exponentiation: the exponent is first reduced
/// modulo `p - 1` (by Fermat's little theorem this preserves the result for
/// nonzero bases in a prime field), then the base is raised to that power.
pub open spec fn pow_value(v: int, e: int, p: int) -> int {
    vstd::arithmetic::power::pow(v, (e % (p - 1)) as nat) % p
}

/// The residue computed by division: the dividend times the divisor's Fermat
/// inverse `vb^(p - 2)`.
pub open spec fn div_value(va: int, vb: int, p: int) -> int {
    mul_value(va, pow_value(vb, p - 2, p), p)
}

/// One residue class modulo a prime `p`: the representative `value` together
/// with the field's modulus `p`.
#[derive(Clone, Copy, PartialEq, Debug)]
pub struct FiniteFieldElement<T> {
    pub value: T,
    pub p: T,
}

impl<T: DefaultNumber> FiniteFieldElement<T> {
    /// The mathematical residue this element carries.
    pub open spec fn residue(self) -> int {
        self.value.as_nat() as int
    }

    /// The mathematical modulus of the field this element belongs to.
    pub open spec fn modulus(self) -> int {
        self.p.as_nat() as int
    }

    /// The representation invariant: the modulus is at least 2 (a prime) and
    /// the representative lies in the canonical range `[0, p)`.
    pub open spec fn is_valid(self) -> bool {
        2 <= self.modulus() && 0 <= self.residue() < self.modulus()
    }

    /// Stores the pair verbatim: no normalization is performed, so the caller
    /// must supply a `value` already reduced into `[0, p)` for the element to
    /// be valid.
    pub fn new(value: T, p: T) -> (r: Self)
        ensures
            r.value == value,
            r.p == p,
    {
        FiniteFieldElement { value, p }
    }

    /// The sum of two elements known to share a modulus. Because both
    /// representatives are already below `p`, a single conditional reduction
    /// keeps the result in `[0, p)`, and no intermediate ever reaches `p`.
    fn add_unchecked(self, rhs: Self) -> (r: Self)
        requires
            self.is_valid(),
            rhs.is_valid(),
            self.modulus() == rhs.modulus(),
        ensures
            r.p == self.p,
            r.is_valid(),
            r.residue() == add_value(self.residue(), rhs.residue(), self.modulus()),
    {
        let gap = self.p.sub_val(self.value);
        if rhs.value.lt_val(gap) {
            let sum = self.value.add_below(rhs.value, self.p);
            proof {
                lemma_small_mod((self.value.as_nat() + rhs.value.as_nat()) as nat, self.p.as_nat());
            }
            Self::new(sum, self.p)
        } else {
            let wrapped = rhs.value.sub_val(gap);
            proof {
                lemma_mod_multiples_vanish(
                    1,
                    self.residue() + rhs.residue() - self.modulus(),
                    self.modulus(),
                );
                lemma_small_mod(
                    (self.residue() + rhs.residue() - self.modulus()) as nat,
                    self.p.as_nat(),
                );
            }
            Self::new(wrapped, self.p)
        }
    }

    /// Field addition. Fails with `FieldMismatch` exactly when the operands
    /// carry different moduli; otherwise returns the reduced sum.
    pub fn add(self, rhs: Self) -> (r: Result<Self, FieldError>)
        requires
            self.is_valid(),
            rhs.is_valid(),
        ensures
            r is Ok <==> self.modulus() == rhs.modulus(),
            r is Err ==> r == Err::<Self, FieldError>(FieldError::FieldMismatch),
            r is Ok ==> r->Ok_0.p == self.p && r->Ok_0.is_valid() && r->Ok_0.residue()
                == add_value(self.residue(), rhs.residue(), self.modulus()),
    {
        if !self.p.eq_val(rhs.p) {
            return Err(FieldError::FieldMismatch);
        }
        Ok(self.add_unchecked(rhs))
    }

    /// The difference of two elements known to share a modulus, computed with
    /// a borrow from `p` when the minuend's representative is the smaller, so
    /// that no negative intermediate is ever formed.
    fn sub_unchecked(self, rhs: Self) -> (r: Self)
        requires
            self.is_valid(),
            rhs.is_valid(),
            self.modulus() == rhs.modulus(),
        ensures
            r.p == self.p,
            r.is_valid(),
            r.residue() == sub_value(self.residue(), rhs.residue(), self.modulus()),
    {
        if self.value.lt_val(rhs.value) {
            let borrowed = self.p.sub_val(rhs.value);
            let diff = borrowed.add_below(self.value, self.p);
            proof {
                lemma_small_mod(
                    (self.residue() + self.modulus() - rhs.residue()) as nat,
                    self.p.as_nat(),
                );
            }
            Self::new(diff, self.p)
        } else {
            let diff = self.value.sub_val(rhs.value);
            proof {
                lemma_mod_multiples_vanish(1, self.residue() - rhs.residue(), self.modulus());
                lemma_small_mod((self.residue() - rhs.residue()) as nat, self.p.as_nat());
            }
            Self::new(diff, self.p)
        }
    }

    /// Field subtraction. Fails with `FieldMismatch` exactly when the
    /// operands carry different moduli; otherwise returns the reduced
    /// difference.
    pub fn sub(self, rhs: Self) -> (r: Result<Self, FieldError>)
        requires
            self.is_valid(),
            rhs.is_valid(),
        ensures
            r is Ok <==> self.modulus() == rhs.modulus(),
            r is Err ==> r == Err::<Self, FieldError>(FieldError::FieldMismatch),
            r is Ok ==> r->Ok_0.p == self.p && r->Ok_0.is_valid() && r->Ok_0.residue()
                == sub_value(self.residue(), rhs.residue(), self.modulus()),
    {
        if !self.p.eq_val(rhs.p) {
            return Err(FieldError::FieldMismatch);
        }
        Ok(self.sub_unchecked(rhs))
    }

    /// The product of two elements known to share a modulus, by repeated
    /// modular addition: the left operand is accumulated once per unit of the
    /// right operand's representative, so every intermediate stays in
    /// `[0, p)`.
    fn mul_unchecked(self, rhs: Self) -> (r: Self)
        requires
            self.is_valid(),
            rhs.is_valid(),
            self.modulus() == rhs.modulus(),
        ensures
            r.p == self.p,
            r.is_valid(),
            r.residue() == mul_value(self.residue(), rhs.residue(), self.modulus()),
    {
        let zero = T::zero();
        let one = T::one();
        let mut i = rhs.value;
        let mut r = Self::new(zero, self.p);
        proof {
            lemma_small_mod(0, self.p.as_nat());
        }
        while zero.lt_val(i)
            invariant
                self.is_valid(),
                r.p == self.p,
                r.is_valid(),
                zero.as_nat() == 0,
                one.as_nat() == 1,
                i.as_nat() <= rhs.residue(),
                r.residue() == mul_value(self.residue(), rhs.residue() - i.as_nat(), self.modulus()),
            decreases i.as_nat(),
        {
            let ghost done = rhs.residue() - i.as_nat();
            r = r.add_unchecked(self);
            i = i.sub_val(one);
            proof {
                lemma_small_mod(self.value.as_nat(), self.p.as_nat());
                lemma_add_mod_noop(self.residue() * done, self.residue(), self.modulus());
                assert(self.residue() * done + self.residue() == self.residue() * (done + 1))
                    by (nonlinear_arith);
            }
        }
        r
    }

    /// Field multiplication. Fails with `FieldMismatch` exactly when the
    /// operands carry different moduli; otherwise returns the reduced
    /// product.
    pub fn mul(self, rhs: Self) -> (r: Result<Self, FieldError>)
        requires
            self.is_valid(),
            rhs.is_valid(),
        ensures
            r is Ok <==> self.modulus() == rhs.modulus(),
            r is Err ==> r == Err::<Self, FieldError>(FieldError::FieldMismatch),
            r is Ok ==> r->Ok_0.p == self.p && r->Ok_0.is_valid() && r->Ok_0.residue()
                == mul_value(self.residue(), rhs.residue(), self.modulus()),
    {
        if !self.p.eq_val(rhs.p) {
            return Err(FieldError::FieldMismatch);
        }
        Ok(self.mul_unchecked(rhs))
    }

    /// Exponentiation by a raw exponent of the backing type. The exponent is
    /// first reduced modulo `p - 1`, then the accumulator, seeded with the
    /// multiplicative identity, is multiplied by `self` once per unit of the
    /// reduced exponent.
    pub fn pow(self, e: T) -> (r: Self)
        requires
            self.is_valid(),
        ensures
            r.p == self.p,
            r.is_valid(),
            r.residue() == pow_value(self.residue(), e.as_nat() as int, self.modulus()),
    {
        let zero = T::zero();
        let one = T::one();
        let reducer = self.p.sub_val(one);
        let mut i = e.rem_val(reducer);
        let ghost total = i.as_nat();
        let mut r = Self::new(one, self.p);
        proof {
            lemma_small_mod(1, self.p.as_nat());
            vstd::arithmetic::power::lemma_pow0(self.residue());
        }
        while zero.lt_val(i)
            invariant
                self.is_valid(),
                r.p == self.p,
                r.is_valid(),
                zero.as_nat() == 0,
                one.as_nat() == 1,
                i.as_nat() <= total,
                r.residue() == vstd::arithmetic::power::pow(
                    self.residue(),
                    (total - i.as_nat()) as nat,
                ) % self.modulus(),
            decreases i.as_nat(),
        {
            let ghost done = (total - i.as_nat()) as nat;
            r = r.mul_unchecked(self);
            i = i.sub_val(one);
            proof {
                let va = self.residue();
                let m = self.modulus();
                let raised = vstd::arithmetic::power::pow(va, done);
                assert(r.residue() == ((raised % m) * va) % m);
                lemma_mul_mod_noop_left(raised, va, m);
                assert(r.residue() == (raised * va) % m);
                vstd::arithmetic::power::lemma_pow_adds(va, done, 1);
                vstd::arithmetic::power::lemma_pow1(va);
                assert(vstd::arithmetic::power::pow(va, done + 1) == raised * va);
                assert((total - i.as_nat()) as nat == done + 1);
            }
        }
        proof {
            assert(total == e.as_nat() as int % (self.modulus() - 1));
        }
        r
    }

    /// Field division, via the divisor's Fermat inverse `rhs^(p - 2)`. Fails
    /// with `FieldMismatch` exactly when the operands carry different moduli,
    /// and with `DivisionByZeroResidue` exactly when the moduli agree but the
    /// divisor's representative is the additive identity.
    pub fn div(self, rhs: Self) -> (r: Result<Self, FieldError>)
        requires
            self.is_valid(),
            rhs.is_valid(),
        ensures
            r is Ok <==> self.modulus() == rhs.modulus() && rhs.residue() != 0,
            self.modulus() != rhs.modulus() ==> r == Err::<Self, FieldError>(
                FieldError::FieldMismatch,
            ),
            self.modulus() == rhs.modulus() && rhs.residue() == 0 ==> r == Err::<
                Self,
                FieldError,
            >(FieldError::DivisionByZeroResidue),
            r is Ok ==> r->Ok_0.p == self.p && r->Ok_0.is_valid() && r->Ok_0.residue()
                == div_value(self.residue(), rhs.residue(), self.modulus()),
    {
        if !self.p.eq_val(rhs.p) {
            return Err(FieldError::FieldMismatch);
        }
        let zero = T::zero();
        if rhs.value.eq_val(zero) {
            return Err(FieldError::DivisionByZeroResidue);
        }
        let one = T::one();
        let exponent = self.p.sub_val(one).sub_val(one);
        let inverse = rhs.pow(exponent);
        Ok(self.mul_unchecked(inverse))
    }

    /// In-place field addition: on success the receiver becomes the reduced
    /// sum; on a modulus mismatch it is left unchanged.
    pub fn add_assign(&mut self, rhs: Self) -> (r: Result<(), FieldError>)
        requires
            old(self).is_valid(),
            rhs.is_valid(),
        ensures
            r is Ok <==> old(self).modulus() == rhs.modulus(),
            r is Err ==> r == Err::<(), FieldError>(FieldError::FieldMismatch) && *final(self)
                == *old(self),
            r is Ok ==> final(self).p == old(self).p && final(self).is_valid()
                && final(self).residue() == add_value(
                old(self).residue(),
                rhs.residue(),
                old(self).modulus(),
            ),
    {
        match (*self).add(rhs) {
            Ok(s) => {
                *self = s;
                Ok(())
            },
            Err(e) => Err(e),
        }
    }

    /// In-place field subtraction: on success the receiver becomes the
    /// reduced difference; on a modulus mismatch it is left unchanged.
    pub fn sub_assign(&mut self, rhs: Self) -> (r: Result<(), FieldError>)
        requires
            old(self).is_valid(),
            rhs.is_valid(),
        ensures
            r is Ok <==> old(self).modulus() == rhs.modulus(),
            r is Err ==> r == Err::<(), FieldError>(FieldError::FieldMismatch) && *final(self)
                == *old(self),
            r is Ok ==> final(self).p == old(self).p && final(self).is_valid()
                && final(self).residue() == sub_value(
                old(self).residue(),
                rhs.residue(),
                old(self).modulus(),
            ),
    {
        match (*self).sub(rhs) {
            Ok(s) => {
                *self = s;
                Ok(())
            },
            Err(e) => Err(e),
        }
    }
}

/// Additive inverse round-trip: adding `b` to `a` and then subtracting `b`
/// again returns `a`'s residue, for any two valid elements of one field.
pub proof fn lemma_add_sub_round_trip<T: DefaultNumber>(
    a: FiniteFieldElement<T>,
    b: FiniteFieldElement<T>,
)
    requires
        a.is_valid(),
        b.is_valid(),
        a.modulus() == b.modulus(),
    ensures
        sub_value(add_value(a.residue(), b.residue(), a.modulus()), b.residue(), a.modulus())
            == a.residue(),
{
    let va = a.residue();
    let vb = b.residue();
    let m = a.modulus();
    if va + vb < m {
        lemma_small_mod((va + vb) as nat, m as nat);
        lemma_mod_multiples_vanish(1, va, m);
        lemma_small_mod(va as nat, m as nat);
    } else {
        lemma_mod_multiples_vanish(1, va + vb - m, m);
        lemma_small_mod((va + vb - m) as nat, m as nat);
        lemma_small_mod(va as nat, m as nat);
    }
}

/// Multiplicative identity: multiplying any valid element with a nonzero
/// residue by the element `new(one, p)` leaves its residue unchanged.
pub proof fn lemma_mul_identity<T: DefaultNumber>(a: FiniteFieldElement<T>)
    requires
        a.is_valid(),
        a.residue() != 0,
    ensures
        mul_value(a.residue(), 1, a.modulus()) == a.residue(),
{
    lemma_small_mod(a.residue() as nat, a.p.as_nat());
}

/// Fermat consistency: raising any valid element with a nonzero residue to
/// the power `p - 1` yields the multiplicative identity. The exponent
/// reduction modulo `p - 1` built into `pow` sends the exponent `p - 1` to
/// zero, so the result is the empty product; for a prime modulus this agrees
/// with Fermat's little theorem.
pub proof fn lemma_fermat_identity<T: DefaultNumber>(a: FiniteFieldElement<T>)
    requires
        a.is_valid(),
        a.residue() != 0,
    ensures
        pow_value(a.residue(), a.modulus() - 1, a.modulus()) == 1,
{
    let m = a.modulus();
    vstd::arithmetic::div_mod::lemma_mod_self_0(m - 1);
    vstd::arithmetic::power::lemma_pow0(a.residue());
    lemma_small_mod(1, m as nat);
}

/// Division round-trip: whenever the Fermat inverse `b^(p - 2)` really is a
/// multiplicative inverse of `b`, as holds for every nonzero `b` when the
/// modulus is prime, dividing `a` by `b` and multiplying by `b` again
/// returns `a`'s residue.
pub proof fn lemma_div_mul_round_trip<T: DefaultNumber>(
    a: FiniteFieldElement<T>,
    b: FiniteFieldElement<T>,
)
    requires
        a.is_valid(),
        b.is_valid(),
        a.modulus() == b.modulus(),
        b.residue() != 0,
        mul_value(
            b.residue(),
            pow_value(b.residue(), a.modulus() - 2, a.modulus()),
            a.modulus(),
        ) == 1,
    ensures
        mul_value(div_value(a.residue(), b.residue(), a.modulus()), b.residue(), a.modulus())
            == a.residue(),
{
    let va = a.residue();
    let vb = b.residue();
    let m = a.modulus();
    let inverse = pow_value(vb, m - 2, m);
    lemma_mul_mod_noop_left(va * inverse, vb, m);
    assert(va * inverse * vb == va * (vb * inverse)) by (nonlinear_arith);
    lemma_mul_mod_noop_right(va, vb * inverse, m);
    lemma_small_mod(va as nat, m as nat);
}

} // verus!

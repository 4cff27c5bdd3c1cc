use finite_field::{DefaultNumber, FieldError, FiniteFieldElement};

fn fe(value: u64, p: u64) -> FiniteFieldElement<u64> {
    FiniteFieldElement::new(value, p)
}

#[test]
fn new_stores_verbatim() {
    let a = fe(3, 7);
    assert_eq!(a.value, 3);
    assert_eq!(a.p, 7);
    let raw = fe(12, 7);
    assert_eq!(raw.value, 12);
    assert_eq!(raw.p, 7);
}

#[test]
fn scenario_mod_seven_add() {
    assert_eq!(fe(3, 7).add(fe(5, 7)).unwrap(), fe(1, 7));
}

#[test]
fn scenario_mod_seven_sub() {
    assert_eq!(fe(3, 7).sub(fe(5, 7)).unwrap(), fe(5, 7));
}

#[test]
fn scenario_mod_seven_mul() {
    assert_eq!(fe(3, 7).mul(fe(5, 7)).unwrap(), fe(1, 7));
}

#[test]
fn scenario_mod_seven_pow() {
    assert_eq!(fe(3, 7).pow(6), fe(1, 7));
}

#[test]
fn scenario_mod_seven_div() {
    assert_eq!(fe(3, 7).div(fe(5, 7)).unwrap(), fe(2, 7));
}

#[test]
fn closure_stays_in_range() {
    let p: u64 = 11;
    for va in 0..p {
        for vb in 0..p {
            let a = fe(va, p);
            let b = fe(vb, p);
            let sum = a.add(b).unwrap();
            let diff = a.sub(b).unwrap();
            let prod = a.mul(b).unwrap();
            assert!(sum.value < p && sum.p == p);
            assert!(diff.value < p && diff.p == p);
            assert!(prod.value < p && prod.p == p);
        }
    }
}

#[test]
fn add_sub_round_trip() {
    let p: u64 = 13;
    for va in 0..p {
        for vb in 0..p {
            let a = fe(va, p);
            let b = fe(vb, p);
            assert_eq!(a.add(b).unwrap().sub(b).unwrap(), a);
        }
    }
}

#[test]
fn mul_identity() {
    let p: u64 = 13;
    let one = fe(1, p);
    for va in 1..p {
        let a = fe(va, p);
        assert_eq!(a.mul(one).unwrap(), a);
    }
}

#[test]
fn fermat_pow_is_one() {
    let p: u64 = 13;
    for va in 1..p {
        assert_eq!(fe(va, p).pow(p - 1), fe(1, p));
    }
}

#[test]
fn div_mul_round_trip() {
    let p: u64 = 13;
    for va in 0..p {
        for vb in 1..p {
            let a = fe(va, p);
            let b = fe(vb, p);
            assert_eq!(a.div(b).unwrap().mul(b).unwrap(), a);
        }
    }
}

#[test]
fn mismatched_modulus_is_refused() {
    let a = fe(3, 7);
    let b = fe(2, 11);
    assert_eq!(a.add(b).unwrap_err(), FieldError::FieldMismatch);
    assert_eq!(a.sub(b).unwrap_err(), FieldError::FieldMismatch);
    assert_eq!(a.mul(b).unwrap_err(), FieldError::FieldMismatch);
    assert_eq!(a.div(b).unwrap_err(), FieldError::FieldMismatch);
}

#[test]
fn mismatched_modulus_leaves_receiver_unchanged() {
    let mut a = fe(3, 7);
    let b = fe(2, 11);
    assert_eq!(a.add_assign(b).unwrap_err(), FieldError::FieldMismatch);
    assert_eq!(a, fe(3, 7));
    assert_eq!(a.sub_assign(b).unwrap_err(), FieldError::FieldMismatch);
    assert_eq!(a, fe(3, 7));
}

#[test]
fn division_by_zero_residue_is_refused() {
    let a = fe(3, 7);
    assert_eq!(a.div(fe(0, 7)).unwrap_err(), FieldError::DivisionByZeroResidue);
}

#[test]
fn assign_forms_update_receiver() {
    let mut a = fe(3, 7);
    a.add_assign(fe(5, 7)).unwrap();
    assert_eq!(a, fe(1, 7));
    a.sub_assign(fe(5, 7)).unwrap();
    assert_eq!(a, fe(3, 7));
}

#[test]
fn pow_edge_exponents() {
    let p: u64 = 7;
    // An exponent of zero reduces to zero multiplications.
    assert_eq!(fe(3, p).pow(0), fe(1, p));
    // Any multiple of p - 1 reduces to zero as well.
    assert_eq!(fe(3, p).pow(12), fe(1, p));
    // A zero base propagates through every remaining multiplication.
    assert_eq!(fe(0, p).pow(3), fe(0, p));
    // One step short of Fermat's exponent gives the inverse: 3 * 5 = 15 = 1 mod 7.
    assert_eq!(fe(3, p).pow(5), fe(5, p));
}

#[test]
fn smallest_field_mod_two() {
    let p: u64 = 2;
    assert_eq!(fe(1, p).add(fe(1, p)).unwrap(), fe(0, p));
    assert_eq!(fe(0, p).sub(fe(1, p)).unwrap(), fe(1, p));
    assert_eq!(fe(1, p).mul(fe(1, p)).unwrap(), fe(1, p));
    assert_eq!(fe(1, p).div(fe(1, p)).unwrap(), fe(1, p));
}

#[test]
fn large_modulus_no_overflow() {
    // The largest 64-bit prime: sums of two representatives would overflow a
    // u64 if the reduction were not arranged to avoid it.
    let p: u64 = 18446744073709551557;
    let a = fe(p - 1, p);
    assert_eq!(a.add(a).unwrap(), fe(p - 2, p));
    assert_eq!(fe(0, p).sub(a).unwrap(), fe(1, p));
    assert_eq!(a.mul(fe(2, p)).unwrap(), fe(p - 2, p));
}

#[test]
fn u128_backing_type() {
    let p: u128 = 340282366920938463463374607431768211297;
    let a: FiniteFieldElement<u128> = FiniteFieldElement::new(p - 1, p);
    let b: FiniteFieldElement<u128> = FiniteFieldElement::new(5, p);
    assert_eq!(a.add(b).unwrap(), FiniteFieldElement::new(4, p));
    assert_eq!(b.sub(a).unwrap(), FiniteFieldElement::new(6, p));
    assert_eq!(a.mul(b).unwrap(), FiniteFieldElement::new(p - 5, p));
    let small: FiniteFieldElement<u128> = FiniteFieldElement::new(3, 7);
    assert_eq!(small.pow(6), FiniteFieldElement::new(1, 7));
    assert_eq!(
        small.div(FiniteFieldElement::new(5, 7)).unwrap(),
        FiniteFieldElement::new(2, 7)
    );
}

#[test]
fn default_number_identities() {
    assert_eq!(u64::zero(), 0);
    assert_eq!(u64::one(), 1);
    assert_eq!(u128::zero(), 0);
    assert_eq!(u128::one(), 1);
}

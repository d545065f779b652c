use ecc::field_element::FieldElement;
use ecc::point::Point;
use ecc::{Error, FieldOps, Pow};

#[derive(Debug, PartialEq, Clone, Copy)]
struct C223;

impl ecc::point::Curve for C223 {
    type Scalar = FieldElement<223>;

    fn spec_a() -> FieldElement<223> {
        FieldElement::<223>::new(0)
    }

    fn spec_b() -> FieldElement<223> {
        FieldElement::<223>::new(7)
    }

    fn a() -> FieldElement<223> {
        FieldElement::<223>::new(0)
    }

    fn b() -> FieldElement<223> {
        FieldElement::<223>::new(7)
    }
}

#[test]
fn field_closure_range() {
    let a = FieldElement::<31>::new(29);
    let b = FieldElement::<31>::new(27);

    assert!(a.num() == 29);
    assert!(a.add(b).num() < 31);
    assert!(a.sub(b).num() < 31);
    assert!(b.sub(a).num() < 31);
    assert!(a.mul(b).num() < 31);
    assert!(a.div(b).num() < 31);
    assert!(a.pow(17).num() < 31);
    assert!(a.pow(-5).num() < 31);
}

#[test]
fn additive_identity_inverse() {
    let a = FieldElement::<57>::new(44);
    let zero = FieldElement::<57>::new(0);
    let inv = FieldElement::<57>::new(57 - 44);

    assert_eq!(a.add(zero), a);
    assert_eq!(zero.add(a), a);
    assert_eq!(a.add(inv), zero);

    assert_eq!(zero.add(zero), zero);
}

#[test]
fn multiplicative_inverse() {
    let one = FieldElement::<31>::new(1);
    let values: [u128; 5] = [1, 2, 17, 24, 30];
    for v in values {
        let a = FieldElement::<31>::new(v);
        assert_eq!(a.mul(a.pow(-1)), one);
    }
}

#[test]
fn fermat_periodicity() {
    let one = FieldElement::<19>::new(1);
    let values: [u128; 4] = [1, 7, 9, 18];
    for v in values {
        let a = FieldElement::<19>::new(v);
        assert_eq!(a.pow(18), one);
    }
}

#[test]
fn division_consistency() {
    let pairs: [(u128, u128); 4] = [(3, 24), (17, 2), (30, 30), (0, 11)];
    for (x, y) in pairs {
        let a = FieldElement::<31>::new(x);
        let b = FieldElement::<31>::new(y);
        assert_eq!(a.div(b).mul(b), a);
    }
}

#[test]
fn checked_sub_narrow_and_wide() {
    let a = FieldElement::<57>::new(9);
    let b = FieldElement::<57>::new(29);
    assert_eq!(a.checked_sub(b), Some(FieldElement::<57>::new(37)));

    const WIDE: u128 = u128::MAX;
    let a = FieldElement::<WIDE>::new(5);
    let b = FieldElement::<WIDE>::new(7);
    assert_eq!(a.checked_sub(b), None);
}

#[test]
fn field_errors() {
    let r = ecc::field_element2::FieldElement::new(57, 57);
    assert!(matches!(r, Err(Error::ValueError(_))));

    let a = ecc::field_element2::FieldElement::new(3, 57).unwrap();
    let b = ecc::field_element2::FieldElement::new(3, 31).unwrap();
    let r = a.add(b);
    assert!(matches!(r, Err(Error::ValueError(_))));

    let a = ecc::field_element2::FieldElement::new(3, 57).unwrap();
    let b = ecc::field_element2::FieldElement::new(3, 31).unwrap();
    let r = a.sub(b);
    assert!(matches!(r, Err(Error::ValueError(_))));
}

#[test]
fn runtime_field_accessors() {
    let a = ecc::field_element2::FieldElement::new(44, 57).unwrap();
    assert_eq!(a.num(), 44);
    assert_eq!(a.prime(), 57);
}

#[test]
fn point_not_on_curve_error() {
    let r = Point::<C223>::new(Some((
        FieldElement::<223>::new(200),
        FieldElement::<223>::new(119),
    )));
    assert!(matches!(r, Err(Error::ValueError(_))));
}

#[test]
fn point_add_identity() {
    let p = Point::<C223>::new(Some((
        FieldElement::<223>::new(192),
        FieldElement::<223>::new(105),
    )))
    .unwrap();
    let infinity = Point::<C223>::new(None).unwrap();

    assert_eq!(p.add(infinity), p);
    assert_eq!(infinity.add(p), p);
    assert_eq!(infinity.add(infinity), infinity);
}

#[test]
fn self_inverse_cancels() {
    let p = Point::<C223>::new(Some((
        FieldElement::<223>::new(47),
        FieldElement::<223>::new(71),
    )))
    .unwrap();
    let q = Point::<C223>::new(Some((
        FieldElement::<223>::new(47),
        FieldElement::<223>::new(223 - 71),
    )))
    .unwrap();
    let infinity = Point::<C223>::new(None).unwrap();

    assert_eq!(p.add(q), infinity);
}

#[test]
fn double_and_add_equivalence() {
    let p = Point::<C223>::new(Some((
        FieldElement::<223>::new(47),
        FieldElement::<223>::new(71),
    )))
    .unwrap();
    let infinity = Point::<C223>::new(None).unwrap();

    let scalars: [i32; 4] = [2, 4, 8, 21];
    for k in scalars {
        let mut acc = infinity;
        for _ in 0..k {
            acc = acc.add(p);
        }
        assert_eq!(p.scalar_mul(k), acc);
    }

    // The group order of this base point sends it back to the identity.
    assert_eq!(p.scalar_mul(21), infinity);
}

#[test]
fn scalar_mul_negative_is_identity() {
    let p = Point::<C223>::new(Some((
        FieldElement::<223>::new(47),
        FieldElement::<223>::new(71),
    )))
    .unwrap();
    let infinity = Point::<C223>::new(None).unwrap();

    assert_eq!(p.scalar_mul(-3), infinity);
}

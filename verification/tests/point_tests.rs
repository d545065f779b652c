use ecc::field_element::FieldElement;
use ecc::point::Point;

#[derive(Debug, PartialEq)]
struct Curve;

impl ecc::point::Curve for Curve {
    type Scalar = i128;

    fn spec_a() -> i128 {
        5
    }

    fn spec_b() -> i128 {
        7
    }

    fn a() -> i128 {
        5
    }

    fn b() -> i128 {
        7
    }
}

#[test]
fn exercise1_again() {
    let p = Point::<Curve>::new(Some((-2, -4)));
    assert!(p.is_err());

    let p = Point::<Curve>::new(Some((-1, -1)));
    assert!(p.is_ok());

    let p = Point::<Curve>::new(Some((18, 77)));
    assert!(p.is_ok());

    let p = Point::<Curve>::new(Some((5, 7)));
    assert!(p.is_err());
}

#[test]
fn exercise6_again() {
    let p1 = Point::<Curve>::new(Some((-1, -1))).unwrap();
    let p2 = Point::<Curve>::new(Some((-1, -1))).unwrap();

    let expected = ecc::point::Point::<Curve>::new(Some((18, 77))).unwrap();
    let actual = p1.add(p2);

    assert_eq!(actual, expected);
}

const P: u128 = 223;

#[derive(Debug, PartialEq, Clone, Copy)]
struct Secp256k1;

impl ecc::point::Curve for Secp256k1 {
    type Scalar = FieldElement<P>;

    fn spec_a() -> FieldElement<P> {
        FieldElement::<P>::new(0)
    }

    fn spec_b() -> FieldElement<P> {
        FieldElement::<P>::new(7)
    }

    fn a() -> FieldElement<P> {
        FieldElement::<P>::new(0)
    }

    fn b() -> FieldElement<P> {
        FieldElement::<P>::new(7)
    }
}

#[test]
fn ecc_test() {
    let p = Point::<Secp256k1>::new(Some((
        FieldElement::<P>::new(192),
        FieldElement::<P>::new(105),
    )));

    assert!(p.is_ok());

    let p = ecc::point::Point::<Secp256k1>::new(Some((
        FieldElement::<P>::new(17),
        FieldElement::<P>::new(56),
    )));

    assert!(p.is_ok());

    let p = ecc::point::Point::<Secp256k1>::new(Some((
        FieldElement::<P>::new(1),
        FieldElement::<P>::new(193),
    )));

    assert!(p.is_ok());

    let p = ecc::point::Point::<Secp256k1>::new(Some((
        FieldElement::<P>::new(200),
        FieldElement::<P>::new(119),
    )));

    assert!(p.is_err());

    let p = ecc::point::Point::<Secp256k1>::new(Some((
        FieldElement::<P>::new(42),
        FieldElement::<P>::new(99),
    )));

    assert!(p.is_err());
}

#[test]
fn exercise3() {
    let p1 = Point::<Secp256k1>::new(Some((
        FieldElement::<P>::new(170),
        FieldElement::<P>::new(142),
    )))
    .unwrap();

    let p2 = Point::<Secp256k1>::new(Some((
        FieldElement::<P>::new(60),
        FieldElement::<P>::new(139),
    )))
    .unwrap();

    let expected = Point::<Secp256k1>::new(Some((
        FieldElement::<P>::new(220),
        FieldElement::<P>::new(181),
    )))
    .unwrap();

    let actual = p1.add(p2);

    assert_eq!(actual, expected);

    let p1 = Point::<Secp256k1>::new(Some((
        FieldElement::<P>::new(47),
        FieldElement::<P>::new(71),
    )))
    .unwrap();

    let p2 = Point::<Secp256k1>::new(Some((
        FieldElement::<P>::new(17),
        FieldElement::<P>::new(56),
    )))
    .unwrap();

    let expected = Point::<Secp256k1>::new(Some((
        FieldElement::<P>::new(215),
        FieldElement::<P>::new(68),
    )))
    .unwrap();

    let actual = p1.add(p2);

    assert_eq!(actual, expected);

    let p1 = Point::<Secp256k1>::new(Some((
        FieldElement::<P>::new(143),
        FieldElement::<P>::new(98),
    )))
    .unwrap();

    let p2 = Point::<Secp256k1>::new(Some((
        FieldElement::<P>::new(76),
        FieldElement::<P>::new(66),
    )))
    .unwrap();

    let expected = Point::<Secp256k1>::new(Some((
        FieldElement::<P>::new(47),
        FieldElement::<P>::new(71),
    )))
    .unwrap();

    let actual = p1.add(p2);

    assert_eq!(actual, expected);
}

#[test]
fn exercise4() {
    let p = Point::<Secp256k1>::new(Some((
        FieldElement::<P>::new(192),
        FieldElement::<P>::new(105),
    )))
    .unwrap();

    let actual = p.scalar_mul(2);

    let expected = Point::<Secp256k1>::new(Some((
        FieldElement::<P>::new(49),
        FieldElement::<P>::new(71),
    )))
    .unwrap();

    assert_eq!(actual, expected);

    let p = Point::<Secp256k1>::new(Some((
        FieldElement::<P>::new(143),
        FieldElement::<P>::new(98),
    )))
    .unwrap();

    let actual = p.scalar_mul(2);

    let expected = Point::<Secp256k1>::new(Some((
        FieldElement::<P>::new(64),
        FieldElement::<P>::new(168),
    )))
    .unwrap();

    assert_eq!(actual, expected);

    let p = Point::<Secp256k1>::new(Some((
        FieldElement::<P>::new(47),
        FieldElement::<P>::new(71),
    )))
    .unwrap();

    let actual = p.scalar_mul(2);

    let expected = Point::<Secp256k1>::new(Some((
        FieldElement::<P>::new(36),
        FieldElement::<P>::new(111),
    )))
    .unwrap();

    assert_eq!(actual, expected);

    let p = Point::<Secp256k1>::new(Some((
        FieldElement::<P>::new(47),
        FieldElement::<P>::new(71),
    )))
    .unwrap();

    let actual = p.scalar_mul(4);

    let expected = Point::<Secp256k1>::new(Some((
        FieldElement::<P>::new(194),
        FieldElement::<P>::new(51),
    )))
    .unwrap();

    assert_eq!(actual, expected);

    let p = Point::<Secp256k1>::new(Some((
        FieldElement::<P>::new(47),
        FieldElement::<P>::new(71),
    )))
    .unwrap();

    let actual = p.scalar_mul(8);

    let expected = Point::<Secp256k1>::new(Some((
        FieldElement::<P>::new(116),
        FieldElement::<P>::new(55),
    )))
    .unwrap();

    assert_eq!(actual, expected);

    let p = Point::<Secp256k1>::new(Some((
        FieldElement::<P>::new(47),
        FieldElement::<P>::new(71),
    )))
    .unwrap();

    let actual = p.scalar_mul(21);
    let expected = Point::<Secp256k1>::new(None).unwrap();

    assert_eq!(actual, expected);
}

use vstd::prelude::*;
use vstd::arithmetic::power::{
    lemma0_pow, lemma_pow0, lemma_pow1, lemma_pow_adds, lemma_pow_increases,
    lemma_pow_strictly_increases, pow,
};
use vstd::arithmetic::mul::{
    lemma_mul_cancels_negatives, lemma_mul_nonnegative, lemma_mul_unary_negation,
};
use vstd::math::abs;
use crate::{Error, FieldOps, Pow};
use crate::field_element::FieldElement;

verus! {

/// A curve descriptor: the coefficients of the short Weierstrass equation
/// `y² = x³ + A·x + B`, fixed once for the whole family of points.
pub trait Curve: Sized {
    type Scalar: FieldOps;

    /// The coefficient `A`.
    spec fn spec_a() -> Self::Scalar;

    /// The coefficient `B`.
    spec fn spec_b() -> Self::Scalar;

    fn a() -> (r: Self::Scalar)
        ensures
            r == Self::spec_a(),
    ;

    fn b() -> (r: Self::Scalar)
        ensures
            r == Self::spec_b(),
    ;
}

/// Rust's truncating division as a mathematical function: the semantics of
/// `/` on the machine's signed integers.
pub open spec fn trunc_div(x: int, d: int) -> int {
    if x == 0 {
        0
    } else if x > 0 && d > 0 {
        x / d
    } else if x < 0 && d < 0 {
        (x * -1) / (d * -1)
    } else if x < 0 {
        ((x * -1) / d) * -1
    } else {
        (x / (d * -1)) * -1
    }
}

/// The magnitude of a power is the power of the magnitude.
proof fn lemma_abs_pow(v: int, c: nat)
    ensures
        abs(pow(v, c)) == pow(abs(v) as int, c),
    decreases c,
{
    if c == 0 {
        lemma_pow0(v);
        lemma_pow0(abs(v) as int);
    } else {
        lemma_abs_pow(v, (c - 1) as nat);
        let w = pow(v, (c - 1) as nat);
        assert(pow(v, c) == v * w) by {
            lemma_pow1(v);
            lemma_pow_adds(v, 1, (c - 1) as nat);
        }
        assert(pow(abs(v) as int, c) == abs(v) * abs(w)) by {
            lemma_pow1(abs(v) as int);
            lemma_pow_adds(abs(v) as int, 1, (c - 1) as nat);
        }
        if v >= 0 && w >= 0 {
            lemma_mul_nonnegative(v, w);
        } else if v >= 0 && w < 0 {
            lemma_mul_unary_negation(v, w);
            lemma_mul_nonnegative(v, -w);
        } else if v < 0 && w >= 0 {
            lemma_mul_unary_negation(v, w);
            lemma_mul_nonnegative(-v, w);
        } else {
            lemma_mul_cancels_negatives(v, w);
            lemma_mul_nonnegative(-v, -w);
        }
    }
}

/// One more multiplication of the power ladder stays within the machine
/// width, as long as the final power does.
proof fn lemma_pow_step_fits(v: int, c: nat, e: nat)
    requires
        c < e,
        -(i128::MAX as int + 1) <= pow(v, e) <= i128::MAX as int,
    ensures
        -(i128::MAX as int + 1) <= pow(v, c) * v <= i128::MAX as int,
        pow(v, c) * v == pow(v, (c + 1) as nat),
{
    assert(pow(v, (c + 1) as nat) == pow(v, c) * v) by {
        lemma_pow1(v);
        lemma_pow_adds(v, c, 1);
    }
    if v == 0 {
        lemma0_pow((c + 1) as nat);
    } else {
        lemma_abs_pow(v, (c + 1) as nat);
        lemma_abs_pow(v, e);
        let b = abs(v);
        lemma_pow_increases(b, (c + 1) as nat, e);
        if abs(pow(v, (c + 1) as nat)) > i128::MAX as int {
            assert(pow(b as int, (c + 1) as nat) == i128::MAX as int + 1);
            assert(pow(b as int, e) == i128::MAX as int + 1);
            if b >= 2 && c + 1 < e {
                lemma_pow_strictly_increases(b, (c + 1) as nat, e);
                assert(false);
            }
            if b <= 1 {
                vstd::arithmetic::power::lemma1_pow((c + 1) as nat);
                assert(false);
            }
        }
    }
}

impl Pow for i128 {
    type Output = i128;

    /// Defined for nonnegative exponents whose power stays in width: the
    /// machine integers have no multiplicative inverses to offer.
    open spec fn pow_req(self, exponent: int) -> bool {
        &&& 0 <= exponent
        &&& -(i128::MAX as int + 1) <= pow(self as int, exponent as nat) <= i128::MAX as int
    }

    open spec fn spec_pow(self, exponent: int) -> i128 {
        pow(self as int, exponent as nat) as i128
    }

    fn pow(self, rhs: i32) -> (r: i128) {
        let e: u32 = rhs as u32;
        let mut counter: u32 = 0;
        let mut aux: i128 = 1;
        proof {
            lemma_pow0(self as int);
        }
        while counter < e
            invariant
                counter <= e,
                e == rhs as int,
                -(i128::MAX as int + 1) <= pow(self as int, e as nat) <= i128::MAX as int,
                aux == pow(self as int, counter as nat),
            decreases e - counter,
        {
            proof {
                lemma_pow_step_fits(self as int, counter as nat, e as nat);
            }
            aux = aux * self;
            counter = counter + 1;
        }
        aux
    }
}

impl FieldOps for i128 {
    /// Machine addition: defined where the sum stays in width.
    open spec fn add_req(self, other: Self) -> bool {
        -(i128::MAX as int + 1) <= (self as int) + (other as int) <= i128::MAX as int
    }

    open spec fn spec_add(self, other: Self) -> Self {
        ((self as int) + (other as int)) as i128
    }

    fn add(self, other: Self) -> (r: Self) {
        self + other
    }

    /// Machine subtraction: defined where the difference stays in width.
    open spec fn sub_req(self, other: Self) -> bool {
        -(i128::MAX as int + 1) <= (self as int) - (other as int) <= i128::MAX as int
    }

    open spec fn spec_sub(self, other: Self) -> Self {
        ((self as int) - (other as int)) as i128
    }

    fn sub(self, other: Self) -> (r: Self) {
        self - other
    }

    /// Machine multiplication: defined where the product stays in width.
    open spec fn mul_req(self, other: Self) -> bool {
        -(i128::MAX as int + 1) <= (self as int) * (other as int) <= i128::MAX as int
    }

    open spec fn spec_mul(self, other: Self) -> Self {
        ((self as int) * (other as int)) as i128
    }

    fn mul(self, other: Self) -> (r: Self) {
        self * other
    }

    /// Machine division truncates toward zero; it is defined for a nonzero
    /// divisor where the quotient stays in width.
    open spec fn div_req(self, other: Self) -> bool {
        &&& other != 0
        &&& -(i128::MAX as int + 1) <= trunc_div(self as int, other as int) <= i128::MAX as int
    }

    open spec fn spec_div(self, other: Self) -> Self {
        trunc_div(self as int, other as int) as i128
    }

    fn div(self, other: Self) -> (r: Self) {
        self.checked_div(other).unwrap()
    }

    /// Every small constant exists among the machine integers.
    open spec fn small_req(n: u64) -> bool {
        true
    }

    open spec fn spec_from_small(n: u64) -> i128 {
        n as i128
    }

    fn from_small(n: u64) -> (r: i128) {
        n as i128
    }

    fn eq_val(self, other: Self) -> (r: bool) {
        self == other
    }
}

/// A point of the curve `C`: either the group identity (the point at
/// infinity) or a real coordinate pair satisfying the curve equation.
#[derive(Debug, Clone, Copy, PartialEq)]
pub enum Point<C: Curve> {
    Real(C::Scalar, C::Scalar),
    Infinity,
}

impl<C: Curve> Point<C> {
    /// The scalar standing for the small constant `n`.
    pub open spec fn small(n: u64) -> C::Scalar {
        C::Scalar::spec_from_small(n)
    }

    /// The curve membership equation `y² = x³ + A·x + B`.
    pub open spec fn on_curve(x: C::Scalar, y: C::Scalar) -> bool {
        y.spec_pow(2) == x.spec_pow(3).spec_add(C::spec_a().spec_mul(x)).spec_add(C::spec_b())
    }

    /// Where the curve membership test is defined: every operation it takes
    /// lies within its domain.
    pub open spec fn curve_eq_req(x: C::Scalar, y: C::Scalar) -> bool {
        &&& y.pow_req(2)
        &&& x.pow_req(3)
        &&& C::spec_a().mul_req(x)
        &&& x.spec_pow(3).add_req(C::spec_a().spec_mul(x))
        &&& x.spec_pow(3).spec_add(C::spec_a().spec_mul(x)).add_req(C::spec_b())
    }

    /// The validating constructor: no coordinates give the identity, and a
    /// coordinate pair is accepted exactly when it satisfies the curve
    /// equation; anything else is reported, never a panic.
    pub fn new(point: Option<(C::Scalar, C::Scalar)>) -> (r: Result<Point<C>, Error>)
        requires
            point matches Some(p) ==> Self::curve_eq_req(p.0, p.1),
        ensures
            match point {
                None => r == Ok::<Point<C>, Error>(Point::<C>::Infinity),
                Some(p) => if Self::on_curve(p.0, p.1) {
                    r == Ok::<Point<C>, Error>(Point::<C>::Real(p.0, p.1))
                } else {
                    r matches Err(Error::ValueError(_))
                },
            },
    {
        match point {
            None => Ok(Point::Infinity),
            Some((x, y)) => {
                let lhs = y.pow(2);
                let rhs = x.pow(3).add(C::a().mul(x)).add(C::b());
                if !lhs.eq_val(rhs) {
                    return Err(Error::ValueError("point is not on the curve".to_owned()));
                }
                Ok(Point::Real(x, y))
            },
        }
    }

    /// Executable equality of points, agreeing with mathematical equality.
    pub fn eq_point(&self, other: &Point<C>) -> (r: bool)
        ensures
            r == (self == other),
    {
        match (self, other) {
            (Point::Real(x, y), Point::Real(ox, oy)) => x.eq_val(*ox) && y.eq_val(*oy),
            (Point::Infinity, Point::Infinity) => true,
            _ => false,
        }
    }

    /// The tangent slope at a point with nonzero `y`: `(3·x² + A) / (2·y)`.
    pub open spec fn spec_slope_tangent(x: C::Scalar, y: C::Scalar) -> C::Scalar {
        Self::small(3).spec_mul(x.spec_pow(2)).spec_add(C::spec_a()).spec_div(
            Self::small(2).spec_mul(y),
        )
    }

    /// The secant slope through two points with distinct `x`.
    pub open spec fn spec_slope_secant(
        x: C::Scalar,
        y: C::Scalar,
        ox: C::Scalar,
        oy: C::Scalar,
    ) -> C::Scalar {
        oy.spec_sub(y).spec_div(ox.spec_sub(x))
    }

    /// The chord-and-tangent rule: where the slope line meets the curve
    /// again, reflected. `new_x = s² − x1 − x2`, `new_y = s·(x1 − new_x) − y1`.
    pub open spec fn spec_chord(s: C::Scalar, x: C::Scalar, ox: C::Scalar, y: C::Scalar) -> Point<
        C,
    > {
        let nx = s.spec_pow(2).spec_sub(x).spec_sub(ox);
        let ny = s.spec_mul(x.spec_sub(nx)).spec_sub(y);
        Point::Real(nx, ny)
    }

    /// Where the tangent slope is defined.
    pub open spec fn tangent_req(x: C::Scalar, y: C::Scalar) -> bool {
        &&& C::Scalar::small_req(3)
        &&& C::Scalar::small_req(2)
        &&& x.pow_req(2)
        &&& Self::small(3).mul_req(x.spec_pow(2))
        &&& Self::small(3).spec_mul(x.spec_pow(2)).add_req(C::spec_a())
        &&& Self::small(2).mul_req(y)
        &&& Self::small(3).spec_mul(x.spec_pow(2)).spec_add(C::spec_a()).div_req(
            Self::small(2).spec_mul(y),
        )
    }

    /// Where the secant slope is defined.
    pub open spec fn secant_req(
        x: C::Scalar,
        y: C::Scalar,
        ox: C::Scalar,
        oy: C::Scalar,
    ) -> bool {
        &&& oy.sub_req(y)
        &&& ox.sub_req(x)
        &&& oy.spec_sub(y).div_req(ox.spec_sub(x))
    }

    /// Where the chord formula is defined.
    pub open spec fn chord_req(s: C::Scalar, x: C::Scalar, ox: C::Scalar, y: C::Scalar) -> bool {
        let nx = s.spec_pow(2).spec_sub(x).spec_sub(ox);
        &&& s.pow_req(2)
        &&& s.spec_pow(2).sub_req(x)
        &&& s.spec_pow(2).spec_sub(x).sub_req(ox)
        &&& x.sub_req(nx)
        &&& s.mul_req(x.spec_sub(nx))
        &&& s.spec_mul(x.spec_sub(nx)).sub_req(y)
    }

    /// The full addition law, by cases: identity on either side, the
    /// vertical-line case, doubling (with a vertical tangent when `y = 0`),
    /// and the generic chord case.
    pub open spec fn spec_add_points(p1: Point<C>, p2: Point<C>) -> Point<C> {
        match (p1, p2) {
            (Point::Real(_, _), Point::Infinity) => p1,
            (Point::Infinity, Point::Real(_, _)) => p2,
            (Point::Infinity, Point::Infinity) => Point::Infinity,
            (Point::Real(x, y), Point::Real(ox, oy)) => if x == ox && y != oy {
                Point::Infinity
            } else if p1 == p2 {
                if y == Self::small(0) {
                    Point::Infinity
                } else {
                    Self::spec_chord(Self::spec_slope_tangent(x, y), x, ox, y)
                }
            } else {
                Self::spec_chord(Self::spec_slope_secant(x, y, ox, oy), x, ox, y)
            },
        }
    }

    /// Where the addition law is defined: every scalar operation on the path
    /// actually taken lies within its domain.
    pub open spec fn add_points_req(p1: Point<C>, p2: Point<C>) -> bool {
        match (p1, p2) {
            (Point::Real(x, y), Point::Real(ox, oy)) => if x == ox && y != oy {
                true
            } else if p1 == p2 {
                &&& C::Scalar::small_req(0)
                &&& (y != Self::small(0) ==> Self::tangent_req(x, y) && Self::chord_req(
                    Self::spec_slope_tangent(x, y),
                    x,
                    ox,
                    y,
                ))
            } else {
                Self::secant_req(x, y, ox, oy) && Self::chord_req(
                    Self::spec_slope_secant(x, y, ox, oy),
                    x,
                    ox,
                    y,
                )
            },
            _ => true,
        }
    }

    /// The geometric addition law. Total over the identity and vertical
    /// cases; the slope cases are defined wherever the scalar arithmetic is.
    pub fn add(self, rhs: Self) -> (r: Self)
        requires
            Self::add_points_req(self, rhs),
        ensures
            r == Self::spec_add_points(self, rhs),
    {
        match (&self, &rhs) {
            (Point::Real(_, _), Point::Infinity) => self,
            (Point::Infinity, Point::Real(_, _)) => rhs,
            (Point::Infinity, Point::Infinity) => Point::Infinity,
            (Point::Real(x, y), Point::Real(other_x, other_y)) => {
                if x.eq_val(*other_x) && !y.eq_val(*other_y) {
                    return Point::Infinity;
                }
                let slope = if self.eq_point(&rhs) {
                    let zero = C::Scalar::from_small(0);
                    if y.eq_val(zero) {
                        return Point::Infinity;
                    }
                    let three = C::Scalar::from_small(3);
                    let two = C::Scalar::from_small(2);
                    three.mul(x.pow(2)).add(C::a()).div(two.mul(*y))
                } else {
                    other_y.sub(*y).div(other_x.sub(*x))
                };
                let new_x = slope.pow(2).sub(*x).sub(*other_x);
                let new_y = slope.mul(x.sub(new_x)).sub(*y);
                Point::Real(new_x, new_y)
            },
        }
    }

    /// Adding the identity on either side leaves any point unchanged, and
    /// such an addition is always defined.
    pub proof fn lemma_add_identity(p: Point<C>)
        ensures
            Self::spec_add_points(p, Point::Infinity) == p,
            Self::spec_add_points(Point::Infinity, p) == p,
            Self::add_points_req(p, Point::Infinity),
            Self::add_points_req(Point::Infinity, p),
    {
    }

    /// A point and any point straight above or below it — same `x`,
    /// different `y` — add to the identity, and such an addition is always
    /// defined.
    pub proof fn lemma_add_vertical(x: C::Scalar, y: C::Scalar, oy: C::Scalar)
        requires
            y != oy,
        ensures
            Self::spec_add_points(Point::Real(x, y), Point::Real(x, oy)) == Point::<C>::Infinity,
            Self::add_points_req(Point::Real(x, y), Point::Real(x, oy)),
    {
    }
}

impl<C: Curve + Copy> Point<C> {
    /// The double-and-add ladder, one halving step at a time: what
    /// `scalar_mul` computes.
    pub open spec fn spec_dbl_add(acc: Point<C>, cur: Point<C>, k: nat) -> Point<C>
        decreases k,
    {
        if k == 0 {
            acc
        } else {
            let acc2 = if k % 2 == 1 {
                Self::spec_add_points(acc, cur)
            } else {
                acc
            };
            Self::spec_dbl_add(acc2, Self::spec_add_points(cur, cur), k / 2)
        }
    }

    /// Where every addition the ladder performs is defined.
    pub open spec fn dbl_add_req(acc: Point<C>, cur: Point<C>, k: nat) -> bool
        decreases k,
    {
        k > 0 ==> {
            let acc2 = if k % 2 == 1 {
                Self::spec_add_points(acc, cur)
            } else {
                acc
            };
            &&& (k % 2 == 1 ==> Self::add_points_req(acc, cur))
            &&& Self::add_points_req(cur, cur)
            &&& Self::dbl_add_req(acc2, Self::spec_add_points(cur, cur), k / 2)
        }
    }

    /// Scalar multiplication over the binary digits of the scalar: starting
    /// from the identity, add the running point at every set bit and double
    /// it at every step. A negative scalar is out of the design's scope and
    /// yields the identity.
    pub fn scalar_mul(self, scalar: i32) -> (r: Point<C>)
        requires
            scalar >= 0 ==> Self::dbl_add_req(Point::Infinity, self, scalar as nat),
        ensures
            scalar >= 0 ==> r == Self::spec_dbl_add(Point::Infinity, self, scalar as nat),
            scalar < 0 ==> r == Point::<C>::Infinity,
    {
        let mut coef = scalar;
        let mut current = self;
        let mut result = Point::Infinity;
        while coef > 0
            invariant
                scalar < 0 ==> coef == scalar && result == Point::<C>::Infinity,
                scalar >= 0 ==> {
                    &&& 0 <= coef <= scalar
                    &&& Self::dbl_add_req(result, current, coef as nat)
                    &&& Self::spec_dbl_add(result, current, coef as nat) == Self::spec_dbl_add(
                        Point::Infinity,
                        self,
                        scalar as nat,
                    )
                },
            decreases coef,
        {
            proof {
                assert((coef & 1 == 1) <==> coef % 2 == 1) by (bit_vector)
                    requires
                        coef > 0,
                ;
                assert(coef >> 1 == coef / 2) by (bit_vector)
                    requires
                        coef > 0,
                ;
            }
            if coef & 1 == 1 {
                result = result.add(current);
            }
            current = current.add(current);
            coef = coef >> 1;
        }
        result
    }

    /// The ladder agrees with plain repeated addition for the smallest
    /// scalars: one copy of the point, and the point added to itself.
    pub proof fn lemma_dbl_add_small(p: Point<C>)
        ensures
            Self::spec_dbl_add(Point::Infinity, p, 1) == p,
            Self::spec_dbl_add(Point::Infinity, p, 2) == Self::spec_add_points(p, p),
    {
        let p2 = Self::spec_add_points(p, p);
        Self::lemma_add_identity(p);
        Self::lemma_add_identity(p2);
        assert(Self::spec_dbl_add(p, Self::spec_add_points(p, p), 0) == p);
        assert(Self::spec_dbl_add(p2, Self::spec_add_points(p2, p2), 0) == p2);
        assert(Self::spec_dbl_add(Point::Infinity, p2, 1) == p2);
    }
}

/// Whether every real coordinate of a point over the field of modulus `P`
/// is a reduced residue.
pub open spec fn field_point_wf<C, const P: u128>(p: Point<C>) -> bool where
    C: Curve<Scalar = FieldElement<P>>,
{
    p matches Point::Real(x, y) ==> x.wf() && y.wf()
}

/// Over a field wide enough for the exponent reduction, the curve
/// membership test is always defined.
pub proof fn lemma_field_curve_eq_total<C, const P: u128>(
    x: FieldElement<P>,
    y: FieldElement<P>,
) where C: Curve<Scalar = FieldElement<P>>
    requires
        P >= 2,
        P as int - 1 <= i128::MAX as int,
    ensures
        Point::<C>::curve_eq_req(x, y),
{
}

/// Over a field with an odd modulus above three, the addition law is total:
/// its precondition holds for every pair of well-formed points. (An odd
/// modulus is all the proof needs of primality.)
pub proof fn lemma_field_add_total<C, const P: u128>(p1: Point<C>, p2: Point<C>) where
    C: Curve<Scalar = FieldElement<P>>,
    requires
        P > 3,
        P % 2 == 1,
        P as int - 1 <= i128::MAX as int,
        field_point_wf(p1),
        field_point_wf(p2),
    ensures
        Point::<C>::add_points_req(p1, p2),
{
    if let (Point::Real(x, y), Point::Real(ox, oy)) = (p1, p2) {
        FieldElement::<P>::lemma_from_value(0);
        FieldElement::<P>::lemma_from_value(2);
        FieldElement::<P>::lemma_from_value(3);
        if x == ox && y != oy {
        } else if p1 == p2 {
            if y != Point::<C>::small(0) {
                let yv = y.value();
                assert(yv != 0) by {
                    if yv == 0 {
                        FieldElement::<P>::lemma_value_injective(y, FieldElement::from_value(0));
                    }
                }
                let twoy = Point::<C>::small(2).spec_mul(y);
                FieldElement::<P>::lemma_mod_value(2 * yv);
                assert(twoy.value() != 0) by {
                    if 2 * yv < P {
                        vstd::arithmetic::div_mod::lemma_small_mod((2 * yv) as nat, P as nat);
                    } else {
                        vstd::arithmetic::div_mod::lemma_mod_multiples_vanish(-1, 2 * yv, P as int);
                        vstd::arithmetic::div_mod::lemma_small_mod(
                            (2 * yv - P) as nat,
                            P as nat,
                        );
                    }
                }
            }
        } else {
            let d = ox.spec_sub(x);
            assert(x.value() != ox.value()) by {
                if x.value() == ox.value() {
                    FieldElement::<P>::lemma_value_injective(x, ox);
                }
            }
            FieldElement::<P>::lemma_mod_value(ox.value() - x.value());
            assert(d.value() != 0) by {
                FieldElement::<P>::lemma_sub_mod_cases(ox.value(), x.value());
            }
        }
    }
}

/// Over a field, every point the addition law produces is itself
/// well-formed: the chord formulas re-reduce both coordinates.
pub proof fn lemma_field_add_wf<C, const P: u128>(p1: Point<C>, p2: Point<C>) where
    C: Curve<Scalar = FieldElement<P>>,
    requires
        P >= 1,
        field_point_wf(p1),
        field_point_wf(p2),
    ensures
        field_point_wf(Point::<C>::spec_add_points(p1, p2)),
{
    if let (Point::Real(x, y), Point::Real(ox, oy)) = (p1, p2) {
        let r = Point::<C>::spec_add_points(p1, p2);
        if let Point::Real(nx, ny) = r {
            let s = if p1 == p2 {
                Point::<C>::spec_slope_tangent(x, y)
            } else {
                Point::<C>::spec_slope_secant(x, y, ox, oy)
            };
            FieldElement::<P>::lemma_mod_value(
                s.spec_pow(2).spec_sub(x).value() - ox.value(),
            );
            FieldElement::<P>::lemma_mod_value(
                s.spec_mul(x.spec_sub(nx)).value() - y.value(),
            );
        }
    }
}

/// Over a field with an odd modulus above three, the double-and-add ladder
/// is total: every addition it performs is defined, whatever the scalar.
pub proof fn lemma_field_dbl_add_total<C, const P: u128>(
    acc: Point<C>,
    cur: Point<C>,
    k: nat,
) where C: Curve<Scalar = FieldElement<P>> + Copy
    requires
        P > 3,
        P % 2 == 1,
        P as int - 1 <= i128::MAX as int,
        field_point_wf(acc),
        field_point_wf(cur),
    ensures
        Point::<C>::dbl_add_req(acc, cur, k),
    decreases k,
{
    if k > 0 {
        lemma_field_add_total(acc, cur);
        lemma_field_add_total(cur, cur);
        lemma_field_add_wf(acc, cur);
        lemma_field_add_wf(cur, cur);
        let acc2 = if k % 2 == 1 {
            Point::<C>::spec_add_points(acc, cur)
        } else {
            acc
        };
        lemma_field_dbl_add_total(acc2, Point::<C>::spec_add_points(cur, cur), k / 2);
    }
}

/// Over a prime field, a real point `(x, y)` with `y ≠ 0` and its mirror
/// `(x, P − y)` add to the identity: the vertical-line case of the law.
/// (`2·y ≠ P` always holds there, since a prime modulus above two is odd.)
pub proof fn lemma_field_self_inverse<C, const P: u128>(
    x: FieldElement<P>,
    y: FieldElement<P>,
    yneg: FieldElement<P>,
) where C: Curve<Scalar = FieldElement<P>>
    requires
        y.wf(),
        y.value() != 0,
        2 * y.value() != P as int,
        yneg.value() == P as int - y.value(),
    ensures
        Point::<C>::spec_add_points(Point::Real(x, y), Point::Real(x, yneg))
            == Point::<C>::Infinity,
        Point::<C>::add_points_req(Point::Real(x, y), Point::Real(x, yneg)),
{
    assert(y.value() != yneg.value());
    Point::<C>::lemma_add_vertical(x, y, yneg);
}

} // verus!

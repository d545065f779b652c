use vstd::prelude::*;
use vstd::arithmetic::div_mod::{
    lemma_add_mod_noop, lemma_mod_bound, lemma_mod_multiples_vanish, lemma_mul_mod_noop_right,
    lemma_small_mod,
};
use vstd::arithmetic::mul::lemma_mul_is_distributive_add;
use vstd::arithmetic::power::pow;
use crate::{FieldOps, Pow};

verus! {

/// An integer residue modulo the prime parameter `P`, kept in `[0, P)`.
///
/// The modulus is part of the type, so elements of different fields can
/// never be combined: a mismatch is a type error, not a runtime check.
#[derive(Debug, PartialEq, Eq, Clone, Copy)]
pub struct FieldElement<const P: u128>(u128);

impl<const P: u128> FieldElement<P> {
    /// The residue this element stands for.
    pub closed spec fn value(self) -> int {
        self.0 as int
    }

    /// The element standing for `v`; meaningful only for `0 <= v < P`.
    pub closed spec fn from_value(v: int) -> Self {
        FieldElement(v as u128)
    }

    /// Every element ever constructed holds a value already reduced into
    /// `[0, P)`.
    #[verifier::type_invariant]
    pub open spec fn wf(self) -> bool {
        0 <= self.value() < P
    }

    /// `from_value` stands for exactly the value it was given, within range.
    pub proof fn lemma_from_value(v: int)
        requires
            0 <= v < P,
        ensures
            Self::from_value(v).value() == v,
            Self::from_value(v).wf(),
    {
    }

    /// Two elements with the same value are the same element.
    pub proof fn lemma_value_injective(a: Self, b: Self)
        requires
            a.value() == b.value(),
        ensures
            a == b,
    {
    }

    /// A residue taken modulo `P` is a well-formed value.
    pub proof fn lemma_mod_value(v: int)
        requires
            P >= 1,
        ensures
            0 <= v % (P as int) < P,
            Self::from_value(v % (P as int)).value() == v % (P as int),
            Self::from_value(v % (P as int)).wf(),
    {
        lemma_mod_bound(v, P as int);
    }

    /// The validating constructor: accepts exactly the values already in
    /// `[0, P)`.
    pub fn new(num: u128) -> (r: Self)
        requires
            num < P,
        ensures
            r.value() == num,
    {
        FieldElement(num)
    }

    /// The reduced value, as the underlying machine integer.
    pub fn num(self) -> (r: u128)
        ensures
            r == self.value(),
    {
        self.0
    }

    /// Subtraction in the field, guarded against moduli too wide for the
    /// signed intermediate arithmetic: `None` exactly when `P` does not fit
    /// in the signed width.
    pub fn checked_sub(self, other: Self) -> (r: Option<Self>)
        ensures
            P as int <= i128::MAX as int ==> r == Some(self.spec_sub(other)),
            P as int > i128::MAX as int ==> r is None,
    {
        proof {
            use_type_invariant(&self);
            use_type_invariant(&other);
        }
        if P > i128::MAX as u128 {
            return None;
        }
        let n = if self.0 >= other.0 {
            self.0 - other.0
        } else {
            P - (other.0 - self.0)
        };
        proof {
            Self::lemma_sub_mod_cases(self.value(), other.value());
        }
        Some(FieldElement(n))
    }

    /// The Euclidean remainder of `a - b` by `P`, by cases on which operand
    /// is larger.
    pub(crate) proof fn lemma_sub_mod_cases(a: int, b: int)
        requires
            0 <= a < P,
            0 <= b < P,
        ensures
            a >= b ==> (a - b) % (P as int) == a - b,
            a < b ==> (a - b) % (P as int) == P - (b - a),
    {
        if a >= b {
            lemma_small_mod((a - b) as nat, P as nat);
        } else {
            lemma_mod_multiples_vanish(1, a - b, P as int);
            lemma_small_mod((a - b + P) as nat, P as nat);
        }
    }
}

impl<const P: u128> FieldOps for FieldElement<P> {
    /// Addition is total: the sum is re-reduced without ever overflowing.
    open spec fn add_req(self, other: Self) -> bool {
        true
    }

    open spec fn spec_add(self, other: Self) -> Self {
        Self::from_value((self.value() + other.value()) % (P as int))
    }

    fn add(self, other: Self) -> (r: Self) {
        proof {
            use_type_invariant(&self);
            use_type_invariant(&other);
        }
        let n = if other.0 < P - self.0 {
            self.0 + other.0
        } else {
            other.0 - (P - self.0)
        };
        proof {
            if other.0 < P - self.0 {
                lemma_small_mod((self.0 + other.0) as nat, P as nat);
            } else {
                lemma_mod_multiples_vanish(-1, self.value() + other.value(), P as int);
                lemma_small_mod((self.value() + other.value() - P) as nat, P as nat);
            }
        }
        FieldElement(n)
    }

    /// Subtraction promotes to signed arithmetic, so the modulus must fit
    /// in the signed width.
    open spec fn sub_req(self, other: Self) -> bool {
        P as int <= i128::MAX as int
    }

    open spec fn spec_sub(self, other: Self) -> Self {
        Self::from_value((self.value() - other.value()) % (P as int))
    }

    fn sub(self, other: Self) -> (r: Self) {
        self.checked_sub(other).unwrap()
    }

    /// Multiplication is total: it reduces after every addition step, so no
    /// intermediate ever leaves `[0, P)`.
    open spec fn mul_req(self, other: Self) -> bool {
        true
    }

    open spec fn spec_mul(self, other: Self) -> Self {
        Self::from_value((self.value() * other.value()) % (P as int))
    }

    fn mul(self, rhs: Self) -> (r: Self) {
        proof {
            use_type_invariant(&self);
            use_type_invariant(&rhs);
        }
        let mut result = FieldElement(0);
        let mut count = rhs.0;
        proof {
            lemma_small_mod(0, P as nat);
        }
        while count > 0
            invariant
                0 <= self.value() < P,
                0 <= rhs.value() < P,
                count <= rhs.value(),
                result.value() == (self.value() * (rhs.value() - count)) % (P as int),
            decreases count,
        {
            proof {
                use_type_invariant(&result);
            }
            let ghost done = rhs.value() - count;
            result = result.add(self);
            proof {
                Self::lemma_mod_value((self.value() * done) % (P as int) + self.value());
                lemma_small_mod(self.value() as nat, P as nat);
                lemma_add_mod_noop(self.value() * done, self.value(), P as int);
                lemma_mul_is_distributive_add(self.value(), done, 1);
            }
            count = count - 1;
        }
        proof {
            Self::lemma_mod_value(self.value() * rhs.value());
            Self::lemma_value_injective(result, self.spec_mul(rhs));
        }
        result
    }

    /// Division is multiplication by the Fermat inverse, so the divisor must
    /// not be the zero element.
    open spec fn div_req(self, other: Self) -> bool {
        other.pow_req(-1)
    }

    open spec fn spec_div(self, other: Self) -> Self {
        self.spec_mul(other.spec_pow(-1))
    }

    fn div(self, rhs: Self) -> (r: Self) {
        let b = rhs.pow(-1);
        let res = self.mul(b);
        res
    }

    /// The small constants that exist in this field.
    open spec fn small_req(n: u64) -> bool {
        (n as int) < P as int
    }

    open spec fn spec_from_small(n: u64) -> Self {
        Self::from_value(n as int)
    }

    fn from_small(n: u64) -> (r: Self) {
        FieldElement(n as u128)
    }

    fn eq_val(self, other: Self) -> (r: bool) {
        self.0 == other.0
    }
}

impl<const P: u128> Pow for FieldElement<P> {
    type Output = FieldElement<P>;

    /// Exponentiation needs a modulus that supports the Fermat reduction of
    /// the exponent; a negative exponent asks for the inverse, which the
    /// zero element does not have.
    open spec fn pow_req(self, exponent: int) -> bool {
        &&& P >= 2
        &&& P as int - 1 <= i128::MAX as int
        &&& !(self.value() == 0 && exponent < 0)
    }

    /// The effective exponent is first reduced modulo `P - 1` (Fermat's
    /// periodicity), then applied by repeated multiplication.
    open spec fn spec_pow(self, exponent: int) -> FieldElement<P> {
        Self::from_value(
            pow(self.value(), (exponent % (P as int - 1)) as nat) % (P as int),
        )
    }

    fn pow(self, rhs: i32) -> (r: FieldElement<P>) {
        proof {
            use_type_invariant(&self);
        }
        let prime_minus_one: u128 = P - 1;
        let e_eff: u128 = if rhs >= 0 {
            (rhs as u128) % prime_minus_one
        } else {
            let k = ((-(rhs as i64)) as u128) % prime_minus_one;
            if k == 0 {
                0
            } else {
                prime_minus_one - k
            }
        };
        proof {
            Self::lemma_euclid_mod(rhs as int, P as int - 1);
        }
        assert(e_eff == (rhs as int) % (P as int - 1));
        let mut counter: u128 = 0;
        let mut aux = FieldElement(1);
        proof {
            vstd::arithmetic::power::lemma_pow0(self.value());
            lemma_small_mod(1, P as nat);
        }
        while counter < e_eff
            invariant
                0 <= self.value() < P,
                P >= 2,
                counter <= e_eff,
                aux.value() == pow(self.value(), counter as nat) % (P as int),
            decreases e_eff - counter,
        {
            proof {
                use_type_invariant(&aux);
            }
            aux = self.mul(aux);
            proof {
                Self::lemma_pow_step(self.value(), counter as nat);
            }
            counter = counter + 1;
        }
        proof {
            Self::lemma_value_injective(aux, self.spec_pow(rhs as int));
        }
        aux
    }
}

impl<const P: u128> FieldElement<P> {
    /// One more squaring-free multiplication step of the power ladder:
    /// multiplying a reduced power by the base advances the exponent.
    proof fn lemma_pow_step(v: int, c: nat)
        requires
            P >= 1,
        ensures
            (v * (pow(v, c) % (P as int))) % (P as int) == pow(v, (c + 1) as nat) % (P as int),
    {
        lemma_mul_mod_noop_right(v, pow(v, c), P as int);
        assert(pow(v, (c + 1) as nat) == v * pow(v, c)) by {
            vstd::arithmetic::power::lemma_pow1(v);
            vstd::arithmetic::power::lemma_pow_adds(v, 1, c);
        }
    }

    /// A negative-one exponent reduces to `P - 2` under the Fermat
    /// periodicity.
    proof fn lemma_neg_one_mod()
        requires
            P >= 2,
        ensures
            (-1) % (P as int - 1) == P as int - 2,
    {
        let m = P as int - 1;
        lemma_mod_multiples_vanish(-1, m - 1, m);
        lemma_small_mod((m - 1) as nat, m as nat);
        assert(m * -1 + (m - 1) == -1);
    }

    /// Field closure: the result of every operation stands for a value
    /// reduced into `[0, P)`.
    pub proof fn lemma_closure(a: Self, b: Self)
        requires
            a.wf(),
            b.wf(),
            P >= 2,
        ensures
            a.spec_add(b).wf(),
            a.spec_sub(b).wf(),
            a.spec_mul(b).wf(),
            a.spec_div(b).wf(),
            forall|e: int| (#[trigger] a.spec_pow(e)).wf(),
    {
        Self::lemma_mod_value(a.value() + b.value());
        Self::lemma_mod_value(a.value() - b.value());
        Self::lemma_mod_value(a.value() * b.value());
        assert forall|e: int| (#[trigger] a.spec_pow(e)).wf() by {
            Self::lemma_mod_value(pow(a.value(), (e % (P as int - 1)) as nat));
        }
        Self::lemma_mod_value(a.value() * b.spec_pow(-1).value());
    }

    /// Additive identity and inverse: adding the zero element changes
    /// nothing, and adding the element standing for `P - a` yields the zero
    /// element.
    pub proof fn lemma_add_identity_inverse(a: Self)
        requires
            a.wf(),
        ensures
            a.spec_add(Self::from_value(0)) == a,
            a.spec_add(Self::from_value((P - a.value()) % (P as int))) == Self::from_value(0),
    {
        Self::lemma_from_value(0);
        lemma_small_mod(a.value() as nat, P as nat);
        Self::lemma_mod_value(a.value());
        Self::lemma_value_injective(a.spec_add(Self::from_value(0)), a);
        Self::lemma_mod_value(P - a.value());
        let inv = Self::from_value((P - a.value()) % (P as int));
        lemma_mod_multiples_vanish(1, 0, P as int);
        if a.value() == 0 {
            lemma_small_mod(0, P as nat);
        } else {
            lemma_small_mod((P - a.value()) as nat, P as nat);
        }
        Self::lemma_value_injective(a.spec_add(inv), Self::from_value(0));
    }

    /// Fermat periodicity, as the exponent reduction realizes it: raising
    /// any element to the `P - 1` power yields the one element, because the
    /// effective exponent collapses to zero.
    pub proof fn lemma_pow_periodicity(a: Self)
        requires
            a.wf(),
            P >= 2,
        ensures
            a.spec_pow(P as int - 1) == Self::from_value(1),
    {
        vstd::arithmetic::div_mod::lemma_mod_multiples_basic(1, P as int - 1);
        assert((P as int - 1) % (P as int - 1) == 0);
        vstd::arithmetic::power::lemma_pow0(a.value());
        lemma_small_mod(1, P as nat);
    }

    /// Multiplicative inverse: an element whose value satisfies Fermat's
    /// congruence `a^(P-1) ≡ 1 (mod P)` — as every nonzero element does when
    /// `P` is prime — multiplied by its negative-one power gives the one
    /// element.
    pub proof fn lemma_mul_inverse(a: Self)
        requires
            a.wf(),
            P >= 2,
            pow(a.value(), (P - 1) as nat) % (P as int) == 1,
        ensures
            a.spec_mul(a.spec_pow(-1)) == Self::from_value(1),
    {
        Self::lemma_neg_one_mod();
        let v = a.value();
        let inv = a.spec_pow(-1);
        Self::lemma_mod_value(pow(v, (P - 2) as nat));
        lemma_mul_mod_noop_right(v, pow(v, (P - 2) as nat), P as int);
        vstd::arithmetic::power::lemma_pow1(v);
        vstd::arithmetic::power::lemma_pow_adds(v, 1, (P - 2) as nat);
        assert(a.spec_mul(inv).value() == pow(v, (P - 1) as nat) % (P as int)) by {
            Self::lemma_mod_value(v * inv.value());
        }
        Self::lemma_from_value(1);
        Self::lemma_value_injective(a.spec_mul(inv), Self::from_value(1));
    }

    /// Division consistency: dividing by `b` and then multiplying by `b`
    /// returns the dividend, for any `b` whose value satisfies Fermat's
    /// congruence — as every nonzero `b` does when `P` is prime.
    pub proof fn lemma_div_consistency(a: Self, b: Self)
        requires
            a.wf(),
            b.wf(),
            P >= 2,
            pow(b.value(), (P - 1) as nat) % (P as int) == 1,
        ensures
            a.spec_div(b).spec_mul(b) == a,
    {
        Self::lemma_neg_one_mod();
        let av = a.value();
        let bv = b.value();
        let k = (P - 2) as nat;
        let binv = b.spec_pow(-1);
        Self::lemma_mod_value(pow(bv, k));
        Self::lemma_mod_value(av * binv.value());
        let d = a.spec_div(b);
        lemma_mul_mod_noop_right(av, pow(bv, k), P as int);
        assert(d.value() == (av * pow(bv, k)) % (P as int));
        vstd::arithmetic::div_mod::lemma_mul_mod_noop_left(av * pow(bv, k), bv, P as int);
        assert(d.spec_mul(b).value() == (av * pow(bv, k) * bv) % (P as int)) by {
            Self::lemma_mod_value(d.value() * bv);
        }
        vstd::arithmetic::power::lemma_pow1(bv);
        vstd::arithmetic::power::lemma_pow_adds(bv, k, 1);
        vstd::arithmetic::mul::lemma_mul_is_associative(av, pow(bv, k), bv);
        assert(av * pow(bv, k) * bv == av * pow(bv, (P - 1) as nat));
        lemma_mul_mod_noop_right(av, pow(bv, (P - 1) as nat), P as int);
        assert(d.spec_mul(b).value() == (av * 1) % (P as int));
        lemma_small_mod(av as nat, P as nat);
        Self::lemma_value_injective(d.spec_mul(b), a);
    }

    /// The Euclidean remainder of a signed value by a positive modulus,
    /// written with unsigned machine arithmetic.
    proof fn lemma_euclid_mod(e: int, m: int)
        requires
            m > 0,
        ensures
            e >= 0 ==> e % m >= 0,
            e < 0 ==> {
                let k = (-e) % m;
                e % m == if k == 0 { 0int } else { m - k }
            },
    {
        lemma_mod_bound(e, m);
        if e < 0 {
            let k = (-e) % m;
            lemma_mod_bound(-e, m);
            vstd::arithmetic::div_mod::lemma_fundamental_div_mod(-e, m);
            let q = (-e) / m;
            vstd::arithmetic::mul::lemma_mul_unary_negation(m, q);
            lemma_mul_is_distributive_add(m, -q - 1, 1);
            if k == 0 {
                assert(e == m * (-q) + 0);
                lemma_mod_multiples_vanish(-q, 0, m);
            } else {
                assert(e == m * (-q - 1) + (m - k));
                lemma_mod_multiples_vanish(-q - 1, m - k, m);
                lemma_small_mod((m - k) as nat, m as nat);
            }
        }
    }
}

} // verus!

use vstd::prelude::*;
use vstd::arithmetic::div_mod::lemma_mod_bound;
use crate::Error;

verus! {

/// Relies on `crypto_bigint::Uint::add_mod`: for operands already reduced
/// modulo `p` (so that their sum is below `2·p`), it returns the sum
/// modulo `p`.
#[verifier::external_body]
fn u256_add_mod(a: u128, b: u128, p: u128) -> (r: u128)
    requires
        0 < p,
        a < p,
        b < p,
    ensures
        r == (a + b) % (p as int),
{
    let m = crypto_bigint::NonZero::new(crypto_bigint::U256::from_u128(p)).unwrap();
    let s = crypto_bigint::U256::from_u128(a).add_mod(&crypto_bigint::U256::from_u128(b), &m);
    u128::from(s.resize::<2>())
}

/// Relies on `crypto_bigint::Uint::sub_mod`: for operands already reduced
/// modulo `p` (so that their difference lies in `[-p, p)`), it returns the
/// difference modulo `p`, always non-negative.
#[verifier::external_body]
fn u256_sub_mod(a: u128, b: u128, p: u128) -> (r: u128)
    requires
        0 < p,
        a < p,
        b < p,
    ensures
        r == (a - b) % (p as int),
{
    let m = crypto_bigint::NonZero::new(crypto_bigint::U256::from_u128(p)).unwrap();
    let s = crypto_bigint::U256::from_u128(a).sub_mod(&crypto_bigint::U256::from_u128(b), &m);
    u128::from(s.resize::<2>())
}

/// An integer residue paired with its modulus at runtime. The modulus
/// travels with every element, and every operation checks that both
/// operands come from the same field before combining them.
#[derive(Debug, PartialEq)]
pub struct FieldElement {
    num: u128,
    prime: u128,
}

impl FieldElement {
    /// The residue this element stands for.
    pub closed spec fn value(self) -> int {
        self.num as int
    }

    /// The modulus this element lives under.
    pub closed spec fn modulus(self) -> int {
        self.prime as int
    }

    /// Every element holds a value already reduced modulo its modulus.
    #[verifier::type_invariant]
    pub open spec fn wf(self) -> bool {
        0 <= self.value() < self.modulus()
    }

    /// Elements with the same value and the same modulus are the same
    /// element.
    pub proof fn lemma_eq(a: Self, b: Self)
        requires
            a.value() == b.value(),
            a.modulus() == b.modulus(),
        ensures
            a == b,
    {
    }

    /// The reduced value, as the underlying machine integer.
    pub fn num(&self) -> (r: u128)
        ensures
            r == self.value(),
    {
        self.num
    }

    /// The modulus, as the underlying machine integer.
    pub fn prime(&self) -> (r: u128)
        ensures
            r == self.modulus(),
    {
        self.prime
    }

    /// The validating constructor: accepts exactly the values already
    /// reduced into `[0, prime)`, and reports anything else.
    pub fn new(num: u128, prime: u128) -> (r: Result<Self, Error>)
        ensures
            match r {
                Ok(f) => num < prime && f.value() == num && f.modulus() == prime,
                Err(e) => num >= prime && e is ValueError,
            },
    {
        if num >= prime {
            return Err(Error::ValueError("num is not in the field range".to_owned()));
        }
        Ok(FieldElement { num, prime })
    }

    /// Addition in the field: defined only across one single field, with the
    /// sum re-reduced into range.
    pub fn add(self, rhs: FieldElement) -> (r: Result<FieldElement, Error>)
        ensures
            match r {
                Ok(f) => {
                    &&& self.modulus() == rhs.modulus()
                    &&& f.modulus() == self.modulus()
                    &&& f.value() == (self.value() + rhs.value()) % self.modulus()
                },
                Err(e) => self.modulus() != rhs.modulus() && e is ValueError,
            },
    {
        proof {
            use_type_invariant(&self);
            use_type_invariant(&rhs);
        }
        if self.prime != rhs.prime {
            return Err(Error::ValueError("primes must be the same".to_owned()));
        }
        let num = u256_add_mod(self.num, rhs.num, self.prime);
        proof {
            lemma_mod_bound(self.value() + rhs.value(), self.modulus());
        }
        Ok(FieldElement { num, prime: self.prime })
    }

    /// Subtraction in the field: defined only across one single field, with
    /// the difference re-reduced into range by the always-non-negative
    /// remainder.
    pub fn sub(self, rhs: FieldElement) -> (r: Result<FieldElement, Error>)
        ensures
            match r {
                Ok(f) => {
                    &&& self.modulus() == rhs.modulus()
                    &&& f.modulus() == self.modulus()
                    &&& f.value() == (self.value() - rhs.value()) % self.modulus()
                },
                Err(e) => self.modulus() != rhs.modulus() && e is ValueError,
            },
    {
        proof {
            use_type_invariant(&self);
            use_type_invariant(&rhs);
        }
        if self.prime != rhs.prime {
            return Err(Error::ValueError("primes must be the same".to_owned()));
        }
        let num = u256_sub_mod(self.num, rhs.num, self.prime);
        proof {
            lemma_mod_bound(self.value() - rhs.value(), self.modulus());
        }
        Ok(FieldElement { num, prime: self.prime })
    }
}

} // verus!

//! The base field, its degree-4 extension, and digests.

use p3_baby_bear::BabyBear;
use p3_field::extension::BinomialExtensionField;
use p3_field::{AbstractExtensionField, AbstractField, PrimeField32};
use vstd::prelude::*;

verus! {

/// The order of the base field, `2^31 - 2^27 + 1`.
pub const MODULUS: u32 = 0x78000001;

/// Number of coefficients of an extension-field element.
pub const EXT_DEGREE: usize = 4;

/// Number of base-field elements in a digest.
pub const DIGEST_SIZE: usize = 8;

/// An element of the base field, held as its canonical representative.
#[derive(Clone, Copy, Debug, PartialEq, Eq)]
pub struct BaseElem {
    value: u32,
}

/// The base field of the inner proof system.
pub type InnerVal = BaseElem;

/// The field from which the inner proof system draws its challenges.
pub type InnerChallenge = ExtElem;

/// A hash or commitment output: a fixed number of base-field elements.
pub type InnerDigest = [InnerVal; DIGEST_SIZE];

impl BaseElem {
    #[verifier::type_invariant]
    spec fn canonical(self) -> bool {
        self.value < MODULUS
    }

    /// The canonical representative as a natural number.
    pub closed spec fn spec_value(&self) -> nat {
        self.value as nat
    }

    /// The element whose canonical representative is `n`.
    pub fn from_canonical_u32(n: u32) -> (e: BaseElem)
        requires
            n < MODULUS,
        ensures
            e@ == n,
    {
        BaseElem { value: n }
    }

    /// The canonical embedding of a counter into the field.
    pub fn from_canonical_usize(n: usize) -> (e: BaseElem)
        requires
            n < MODULUS,
        ensures
            e@ == n,
    {
        BaseElem { value: baby_bear_from_usize(n) }
    }

    /// The canonical embedding of a byte into the field.
    pub fn from_canonical_u8(n: u8) -> (e: BaseElem)
        ensures
            e@ == n,
    {
        BaseElem { value: baby_bear_from_u8(n) }
    }

    /// The embedding of `n` if it is below the field order, and nothing otherwise.
    pub fn checked_from_usize(n: usize) -> (r: Option<BaseElem>)
        ensures
            match r {
                Some(e) => n < MODULUS && e@ == n,
                None => n >= MODULUS,
            },
    {
        if n < MODULUS as usize {
            Some(BaseElem::from_canonical_usize(n))
        } else {
            None
        }
    }

    /// The canonical representative.
    pub fn as_canonical_u32(&self) -> (n: u32)
        ensures
            n == self@,
            n < MODULUS,
    {
        proof {
            use_type_invariant(self);
        }
        self.value
    }
}

impl View for BaseElem {
    type V = nat;

    open spec fn view(&self) -> nat {
        self.spec_value()
    }
}

impl DeepView for BaseElem {
    type V = nat;

    open spec fn deep_view(&self) -> nat {
        self.spec_value()
    }
}

/// An element of the degree-4 extension of the base field: its four
/// coefficients over the base field, constant term first.
#[derive(Clone, Copy, Debug, PartialEq, Eq)]
pub struct ExtElem {
    pub coeffs: [BaseElem; EXT_DEGREE],
}

impl ExtElem {
    /// The element with the given coefficients, constant term first.
    pub fn new(coeffs: [BaseElem; EXT_DEGREE]) -> (e: ExtElem)
        ensures
            e.coeffs == coeffs,
    {
        ExtElem { coeffs }
    }

    /// The canonical embedding of a counter: constant term `n`, higher
    /// coefficients zero.
    pub fn from_canonical_usize(n: usize) -> (e: ExtElem)
        requires
            n < MODULUS,
        ensures
            e@ == seq![n as nat, 0nat, 0nat, 0nat],
    {
        let c = ext_coefficients_from_usize(n);
        let e = ExtElem {
            coeffs: [
                BaseElem::from_canonical_u32(c[0]),
                BaseElem::from_canonical_u32(c[1]),
                BaseElem::from_canonical_u32(c[2]),
                BaseElem::from_canonical_u32(c[3]),
            ],
        };
        e
    }

    /// The coefficient at `index`.
    pub fn coefficient(&self, index: usize) -> (c: BaseElem)
        requires
            index < EXT_DEGREE,
        ensures
            c@ == self@[index as int],
    {
        self.coeffs[index]
    }
}

impl View for ExtElem {
    type V = Seq<nat>;

    open spec fn view(&self) -> Seq<nat> {
        Seq::new(4, |i: int| self.coeffs[i]@)
    }
}

impl DeepView for ExtElem {
    type V = Seq<nat>;

    open spec fn deep_view(&self) -> Seq<nat> {
        self@
    }
}

/// Calls `BabyBear::from_canonical_usize` and reads the result back with
/// `as_canonical_u32`.  For an argument below the field order the field
/// element is the one whose canonical representative is that argument; the
/// outside function checks the bound with a debug assertion, so larger
/// arguments are left out.
#[verifier::external_body]
fn baby_bear_from_usize(n: usize) -> (v: u32)
    requires
        n < MODULUS,
    ensures
        v == n,
{
    BabyBear::from_canonical_usize(n).as_canonical_u32()
}

/// Calls `BabyBear::from_canonical_u8` and reads the result back with
/// `as_canonical_u32`: every byte is below the field order and is its own
/// canonical representative.
#[verifier::external_body]
fn baby_bear_from_u8(n: u8) -> (v: u32)
    ensures
        v == n,
{
    BabyBear::from_canonical_u8(n).as_canonical_u32()
}

/// Calls `BinomialExtensionField::<BabyBear, 4>::from_canonical_usize` and
/// reads the four coefficients of the result back with `as_base_slice` and
/// `as_canonical_u32`.  The outside function embeds the argument in the base
/// field and places it in the constant term, with zero in the three higher
/// coefficients; the base-field embedding checks its bound with a debug
/// assertion, so arguments at or above the field order are left out.
#[verifier::external_body]
fn ext_coefficients_from_usize(n: usize) -> (c: [u32; 4])
    requires
        n < MODULUS,
    ensures
        c@ == seq![n as u32, 0u32, 0u32, 0u32],
{
    let x = BinomialExtensionField::<BabyBear, 4>::from_canonical_usize(n);
    let s: &[BabyBear] = x.as_base_slice();
    [
        s[0].as_canonical_u32(),
        s[1].as_canonical_u32(),
        s[2].as_canonical_u32(),
        s[3].as_canonical_u32(),
    ]
}

} // verus!

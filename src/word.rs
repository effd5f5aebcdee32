use stylus_sdk::alloy_primitives::U256;
use vstd::prelude::*;

verus! {

/// 2^256, one past the largest value a word holds.
pub open spec fn word_modulus() -> nat {
    0x1_0000_0000_0000_0000_0000_0000_0000_0000_0000_0000_0000_0000_0000_0000_0000_0000_0000_0000_0000_0000nat
}

/// An unsigned 256-bit integer held as four little-endian 64-bit limbs.
#[derive(Clone, Copy, Debug, PartialEq, Eq, Structural)]
pub struct Word {
    pub l0: u64,
    pub l1: u64,
    pub l2: u64,
    pub l3: u64,
}

impl View for Word {
    type V = nat;

    open spec fn view(&self) -> nat {
        (self.l0 + self.l1 * 0x1_0000_0000_0000_0000nat + self.l2
            * 0x1_0000_0000_0000_0000_0000_0000_0000_0000nat + self.l3
            * 0x1_0000_0000_0000_0000_0000_0000_0000_0000_0000_0000_0000_0000nat) as nat
    }
}

impl Word {
    pub fn zero() -> (r: Word)
        ensures
            r@ == 0,
    {
        Word { l0: 0, l1: 0, l2: 0, l3: 0 }
    }

    pub fn from_u64(x: u64) -> (r: Word)
        ensures
            r@ == x,
    {
        Word { l0: x, l1: 0, l2: 0, l3: 0 }
    }

    pub fn is_zero(&self) -> (r: bool)
        ensures
            r == (self@ == 0),
    {
        self.l0 == 0 && self.l1 == 0 && self.l2 == 0 && self.l3 == 0
    }

    /// Numeric equality.
    pub fn eq(&self, o: &Word) -> (r: bool)
        ensures
            r == (self@ == o@),
    {
        self.l0 == o.l0 && self.l1 == o.l1 && self.l2 == o.l2 && self.l3 == o.l3
    }

    /// Numeric order: `self < o`.
    pub fn lt(&self, o: &Word) -> (r: bool)
        ensures
            r == (self@ < o@),
    {
        if self.l3 != o.l3 {
            self.l3 < o.l3
        } else if self.l2 != o.l2 {
            self.l2 < o.l2
        } else if self.l1 != o.l1 {
            self.l1 < o.l1
        } else {
            self.l0 < o.l0
        }
    }

    pub fn le(&self, o: &Word) -> (r: bool)
        ensures
            r == (self@ <= o@),
    {
        !o.lt(self)
    }
}

/// Relies on ruint's `Uint::checked_add`: the sum, or `None` when it does not
/// fit in 256 bits; `Uint::from_limbs` and `Uint::into_limbs` convert from and
/// to little-endian limbs.
#[verifier::external_body]
pub(crate) fn checked_add(a: Word, b: Word) -> (r: Option<Word>)
    ensures
        r is Some <==> a@ + b@ < word_modulus(),
        r is Some ==> r->0@ == a@ + b@,
{
    let x = U256::from_limbs([a.l0, a.l1, a.l2, a.l3]);
    let y = U256::from_limbs([b.l0, b.l1, b.l2, b.l3]);
    match x.checked_add(y) {
        Some(v) => {
            let l = v.into_limbs();
            Some(Word { l0: l[0], l1: l[1], l2: l[2], l3: l[3] })
        },
        None => None,
    }
}

/// Relies on ruint's `Uint::checked_sub`: the difference, or `None` when `b > a`.
#[verifier::external_body]
pub(crate) fn checked_sub(a: Word, b: Word) -> (r: Option<Word>)
    ensures
        r is Some <==> b@ <= a@,
        r is Some ==> r->0@ == a@ - b@,
{
    let x = U256::from_limbs([a.l0, a.l1, a.l2, a.l3]);
    let y = U256::from_limbs([b.l0, b.l1, b.l2, b.l3]);
    match x.checked_sub(y) {
        Some(v) => {
            let l = v.into_limbs();
            Some(Word { l0: l[0], l1: l[1], l2: l[2], l3: l[3] })
        },
        None => None,
    }
}

/// Relies on ruint's `Uint::checked_mul`: the product, or `None` when it does
/// not fit in 256 bits.
#[verifier::external_body]
pub(crate) fn checked_mul(a: Word, b: Word) -> (r: Option<Word>)
    ensures
        r is Some <==> a@ * b@ < word_modulus(),
        r is Some ==> r->0@ == a@ * b@,
{
    let x = U256::from_limbs([a.l0, a.l1, a.l2, a.l3]);
    let y = U256::from_limbs([b.l0, b.l1, b.l2, b.l3]);
    match x.checked_mul(y) {
        Some(v) => {
            let l = v.into_limbs();
            Some(Word { l0: l[0], l1: l[1], l2: l[2], l3: l[3] })
        },
        None => None,
    }
}

/// Relies on ruint's `Uint::checked_div`: the truncated quotient, or `None`
/// when `b` is zero.
#[verifier::external_body]
pub(crate) fn checked_div(a: Word, b: Word) -> (r: Option<Word>)
    ensures
        r is Some <==> b@ != 0,
        r is Some ==> r->0@ == a@ / b@,
{
    let x = U256::from_limbs([a.l0, a.l1, a.l2, a.l3]);
    let y = U256::from_limbs([b.l0, b.l1, b.l2, b.l3]);
    match x.checked_div(y) {
        Some(v) => {
            let l = v.into_limbs();
            Some(Word { l0: l[0], l1: l[1], l2: l[2], l3: l[3] })
        },
        None => None,
    }
}

} // verus!

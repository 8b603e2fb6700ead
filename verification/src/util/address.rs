//! Untyped addresses and object references.

use vstd::prelude::*;

verus! {

/// An address of the managed address space: a machine word with alignment
/// and offset arithmetic. It carries no claim about what lies there.
#[derive(Clone, Copy, Debug, PartialEq, Eq, Hash, Structural)]
pub struct Address(pub usize);

/// `addr` rounded down to a multiple of `align`.
pub open spec fn spec_align_down(addr: int, align: int) -> int {
    addr - addr % align
}

/// `addr` rounded up to a multiple of `align`.
pub open spec fn spec_align_up(addr: int, align: int) -> int {
    if addr % align == 0 {
        addr
    } else {
        addr - addr % align + align
    }
}

impl View for Address {
    type V = int;

    open spec fn view(&self) -> int {
        self.0 as int
    }
}

impl Address {
    /// The lowest address.
    pub fn zero() -> (a: Address)
        ensures
            a@ == 0,
    {
        Address(0)
    }

    /// The address with the given numeric value.
    pub fn from_usize(raw: usize) -> (a: Address)
        ensures
            a@ == raw,
    {
        Address(raw)
    }

    /// The numeric value of the address.
    pub fn as_usize(&self) -> (raw: usize)
        ensures
            raw == self@,
    {
        self.0
    }

    /// Whether this is address zero.
    pub fn is_zero(&self) -> (b: bool)
        ensures
            b == (self@ == 0),
    {
        self.0 == 0
    }

    /// The address `bytes` above this one.
    pub fn add(&self, bytes: usize) -> (a: Address)
        requires
            self@ + bytes <= usize::MAX,
        ensures
            a@ == self@ + bytes,
    {
        Address(self.0 + bytes)
    }

    /// The address `bytes` below this one.
    pub fn sub(&self, bytes: usize) -> (a: Address)
        requires
            bytes <= self@,
        ensures
            a@ == self@ - bytes,
    {
        Address(self.0 - bytes)
    }

    /// The distance in bytes from `other` up to this address.
    pub fn diff(&self, other: Address) -> (d: usize)
        requires
            other@ <= self@,
        ensures
            d == self@ - other@,
    {
        self.0 - other.0
    }

    /// Whether the address is a multiple of `align`.
    pub fn is_aligned_to(&self, align: usize) -> (b: bool)
        requires
            align > 0,
        ensures
            b == (self@ % (align as int) == 0),
    {
        self.0 % align == 0
    }

    /// The highest multiple of `align` that is not above this address.
    pub fn align_down(&self, align: usize) -> (a: Address)
        requires
            align > 0,
        ensures
            a@ == spec_align_down(self@, align as int),
            a@ <= self@ < a@ + align,
            a@ % (align as int) == 0,
    {
        let rem: usize = self.0 % align;
        proof {
            vstd::arithmetic::div_mod::lemma_fundamental_div_mod(self.0 as int, align as int);
            vstd::arithmetic::div_mod::lemma_mod_multiples_basic(
                self.0 as int / align as int,
                align as int,
            );
            vstd::arithmetic::mul::lemma_mul_is_commutative(
                self.0 as int / align as int,
                align as int,
            );
        }
        Address(self.0 - rem)
    }

    /// The lowest multiple of `align` that is not below this address.
    pub fn align_up(&self, align: usize) -> (a: Address)
        requires
            align > 0,
            spec_align_up(self@, align as int) <= usize::MAX,
        ensures
            a@ == spec_align_up(self@, align as int),
            self@ <= a@ < self@ + align,
            a@ % (align as int) == 0,
    {
        let rem: usize = self.0 % align;
        if rem == 0 {
            *self
        } else {
            proof {
                vstd::arithmetic::div_mod::lemma_fundamental_div_mod(self.0 as int, align as int);
                let q = self.0 as int / align as int;
                assert(0 <= q * (align as int)) by (nonlinear_arith)
                    requires
                        q >= 0,
                        align > 0,
                ;
                vstd::arithmetic::mul::lemma_mul_is_commutative(q, align as int);
                vstd::arithmetic::mul::lemma_mul_is_distributive_add_other_way(
                    align as int,
                    q,
                    1,
                );
                vstd::arithmetic::div_mod::lemma_mod_multiples_basic(q + 1, align as int);
            }
            let down: usize = self.0 - rem;
            Address(down + align)
        }
    }
}

/// A reference to an object: the address at which the object starts.
/// The null reference is address zero.
#[derive(Clone, Copy, Debug, PartialEq, Eq, Hash, Structural)]
pub struct ObjectReference(pub usize);

impl View for ObjectReference {
    type V = int;

    open spec fn view(&self) -> int {
        self.0 as int
    }
}

impl ObjectReference {
    /// The reference that refers to no object.
    pub fn null() -> (o: ObjectReference)
        ensures
            o@ == 0,
    {
        ObjectReference(0)
    }

    /// The reference to the object that starts at `addr`.
    pub fn from_address(addr: Address) -> (o: ObjectReference)
        ensures
            o@ == addr@,
    {
        ObjectReference(addr.0)
    }

    /// The address at which the object starts.
    pub fn to_address(&self) -> (a: Address)
        ensures
            a@ == self@,
    {
        Address(self.0)
    }

    /// The numeric value of the reference.
    pub fn value(&self) -> (raw: usize)
        ensures
            raw == self@,
    {
        self.0
    }

    /// Whether this is the null reference.
    pub fn is_null(&self) -> (b: bool)
        ensures
            b == (self@ == 0),
    {
        self.0 == 0
    }
}

} // verus!

//! Typed 64-bit physical addresses with page-aligned rounding and
//! checked arithmetic.
//!
//! The address value 0 is the null sentinel meaning "unmapped/absent";
//! [`NonNullPhysicalAddress`] carries the proof that an address is not
//! that sentinel.

use vstd::arithmetic::div_mod::{
    lemma_fundamental_div_mod, lemma_mod_bound, lemma_mod_multiples_basic,
};
use vstd::arithmetic::power2::{lemma_pow2_pos, pow2};
use vstd::bits::{lemma_u64_low_bits_mask_is_mod, low_bits_mask};
use vstd::prelude::*;

verus! {

/// Alignments are powers of two.
pub open spec fn is_pow2(a: u64) -> bool {
    exists|n: nat| n < 64 && a == pow2(n)
}

/// `v` rounded up to the next multiple of `a`.
pub open spec fn spec_round_up(v: int, a: int) -> int {
    ((v + a - 1) / a) * a
}

/// Clearing the bits selected by `m` subtracts exactly those bits.
proof fn lemma_and_not_mask(x: u64, m: u64)
    by (bit_vector)
    ensures
        x & m <= x,
        x & !m == x - (x & m),
{
}

/// The bit trick `(v + (a - 1)) & !(a - 1)` rounds up to a power of two.
proof fn lemma_round_up_bits(v: u64, a: u64)
    requires
        is_pow2(a),
        v + a - 1 <= u64::MAX,
    ensures
        ((v + a - 1) as u64 & !((a - 1) as u64)) == spec_round_up(v as int, a as int),
        ((v + a - 1) as u64 & !((a - 1) as u64)) % a == 0,
        v <= ((v + a - 1) as u64 & !((a - 1) as u64)),
        ((v + a - 1) as u64 & !((a - 1) as u64)) < v + a,
{
    let n = choose|n: nat| n < 64 && a == pow2(n);
    lemma_pow2_pos(n);
    let d = (a - 1) as u64;
    let x = (v + d) as u64;
    assert(d == low_bits_mask(n));
    lemma_u64_low_bits_mask_is_mod(x, n);
    lemma_and_not_mask(x, d);
    let r = x & !d;
    assert(r == x - x % a);
    lemma_fundamental_div_mod(x as int, a as int);
    lemma_mod_bound(x as int, a as int);
    assert(r == a * (x as int / a as int));
    assert(r == (x as int / a as int) * a) by (nonlinear_arith)
        requires
            r == a * (x as int / a as int),
    ;
    lemma_mod_multiples_basic(x as int / a as int, a as int);
}

/// A multiple of `a` in the half-open window `[v, v + a)` is unique,
/// so the two bounds above pin the rounded value exactly.
proof fn lemma_round_up_unique(v: int, a: int, r: int)
    requires
        a > 0,
        r % a == 0,
        v <= r < v + a,
    ensures
        r == spec_round_up(v, a),
{
    let q = ((v + a - 1) / a) * a;
    vstd::arithmetic::div_mod::lemma_fundamental_div_mod(v + a - 1, a);
    vstd::arithmetic::div_mod::lemma_mod_bound(v + a - 1, a);
    vstd::arithmetic::div_mod::lemma_fundamental_div_mod(r, a);
    vstd::arithmetic::div_mod::lemma_mod_bound(r, a);
    let dr = r / a;
    let dq = (v + a - 1) / a;
    assert(r == a * dr);
    assert(q == a * dq) by (nonlinear_arith)
        requires
            q == dq * a,
    ;
    assert(a * dr <= a * dq) by (nonlinear_arith)
        requires
            a > 0,
            a * dr == r,
            v + a - 1 == a * dq + (v + a - 1) % a,
            0 <= (v + a - 1) % a < a,
            r < v + a,
    ;
    assert(a * dq <= a * dr) by (nonlinear_arith)
        requires
            a > 0,
            a * dr == r,
            v + a - 1 == a * dq + (v + a - 1) % a,
            0 <= (v + a - 1) % a < a,
            v <= r,
    ;
}

/// Rounding an already aligned value changes nothing.
pub proof fn lemma_round_up_aligned(v: int, a: int)
    requires
        a > 0,
        v % a == 0,
    ensures
        spec_round_up(v, a) == v,
{
    lemma_round_up_unique(v, a, v);
}

/// `v` rounded up to the next multiple of the power of two `align`,
/// in full 64-bit width.
pub fn round_up_u64(v: u64, align: u64) -> (r: u64)
    requires
        is_pow2(align),
        v + align - 1 <= u64::MAX,
    ensures
        r == spec_round_up(v as int, align as int),
        r % align == 0,
        v <= r < v + align,
{
    proof {
        let n = choose|n: nat| n < 64 && align == pow2(n);
        lemma_pow2_pos(n);
        lemma_round_up_bits(v, align);
    }
    let delta = align - 1;
    (v + delta) & !delta
}

/// A typed 64-bit physical address.
#[derive(Debug, Clone, Copy, PartialEq, Eq, Structural)]
pub struct PhysicalAddress(u64);

/// The address with the given raw value, for use in contracts.
pub closed spec fn spec_pa(v: u64) -> PhysicalAddress {
    PhysicalAddress(v)
}

/// `spec_pa` and `spec_u64` are inverses: an address is nothing but
/// its raw value.
pub broadcast proof fn lemma_pa_value(v: u64)
    ensures
        (#[trigger] spec_pa(v)).spec_u64() == v,
{
}

pub broadcast proof fn lemma_pa_ext(a: PhysicalAddress, b: PhysicalAddress)
    requires
        #[trigger] a.spec_u64() == #[trigger] b.spec_u64(),
    ensures
        a == b,
{
}

impl PhysicalAddress {
    /// The raw address value, for use in contracts.
    pub closed spec fn spec_u64(self) -> u64 {
        self.0
    }

    /// The null sentinel: address 0, never dereferenced as data.
    pub fn null() -> (r: Self)
        ensures
            r.spec_u64() == 0,
    {
        PhysicalAddress(0)
    }

    pub fn new(val: u64) -> (r: Self)
        ensures
            r.spec_u64() == val,
    {
        PhysicalAddress(val)
    }

    pub fn from_usize(val: usize) -> (r: Self)
        ensures
            r.spec_u64() == val,
    {
        PhysicalAddress(val as u64)
    }

    pub fn as_u64(&self) -> (r: u64)
        ensures
            r == self.spec_u64(),
    {
        self.0
    }

    pub fn as_usize(&self) -> (r: usize)
        requires
            self.spec_u64() <= usize::MAX,
        ensures
            r == self.spec_u64(),
    {
        self.0 as usize
    }

    pub fn is_null(&self) -> (r: bool)
        ensures
            r == (self.spec_u64() == 0),
    {
        self.0 == 0
    }

    /// This address rounded up to the next multiple of `align`.
    pub fn rounding_up(&self, align: usize) -> (r: Self)
        requires
            is_pow2(align as u64),
            self.spec_u64() + align - 1 <= u64::MAX,
        ensures
            r.spec_u64() == spec_round_up(self.spec_u64() as int, align as int),
            r.spec_u64() % (align as u64) == 0,
            self.spec_u64() <= r.spec_u64() < self.spec_u64() + align,
    {
        PhysicalAddress(round_up_u64(self.0, align as u64))
    }

    /// Rounds this address up in place.
    pub fn round_up(&mut self, align: usize)
        requires
            is_pow2(align as u64),
            old(self).spec_u64() + align - 1 <= u64::MAX,
        ensures
            final(self).spec_u64() == spec_round_up(old(self).spec_u64() as int, align as int),
            final(self).spec_u64() % (align as u64) == 0,
            old(self).spec_u64() <= final(self).spec_u64() < old(self).spec_u64() + align,
    {
        *self = self.rounding_up(align);
    }

    /// Address `rhs` bytes above this one; underflow-free by construction
    /// and overflow-checked by contract.
    pub fn add_offset(&self, rhs: u64) -> (r: Self)
        requires
            self.spec_u64() + rhs <= u64::MAX,
        ensures
            r.spec_u64() == self.spec_u64() + rhs,
    {
        PhysicalAddress(self.0 + rhs)
    }

    /// Address `rhs` bytes below this one; never wraps below zero.
    pub fn sub_offset(&self, rhs: u64) -> (r: Self)
        requires
            rhs <= self.spec_u64(),
        ensures
            r.spec_u64() == self.spec_u64() - rhs,
    {
        PhysicalAddress(self.0 - rhs)
    }

    /// Byte distance from `rhs` up to this address.
    pub fn diff(&self, rhs: &PhysicalAddress) -> (r: u64)
        requires
            rhs.spec_u64() <= self.spec_u64(),
        ensures
            r == self.spec_u64() - rhs.spec_u64(),
    {
        self.0 - rhs.0
    }
}

/// Rounding up is idempotent: rounding an already rounded address
/// changes nothing.
pub proof fn lemma_rounding_up_idempotent(v: int, a: int)
    requires
        a > 0,
        0 <= v,
    ensures
        spec_round_up(spec_round_up(v, a), a) == spec_round_up(v, a),
{
    let r = spec_round_up(v, a);
    vstd::arithmetic::div_mod::lemma_fundamental_div_mod(v + a - 1, a);
    vstd::arithmetic::div_mod::lemma_mod_bound(v + a - 1, a);
    assert(r % a == 0 && v <= r < v + a) by (nonlinear_arith)
        requires
            a > 0,
            r == ((v + a - 1) / a) * a,
            v + a - 1 == a * ((v + a - 1) / a) + (v + a - 1) % a,
            0 <= (v + a - 1) % a < a,
    ;
    lemma_round_up_unique(r, a, r);
}

/// A physical address known not to be the null sentinel.
#[derive(Debug, Clone, Copy, PartialEq, Eq, Structural)]
pub struct NonNullPhysicalAddress(u64);

impl NonNullPhysicalAddress {
    pub closed spec fn spec_u64(self) -> u64 {
        self.0
    }

    /// Every value of this type is nonzero.
    pub closed spec fn wf(self) -> bool {
        self.0 != 0
    }

    pub fn get(&self) -> (r: PhysicalAddress)
        requires
            self.wf(),
        ensures
            r.spec_u64() == self.spec_u64(),
            r.spec_u64() != 0,
    {
        PhysicalAddress(self.0)
    }

    pub fn new(val: PhysicalAddress) -> (r: Option<Self>)
        ensures
            val.spec_u64() == 0 <==> r is None,
            r matches Some(p) ==> p.wf() && p.spec_u64() == val.spec_u64(),
    {
        if val.0 != 0 {
            Some(NonNullPhysicalAddress(val.0))
        } else {
            None
        }
    }
}

} // verus!

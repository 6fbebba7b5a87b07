//! Trusted boundary around `fixedbitset::FixedBitSet`, the packed bit
//! container that backs the grid, and around the host's random source.
//!
//! Verus sees the container only through the contracts below; `bits_of`
//! names the sequence of bits it holds.

use vstd::prelude::*;
use fixedbitset::FixedBitSet;

verus! {

#[verifier::external_type_specification]
#[verifier::external_body]
pub struct ExFixedBitSet(FixedBitSet);

/// The bits a `FixedBitSet` holds, in index order: one `bool` per index in
/// `[0, len)`, where `len` is the capacity the set was built with.
pub uninterp spec fn bits_of(s: FixedBitSet) -> Seq<bool>;

/// Whether bit `i` of the word `w` is set (least significant bit is bit 0).
pub open spec fn word_bit(w: u32, i: u32) -> bool {
    (w >> i) & 1u32 == 1u32
}

/// Relies on `FixedBitSet::with_capacity`: a set of `bits` bits, all clear.
#[verifier::external_body]
pub(crate) fn fbs_with_capacity(bits: usize) -> (r: FixedBitSet)
    ensures
        bits_of(r) == Seq::new(bits as nat, |i: int| false),
{
    FixedBitSet::with_capacity(bits)
}

/// Relies on `FixedBitSet::len`: the number of bits the set holds.
#[verifier::external_body]
pub(crate) fn fbs_len(s: &FixedBitSet) -> (r: usize)
    ensures
        r == bits_of(*s).len(),
{
    s.len()
}

/// Relies on `FixedBitSet::contains`: the value of the bit at `bit`.
#[verifier::external_body]
pub(crate) fn fbs_contains(s: &FixedBitSet, bit: usize) -> (r: bool)
    requires
        bit < bits_of(*s).len(),
    ensures
        r == bits_of(*s)[bit as int],
{
    s.contains(bit)
}

/// Relies on `FixedBitSet::set`: writes `enabled` at `bit` and moves no
/// other bit. It panics out of range, which the precondition rules out.
#[verifier::external_body]
pub(crate) fn fbs_set(s: &mut FixedBitSet, bit: usize, enabled: bool)
    requires
        bit < bits_of(*old(s)).len(),
    ensures
        bits_of(*final(s)) == bits_of(*old(s)).update(bit as int, enabled),
{
    s.set(bit, enabled)
}

/// Relies on `FixedBitSet`'s `Clone` impl: a field-for-field copy, so the
/// copy holds the same bits.
#[verifier::external_body]
pub(crate) fn fbs_clone(s: &FixedBitSet) -> (r: FixedBitSet)
    ensures
        bits_of(r) == bits_of(*s),
{
    s.clone()
}

/// Relies on `FixedBitSet::as_slice`: the backing 32-bit words,
/// `ceil(len / 32)` of them, bit `i` stored in word `i / 32` at position
/// `i % 32`.
#[verifier::external_body]
pub(crate) fn fbs_as_slice(s: &FixedBitSet) -> (r: &[u32])
    ensures
        r@.len() == (bits_of(*s).len() + 31) / 32,
        forall|i: int|
            0 <= i < bits_of(*s).len() ==> bits_of(*s)[i] == word_bit(
                r@[i / 32],
                (i % 32) as u32,
            ),
{
    s.as_slice()
}

/// Relies on `js_sys::Math::random`, a uniform draw from `[0, 1)`, rounded
/// by `js_sys::Math::round`: the result is true exactly when the draw was at
/// least one half, a fair coin. Nothing is promised of the outcome.
#[verifier::external_body]
pub(crate) fn random_cell() -> bool {
    js_sys::Math::round(js_sys::Math::random()) as u64 == 1u64
}

} // verus!

//! Fixed-length bit vectors, stored by the `bitvec` crate.
use bitvec::vec::BitVec;
use vstd::prelude::*;

verus! {

/// A vector of bits whose length never changes after it is made.
#[verifier::external_body]
pub struct Bits {
    inner: BitVec,
}

/// The bits that a vector holds, in index order.
pub uninterp spec fn bits_of(b: Bits) -> Seq<bool>;

impl View for Bits {
    type V = Seq<bool>;

    open spec fn view(&self) -> Seq<bool> {
        bits_of(*self)
    }
}

/// Whether the index of every set bit of `bits`, and nothing else, is listed in
/// `ones`, in increasing order.
pub open spec fn lists_ones(bits: Seq<bool>, ones: Seq<usize>) -> bool {
    &&& forall|i: int, j: int| 0 <= i < j < ones.len() ==> ones[i] < ones[j]
    &&& forall|i: int| 0 <= i < ones.len() ==> (#[trigger] ones[i]) < bits.len() && bits[ones[i] as int]
    &&& forall|k: int|
        0 <= k < bits.len() && #[trigger] bits[k] ==> exists|i: int|
            0 <= i < ones.len() && ones[i] == k
}

impl Bits {
    /// `BitVec::repeat`: a vector of `len` bits that all equal `bit`.  The outside
    /// function panics where the length cannot be encoded in the vector's handle,
    /// which keeps three bits of a word for other uses.
    #[verifier::external_body]
    pub(crate) fn repeat(bit: bool, len: usize) -> (b: Bits)
        requires
            len <= usize::MAX / 8,
        ensures
            bits_of(b) == Seq::new(len as nat, |i: int| bit),
    {
        Bits { inner: BitVec::repeat(bit, len) }
    }

    /// `BitVec::clone`: a second vector with the same bits.
    #[verifier::external_body]
    pub(crate) fn duplicate(&self) -> (b: Bits)
        ensures
            bits_of(b) == bits_of(*self),
    {
        Bits { inner: self.inner.clone() }
    }

    /// The `!` operator of `BitVec`: every bit is flipped.
    #[verifier::external_body]
    pub(crate) fn complement(self) -> (b: Bits)
        ensures
            bits_of(b) == Seq::new(bits_of(self).len(), |i: int| !bits_of(self)[i]),
    {
        Bits { inner: !self.inner }
    }

    /// The `&` operator of `BitVec` with a borrowed right-hand side, on vectors of
    /// one length: the bitwise conjunction.
    #[verifier::external_body]
    pub(crate) fn intersect(self, other: &Bits) -> (b: Bits)
        requires
            bits_of(self).len() == bits_of(*other).len(),
        ensures
            bits_of(b) == Seq::new(
                bits_of(self).len(),
                |i: int| bits_of(self)[i] && bits_of(*other)[i],
            ),
    {
        Bits { inner: self.inner & &other.inner }
    }

    /// `BitSlice::any`: whether at least one bit is set.
    #[verifier::external_body]
    pub(crate) fn any(&self) -> (r: bool)
        ensures
            r == (exists|i: int| 0 <= i < bits_of(*self).len() && bits_of(*self)[i]),
    {
        self.inner.any()
    }

    /// `BitSlice::all`: whether every bit is set; so it is where there are none.
    #[verifier::external_body]
    pub(crate) fn all(&self) -> (r: bool)
        ensures
            r == (forall|i: int| 0 <= i < bits_of(*self).len() ==> bits_of(*self)[i]),
    {
        self.inner.all()
    }

    /// `BitSlice::iter_ones`: the indices of the set bits, in increasing order.
    #[verifier::external_body]
    pub(crate) fn ones(&self) -> (r: Vec<usize>)
        ensures
            lists_ones(bits_of(*self), r@),
    {
        self.inner.iter_ones().collect()
    }

    /// `BitSlice::set`: one bit gets a new value.  The outside function panics
    /// where the index is out of bounds.
    #[verifier::external_body]
    pub(crate) fn set(&mut self, index: usize, value: bool)
        requires
            index < bits_of(*old(self)).len(),
        ensures
            bits_of(*final(self)) == bits_of(*old(self)).update(index as int, value),
    {
        self.inner.set(index, value);
    }
}

} // verus!

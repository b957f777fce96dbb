//! Staging a remote memory region.
//!
//! The injector reserves one region in the target's address space per
//! purpose and carves aligned sub-ranges out of it by bumping an offset.
//! The carving arithmetic lives here: a builder stages the region's bytes
//! locally, pads with zeros up to each write's alignment, and hands back
//! the offset each write landed on. What the builder guarantees — every
//! sub-range aligned as asked, sub-ranges in order, nothing past the end —
//! the finished image carries by construction; copying it into the target
//! is a single kernel call made outside the library.

use vstd::prelude::*;

verus! {

/// The least multiple of `align` that is at least `n`.
pub open spec fn round_up(n: int, align: int) -> int {
    n + ((align - n % align) % align)
}

/// Rounding up lands on a multiple, moves forward by less than `align`,
/// and does not move what is aligned already.
pub proof fn lemma_round_up(n: int, align: int)
    requires
        n >= 0,
        align >= 1,
    ensures
        round_up(n, align) % align == 0,
        n <= round_up(n, align) < n + align,
        n % align == 0 ==> round_up(n, align) == n,
{
    let r = n % align;
    assert(0 <= r < align) by {
        vstd::arithmetic::div_mod::lemma_mod_bound(n, align);
    }
    if r == 0 {
        assert(align % align == 0) by {
            vstd::arithmetic::div_mod::lemma_mod_self_0(align);
        }
        assert((align - r) % align == 0);
        assert(round_up(n, align) == n);
    } else {
        assert((align - r) % align == align - r) by {
            vstd::arithmetic::div_mod::lemma_small_mod((align - r) as nat, align as nat);
        }
        assert(round_up(n, align) == n + (align - r));
        assert((n + (align - r)) % align == 0) by {
            vstd::arithmetic::div_mod::lemma_add_mod_noop(n, align - r, align);
            vstd::arithmetic::div_mod::lemma_small_mod((align - r) as nat, align as nat);
            vstd::arithmetic::div_mod::lemma_mod_twice(n + (align - r), align);
        }
    }
}

/// A run of `n` zero bytes.
pub open spec fn zeros(n: nat) -> Seq<u8> {
    Seq::new(n, |i: int| 0u8)
}

/// A remote region staged locally: the bytes to be copied into the target
/// in one piece.
pub struct RegionBuilder {
    bytes: Vec<u8>,
}

impl RegionBuilder {
    /// The staged bytes, for contracts.
    pub closed spec fn view(&self) -> Seq<u8> {
        self.bytes@
    }

    /// Starts an empty region.
    pub fn new() -> (r: RegionBuilder)
        ensures
            r@ == Seq::<u8>::empty(),
    {
        RegionBuilder { bytes: Vec::new() }
    }

    /// How many bytes are staged.
    pub fn len(&self) -> (r: usize)
        ensures
            r == self@.len(),
    {
        self.bytes.len()
    }

    /// The finished image.
    pub fn into_bytes(self) -> (r: Vec<u8>)
        ensures
            r@ == self@,
    {
        self.bytes
    }

    /// Carves the next sub-range: pads with zeros up to `align`, appends
    /// `data`, and returns the offset the data landed on — aligned as
    /// asked, and never past the end of the staged bytes.
    pub fn write_bytes(&mut self, data: &Vec<u8>, align: usize) -> (off: usize)
        requires
            align == 1 || align == 2 || align == 4 || align == 8,
            old(self)@.len() + align <= usize::MAX,
        ensures
            off == round_up(old(self)@.len() as int, align as int),
            (off as int) % (align as int) == 0,
            final(self)@ == old(self)@ + zeros((off - old(self)@.len()) as nat) + data@,
            final(self)@.len() == off + data@.len(),
            final(self)@.subrange(off as int, off + data@.len()) == data@,
    {
        proof {
            lemma_round_up(self@.len() as int, align as int);
        }
        let len = self.bytes.len();
        let pad = (align - len % align) % align;
        let mut i: usize = 0;
        while i < pad
            invariant
                i <= pad,
                self.bytes@ == old(self)@ + zeros(i as nat),
            decreases pad - i,
        {
            self.bytes.push(0);
            assert(self.bytes@ =~= old(self)@ + zeros((i + 1) as nat));
            i = i + 1;
        }
        let off = len + pad;
        let ghost mid = self.bytes@;
        let mut j: usize = 0;
        while j < data.len()
            invariant
                j <= data@.len(),
                self.bytes@ == mid + data@.take(j as int),
            decreases data@.len() - j,
        {
            self.bytes.push(data[j]);
            assert(self.bytes@ =~= mid + data@.take(j + 1));
            j = j + 1;
        }
        assert(data@.take(data@.len() as int) =~= data@);
        assert(self.bytes@.subrange(off as int, off + data@.len()) =~= data@);
        off
    }
}

} // verus!

//! The deployed thunk image.
//!
//! The thunk is a small piece of position-independent machine code started
//! as a new thread inside the target. It is assembled once per injector
//! process: the code bytes come first, then zero padding up to pointer
//! alignment, then a fixed table of four pointer-sized addresses — the
//! loader primitives resolved in this process, which are valid in the
//! target because both processes map the loader at the same base. The
//! code finds the table by a PC-relative offset fixed at assembly time,
//! so the layout here is part of the thunk's contract.

use crate::codec::u64_le;
use crate::codec::push_u64_le;
use crate::region::{round_up, zeros};
use vstd::prelude::*;

verus! {

/// The width of a pointer in the image, in bytes.
pub const POINTER_SIZE: usize = 8;

/// The four loader-primitive addresses, in the order the thunk reads
/// them: load a module by wide path, free a module, look a symbol up,
/// read the last error.
#[derive(Clone, Copy, Debug, PartialEq, Eq, Structural)]
pub struct LoaderTable {
    /// The address of the module-load primitive.
    pub load: u64,
    /// The address of the module-free primitive.
    pub free_module: u64,
    /// The address of the symbol-lookup primitive.
    pub lookup: u64,
    /// The address of the last-error primitive.
    pub last_error: u64,
}

/// The deployed image: the code, zero padding to pointer alignment, then
/// the table's four addresses in order, each native-endian pointer-width.
pub open spec fn thunk_image(code: Seq<u8>, table: LoaderTable) -> Seq<u8> {
    code + zeros((round_up(code.len() as int, POINTER_SIZE as int) - code.len()) as nat)
        + u64_le(table.load) + u64_le(table.free_module) + u64_le(table.lookup) + u64_le(
        table.last_error)
}

/// Assembles the image deployed into the target: the machine code for
/// this architecture, padded with zeros to pointer alignment, followed by
/// the resolved loader-primitive table.
pub fn build_thunk_image(code: &Vec<u8>, table: &LoaderTable) -> (r: Vec<u8>)
    requires
        code@.len() + 8 <= usize::MAX,
    ensures
        r@ == thunk_image(code@, *table),
        r@.len() == round_up(code@.len() as int, POINTER_SIZE as int) + 4 * POINTER_SIZE,
{
    proof {
        crate::region::lemma_round_up(code@.len() as int, POINTER_SIZE as int);
    }
    let mut out: Vec<u8> = Vec::new();
    let mut i: usize = 0;
    while i < code.len()
        invariant
            i <= code@.len(),
            out@ == code@.take(i as int),
        decreases code@.len() - i,
    {
        out.push(code[i]);
        assert(out@ =~= code@.take(i + 1));
        i = i + 1;
    }
    assert(code@.take(code@.len() as int) =~= code@);
    let pad = (POINTER_SIZE - code.len() % POINTER_SIZE) % POINTER_SIZE;
    let mut j: usize = 0;
    while j < pad
        invariant
            j <= pad,
            out@ == code@ + zeros(j as nat),
        decreases pad - j,
    {
        out.push(0);
        assert(out@ =~= code@ + zeros((j + 1) as nat));
        j = j + 1;
    }
    push_u64_le(&mut out, table.load);
    push_u64_le(&mut out, table.free_module);
    push_u64_le(&mut out, table.lookup);
    push_u64_le(&mut out, table.last_error);
    assert(out@ =~= thunk_image(code@, *table));
    out
}

} // verus!

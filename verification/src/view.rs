//! Positions in strided matrix views.

use vstd::prelude::*;

verus! {

/// A position in memory counted in elements, moved with wrap-around.
#[derive(Clone, Copy, Debug, PartialEq, Eq, Structural)]
pub struct Ptr {
    pub addr: usize,
}

/// `x` brought into the range of a machine word by adding or taking away
/// one full turn.
pub open spec fn wrap_once(x: int) -> int {
    if x > usize::MAX {
        x - usize::MAX - 1
    } else if x < 0 {
        x + usize::MAX + 1
    } else {
        x
    }
}

impl Ptr {
    /// The position `offset` elements further on, or back for a negative `offset`.
    pub fn wrapping_offset(self, offset: isize) -> (p: Ptr)
        ensures
            p.addr == wrap_once(self.addr + offset),
    {
        Ptr { addr: self.addr.wrapping_add_signed(offset) }
    }

    /// The position `offset` elements further on.
    pub fn wrapping_add(self, offset: usize) -> (p: Ptr)
        ensures
            p.addr == wrap_once(self.addr + offset),
    {
        Ptr { addr: self.addr.wrapping_add(offset) }
    }
}

/// Signed distance in elements from the start of a view to its element at
/// (`row`, `col`).
pub open spec fn spec_element_offset(row: int, col: int, rs: int, cs: int) -> int {
    row * rs + col * cs
}

proof fn lemma_product_bounded(a: int, b: int)
    requires
        0 <= a <= 0xffff_ffff_ffff_ffff,
        -0x8000_0000_0000_0000 <= b <= 0x7fff_ffff_ffff_ffff,
    ensures
        -0x7fff_ffff_ffff_ffff_8000_0000_0000_0000 <= a * b <= 0x7fff_ffff_ffff_ffff_8000_0000_0000_0000,
{
    assert(a * b <= 0xffff_ffff_ffff_ffff * 0x7fff_ffff_ffff_ffff) by (nonlinear_arith)
        requires 0 <= a <= 0xffff_ffff_ffff_ffff, b <= 0x7fff_ffff_ffff_ffff;
    assert(a * b >= 0xffff_ffff_ffff_ffff * (-0x8000_0000_0000_0000)) by (nonlinear_arith)
        requires 0 <= a <= 0xffff_ffff_ffff_ffff, -0x8000_0000_0000_0000 <= b;
}

/// Signed distance in elements from the start of a view to its element at
/// (`row`, `col`), where that distance fits a signed machine word.
pub fn element_offset(row: usize, col: usize, rs: isize, cs: isize) -> (offset: Option<isize>)
    ensures
        offset.is_some() <==> isize::MIN <= spec_element_offset(
            row as int,
            col as int,
            rs as int,
            cs as int,
        ) <= isize::MAX,
        offset.is_some() ==> offset.unwrap() == spec_element_offset(
            row as int,
            col as int,
            rs as int,
            cs as int,
        ),
{
    proof {
        lemma_product_bounded(row as int, rs as int);
        lemma_product_bounded(col as int, cs as int);
    }
    let down: i128 = (row as i128) * (rs as i128);
    let along: i128 = (col as i128) * (cs as i128);
    match down.checked_add(along) {
        Some(total) => {
            if total < isize::MIN as i128 || total > isize::MAX as i128 {
                None
            } else {
                Some(total as isize)
            }
        },
        None => None,
    }
}

} // verus!

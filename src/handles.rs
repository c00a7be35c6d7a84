//! Plain-value identifiers of engine objects.
use vstd::prelude::*;

verus! {

/// A generational handle of a joint inside the physics engine's joint table.
#[derive(Clone, Copy, Debug, PartialEq, Eq, Structural)]
pub struct JointHandle {
    pub index: u32,
    pub generation: u32,
}

/// A generational handle of a rigid body inside the physics engine's body table.
#[derive(Clone, Copy, Debug, PartialEq, Eq, Structural)]
pub struct BodyHandle {
    pub index: u32,
    pub generation: u32,
}

/// One integer for a joint handle: its generation in the high half, its index
/// in the low half.
pub open spec fn handle_key(h: JointHandle) -> u64 {
    (h.generation as int * 0x1_0000_0000 + h.index as int) as u64
}

/// Distinct handles have distinct keys.
pub proof fn lemma_handle_key_injective(a: JointHandle, b: JointHandle)
    ensures
        handle_key(a) == handle_key(b) <==> a == b,
{
    let ga = a.generation as int;
    let gb = b.generation as int;
    let ia = a.index as int;
    let ib = b.index as int;
    assert(0 <= ga * 0x1_0000_0000 + ia < 0x1_0000_0000_0000_0000) by (nonlinear_arith)
        requires 0 <= ga < 0x1_0000_0000, 0 <= ia < 0x1_0000_0000;
    assert(0 <= gb * 0x1_0000_0000 + ib < 0x1_0000_0000_0000_0000) by (nonlinear_arith)
        requires 0 <= gb < 0x1_0000_0000, 0 <= ib < 0x1_0000_0000;
    if ga * 0x1_0000_0000 + ia == gb * 0x1_0000_0000 + ib {
        assert(ga == gb && ia == ib) by (nonlinear_arith)
            requires
                ga * 0x1_0000_0000 + ia == gb * 0x1_0000_0000 + ib,
                0 <= ia < 0x1_0000_0000,
                0 <= ib < 0x1_0000_0000,
        ;
    }
}

impl JointHandle {
    /// The handle's single-integer key.
    pub fn key(&self) -> (r: u64)
        ensures
            r == handle_key(*self),
    {
        proof {
            let g = self.generation as int;
            let i = self.index as int;
            assert(0 <= g * 0x1_0000_0000 + i < 0x1_0000_0000_0000_0000) by (nonlinear_arith)
                requires 0 <= g < 0x1_0000_0000, 0 <= i < 0x1_0000_0000;
        }
        (self.generation as u64) * 0x1_0000_0000 + (self.index as u64)
    }
}

} // verus!

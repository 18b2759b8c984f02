//! Reduced serial bus controller: clock gating of the PRCM block.
use vstd::prelude::*;
use crate::devices::io::{self, RegOp};

verus! {

pub const REG_BASE: u32 = 0x01f03400;
pub const SUNXI_PRCM_BASE: u32 = 0x01f01400;

/// Offset of the APB0 gating register.
pub const APB0_GATE: u32 = 0x028;
pub const GATE_PIO: u32 = 1;
pub const GATE_RSB: u32 = 8;

/// The reduced serial bus controller.
pub struct RSB;

impl RSB {
    pub fn get() -> (r: RSB) {
        RSB {}
    }

    /// Let the PIO and RSB clocks pass on APB0.
    pub fn init(prog: &mut Vec<RegOp>)
        ensures
            final(prog)@ == old(prog)@.push(
                RegOp::Modify { addr: (REG_BASE + APB0_GATE) as u32, clear: 0, set: GATE_PIO | GATE_RSB },
            ),
    {
        io::set_bits(prog, REG_BASE + APB0_GATE, GATE_PIO | GATE_RSB);
    }
}

} // verus!

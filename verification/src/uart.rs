//! Minimal UART0 driver of the stand-alone console program.
use vstd::prelude::*;
use crate::devices::io::{self, RegOp};

verus! {

pub const AW_CCM_BASE: u32 = 0x01c20000;
pub const SUNXI_UART0_BASE: u32 = 0x01C28000;
pub const APB2_GATE: u32 = AW_CCM_BASE + 0x06C;
pub const APB2_RESET: u32 = AW_CCM_BASE + 0x2D8;
pub const APB2_GATE_UART_SHIFT: u32 = 16;
pub const APB2_RESET_UART_SHIFT: u32 = 16;
/// Divisor for 115200 baud from 24 MHz: 24 * 1000 * 1000 / 16 / 115200 = 13.
pub const BAUD_115200: u32 = 0xd;
pub const NO_PARITY: u32 = 0;
pub const ONE_STOP_BIT: u32 = 0;
pub const DAT_LEN_8_BITS: u32 = 3;
/// 8 data bits, no parity, one stop bit.
pub const LC_8_N_1: u32 = 3;
/// Receive buffer register.
pub const UART0_RBR: u32 = SUNXI_UART0_BASE + 0x0;
/// Transmit holding register.
pub const UART0_THR: u32 = SUNXI_UART0_BASE + 0x0;
/// Divisor latch low register.
pub const UART0_DLL: u32 = SUNXI_UART0_BASE + 0x0;
/// Line control register.
pub const UART0_LCR: u32 = SUNXI_UART0_BASE + 0xc;
/// Line status register.
pub const UART0_LSR: u32 = SUNXI_UART0_BASE + 0x14;
/// Interrupt enable register.
pub const UART0_IER: u32 = SUNXI_UART0_BASE + 0x4;

/// The accesses of the UART0 setup: clock gate and reset released, divisor latch open,
/// interrupts off, 115200 baud, 8N1.
pub open spec fn uart_init_program() -> Seq<RegOp> {
    seq![
        RegOp::Modify { addr: APB2_GATE, clear: 0, set: io::bit_spec(APB2_GATE_UART_SHIFT) },
        RegOp::Modify { addr: APB2_RESET, clear: 0, set: io::bit_spec(APB2_RESET_UART_SHIFT) },
        RegOp::Write { addr: UART0_LCR, value: 0x80 },
        RegOp::Write { addr: UART0_IER, value: 0 },
        RegOp::Write { addr: UART0_DLL, value: BAUD_115200 },
        RegOp::Write { addr: UART0_LCR, value: LC_8_N_1 },
    ]
}

/// The accesses that send the characters `cs`: for each, wait for the transmitter, then
/// store its code point in the transmit register.
pub open spec fn puts_ops(cs: Seq<char>) -> Seq<RegOp>
    decreases cs.len(),
{
    if cs.len() == 0 {
        seq![]
    } else {
        puts_ops(cs.drop_last()) + seq![
            RegOp::WaitSet { addr: UART0_LSR, mask: 0x20 },
            RegOp::Write { addr: UART0_THR, value: cs.last() as u32 },
        ]
    }
}

/// Set up UART0 for 115200 8N1.
pub fn uart_init(prog: &mut Vec<RegOp>)
    ensures
        final(prog)@ == old(prog)@ + uart_init_program(),
{
    /* init clocks */
    io::set_bits(prog, APB2_GATE, 1u32 << APB2_GATE_UART_SHIFT);
    io::set_bits(prog, APB2_RESET, 1u32 << APB2_RESET_UART_SHIFT);

    io::write(prog, UART0_LCR, 0x80);
    io::write(prog, UART0_IER, 0);
    io::write(prog, UART0_DLL, BAUD_115200);
    io::write(prog, UART0_LCR, LC_8_N_1);
    assert(prog@ =~= old(prog)@ + uart_init_program());
}

/// Send the characters of `s`.
pub fn uart_puts(prog: &mut Vec<RegOp>, s: &str)
    ensures
        final(prog)@ == old(prog)@ + puts_ops(s@),
{
    let ghost start = prog@;
    let cs = crate::devices::uart::str_chars(s);
    let mut i: usize = 0;
    while i < cs.len()
        invariant
            i <= cs@.len(),
            cs@ == s@,
            prog@ == start + puts_ops(cs@.take(i as int)),
        decreases cs.len() - i,
    {
        prog.push(RegOp::WaitSet { addr: UART0_LSR, mask: 0x20 });
        prog.push(RegOp::Write { addr: UART0_THR, value: cs[i] as u32 });
        assert(cs@.take(i + 1).drop_last() =~= cs@.take(i as int));
        assert(prog@ =~= start + puts_ops(cs@.take(i + 1)));
        i += 1;
    }
    assert(cs@.take(i as int) =~= s@);
}

/// Wait for a received character and load it (the character is the value loaded).
pub fn uart_getc(prog: &mut Vec<RegOp>)
    ensures
        final(prog)@ == old(prog)@ + seq![
            RegOp::WaitSet { addr: UART0_LSR, mask: 0x01 },
            RegOp::Read { addr: UART0_RBR },
        ],
{
    prog.push(RegOp::WaitSet { addr: UART0_LSR, mask: 0x01 });
    prog.push(RegOp::Read { addr: UART0_RBR });
    assert(prog@ =~= old(prog)@ + seq![
        RegOp::WaitSet { addr: UART0_LSR, mask: 0x01 },
        RegOp::Read { addr: UART0_RBR },
    ]);
}

} // verus!

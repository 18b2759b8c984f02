//! The stand-alone console program: it greets, echoes each key, and switches the LED on
//! PB24 on with `1` and off with `0`.
use vstd::prelude::*;
use crate::devices::io::{self, RegOp};
use crate::uart::{puts_ops, uart_puts};

verus! {

/// Data register of port B.
pub const PB_DAT: u32 = 0x01C2090C;
/// PB24 in the data register.
pub const LED_BIT: u32 = 0x1000000;

/// The prompt sent before each key.
pub open spec fn prompt_text() -> Seq<char> {
    "\rhello, world! >"@
}

/// Switch the LED on.
pub fn led_on(prog: &mut Vec<RegOp>)
    ensures
        final(prog)@ == old(prog)@.push(RegOp::Write { addr: PB_DAT, value: LED_BIT }),
{
    io::write(prog, PB_DAT, LED_BIT);
}

/// Switch the LED off.
pub fn led_off(prog: &mut Vec<RegOp>)
    ensures
        final(prog)@ == old(prog)@.push(RegOp::Write { addr: PB_DAT, value: 0 }),
{
    io::write(prog, PB_DAT, 0);
}

/// Send the prompt.
pub fn prompt(prog: &mut Vec<RegOp>)
    ensures
        final(prog)@ == old(prog)@ + puts_ops(prompt_text()),
{
    uart_puts(prog, "\rhello, world! >");
}

/// Handle the key `x` (the value loaded from the receive buffer): echo it and a line feed,
/// then switch the LED off for `0` and on for `1`.
pub fn on_key(prog: &mut Vec<RegOp>, x: u32)
    requires
        (x as u8) < 0x80,
    ensures
        final(prog)@ == old(prog)@ + puts_ops(seq![(x as u8) as char, '\n']) + if x as u8 == 0x30 {
            seq![RegOp::Write { addr: PB_DAT, value: 0 }]
        } else if x as u8 == 0x31 {
            seq![RegOp::Write { addr: PB_DAT, value: LED_BIT }]
        } else {
            seq![]
        },
{
    let ghost start = prog@;
    let b = #[verifier::truncate] (x as u8);
    let c = b as char;
    prog.push(RegOp::WaitSet { addr: crate::uart::UART0_LSR, mask: 0x20 });
    prog.push(RegOp::Write { addr: crate::uart::UART0_THR, value: c as u32 });
    prog.push(RegOp::WaitSet { addr: crate::uart::UART0_LSR, mask: 0x20 });
    prog.push(RegOp::Write { addr: crate::uart::UART0_THR, value: '\n' as u32 });
    proof {
        let cs = seq![c, '\n'];
        assert(cs.drop_last() =~= seq![c]);
        assert(seq![c].drop_last() =~= seq![]);
        assert(puts_ops(seq![]) =~= seq![]);
        assert(puts_ops(seq![c]) =~= seq![
            RegOp::WaitSet { addr: crate::uart::UART0_LSR, mask: 0x20 },
            RegOp::Write { addr: crate::uart::UART0_THR, value: c as u32 },
        ]);
        assert(cs.last() == '\n');
        assert(prog@ =~= start + puts_ops(cs));
    }
    let ghost mid = prog@;
    if b == 0x30 {
        led_off(prog);
    } else if b == 0x31 {
        led_on(prog);
    } else {
        assert(prog@ =~= mid + seq![]);
    }
}

} // verus!

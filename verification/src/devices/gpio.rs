//! PIO (GPIO) controller: pin function multiplexing and pin levels.
use vstd::prelude::*;
use crate::devices::io::{RegOp, apply, bit_spec, clrset_spec, get_bit_spec};

verus! {

pub const PIO_BASE: u32 = 0x01c20800;

pub const GPIO_PB: u32 = 1;
pub const GPIO_PH: u32 = 7;

pub const GPIO_IN: u32 = 0;
pub const GPIO_OUT: u32 = 1;
pub const GPIO_UART: u32 = 2;
/// Mux function of PB0/PB1 for the TWI0 bus.
pub const GPIO_TWI: u32 = 2;

/// Address of configuration register `n` of `port`.
pub open spec fn port_cfg_spec(port: u32, n: u32) -> int {
    PIO_BASE + port * 0x24 + n * 4
}

/// Address of the data register of `port`.
pub open spec fn port_dat_spec(port: u32) -> int {
    PIO_BASE + port * 0x24 + 0x10
}

/// Address of drive register `n` of `port`.
pub open spec fn port_drv_spec(port: u32, n: u32) -> int {
    PIO_BASE + port * 0x24 + 0x14 + n * 4
}

/// Address of pull register `n` of `port`.
pub open spec fn port_pull_spec(port: u32, n: u32) -> int {
    PIO_BASE + port * 0x24 + 0x1c + n * 4
}

pub fn port_cfg(port: u32, n: u32) -> (r: u32)
    requires
        port_cfg_spec(port, n) <= u32::MAX,
    ensures
        r == port_cfg_spec(port, n),
{
    PIO_BASE + port * 0x24 + n * 4
}

pub fn port_dat(port: u32) -> (r: u32)
    requires
        port_dat_spec(port) <= u32::MAX,
    ensures
        r == port_dat_spec(port),
{
    PIO_BASE + port * 0x24 + 0x10
}

pub fn port_drv(port: u32, n: u32) -> (r: u32)
    requires
        port_drv_spec(port, n) <= u32::MAX,
    ensures
        r == port_drv_spec(port, n),
{
    PIO_BASE + port * 0x24 + 0x14 + n * 4
}

pub fn port_pull(port: u32, n: u32) -> (r: u32)
    requires
        port_pull_spec(port, n) <= u32::MAX,
    ensures
        r == port_pull_spec(port, n),
{
    PIO_BASE + port * 0x24 + 0x1c + n * 4
}

/// The 4-bit function field of pin slot `k` (0..8) in a configuration register value.
pub open spec fn cfg_field(v: u32, k: u32) -> u32 {
    (v >> (k * 4)) & 0xf
}

/// The configuration register that holds the function field of `pin`.
pub open spec fn cfg_reg_of(port: u32, pin: u32) -> u32 {
    port_cfg_spec(port, pin >> 3) as u32
}

/// The read-modify-write that gives `pin` the mux function `fun`.
pub open spec fn cfg_op(port: u32, pin: u32, fun: u32) -> RegOp {
    RegOp::Modify {
        addr: cfg_reg_of(port, pin),
        clear: (0x0fu32 << ((pin & 7) << 2)) as u32,
        set: (fun << ((pin & 7) << 2)) as u32,
    }
}

/// One port of the PIO controller.
pub struct GPIO {
    port: u32,
}

impl GPIO {
    /// The port number.
    pub closed spec fn port_spec(&self) -> u32 {
        self.port
    }

    pub fn get(port: u32) -> (r: GPIO)
        ensures
            r.port_spec() == port,
    {
        GPIO { port: port }
    }

    /// Give `pin` the mux function `fun`.
    pub fn cfg(&mut self, prog: &mut Vec<RegOp>, pin: u32, fun: u32)
        requires
            port_cfg_spec(old(self).port_spec(), pin >> 3) <= u32::MAX,
        ensures
            *final(self) == *old(self),
            final(prog)@ == old(prog)@.push(cfg_op(old(self).port_spec(), pin, fun)),
    {
        let n = pin >> 3;
        let r = (pin & 7) << 2;
        assert((pin & 7) << 2 <= 28) by (bit_vector);
        let reg = port_cfg(self.port, n);
        prog.push(RegOp::Modify { addr: reg, clear: 0x0f << r, set: fun << r });
    }

    /// Drive `pin` high.
    pub fn set_high(&mut self, prog: &mut Vec<RegOp>, pin: u32)
        requires
            pin < 32,
            port_dat_spec(old(self).port_spec()) <= u32::MAX,
        ensures
            *final(self) == *old(self),
            final(prog)@ == old(prog)@.push(
                RegOp::Modify { addr: port_dat_spec(old(self).port_spec()) as u32, clear: 0, set: bit_spec(pin) },
            ),
    {
        let reg = port_dat(self.port);
        prog.push(RegOp::Modify { addr: reg, clear: 0, set: 1u32 << pin });
    }

    /// Drive `pin` low.
    pub fn set_low(&mut self, prog: &mut Vec<RegOp>, pin: u32)
        requires
            pin < 32,
            port_dat_spec(old(self).port_spec()) <= u32::MAX,
        ensures
            *final(self) == *old(self),
            final(prog)@ == old(prog)@.push(
                RegOp::Modify { addr: port_dat_spec(old(self).port_spec()) as u32, clear: bit_spec(pin), set: 0 },
            ),
    {
        let reg = port_dat(self.port);
        prog.push(RegOp::Modify { addr: reg, clear: 1u32 << pin, set: 0 });
    }

    /// Whether the port's data register lies below 2^32 (what driving or reading its pins
    /// requires).
    pub fn dat_in_range(&self) -> (r: bool)
        ensures
            r == (port_dat_spec(self.port_spec()) <= u32::MAX),
    {
        self.port <= (u32::MAX - PIO_BASE - 0x10) / 0x24
    }

    /// Load the data register of the port (its value is what `is_high` tests).
    pub fn read_dat(&mut self, prog: &mut Vec<RegOp>)
        requires
            port_dat_spec(old(self).port_spec()) <= u32::MAX,
        ensures
            *final(self) == *old(self),
            final(prog)@ == old(prog)@.push(RegOp::Read { addr: port_dat_spec(old(self).port_spec()) as u32 }),
    {
        let reg = port_dat(self.port);
        prog.push(RegOp::Read { addr: reg });
    }

    /// Whether `pin` is high in `dat`, the value loaded from the data register.
    pub fn is_high(&mut self, pin: u32, dat: u32) -> (r: bool)
        requires
            pin < 32,
        ensures
            *final(self) == *old(self),
            r == get_bit_spec(dat, pin),
    {
        dat & (1u32 << pin) > 0
    }
}

/// Configuring a pin sets its function field to `fun` and leaves the fields of the other
/// pins in that register, and every other register, as they were.
pub proof fn lemma_cfg_reads_back(regs: spec_fn(u32) -> u32, port: u32, pin: u32, fun: u32, k: u32, other: u32)
    requires
        fun < 16,
        k < 8,
        other != cfg_reg_of(port, pin),
    ensures
        ({
            let after = apply(regs, cfg_op(port, pin, fun));
            let a = cfg_reg_of(port, pin);
            &&& cfg_field(after(a), pin & 7) == fun
            &&& k != (pin & 7) ==> cfg_field(after(a), k) == cfg_field(regs(a), k)
            &&& after(other) == regs(other)
        }),
{
    let a = cfg_reg_of(port, pin);
    let v = regs(a);
    assert(((((v & !(0x0fu32 << ((pin & 7) << 2))) | (fun << ((pin & 7) << 2))) >> ((pin & 7) * 4)) & 0xf) == fun) by (bit_vector)
        requires fun < 16;
    assert(k != (pin & 7) ==> ((((v & !(0x0fu32 << ((pin & 7) << 2))) | (fun << ((pin & 7) << 2))) >> (k * 4)) & 0xf) == ((v >> (k * 4)) & 0xf)) by (bit_vector)
        requires fun < 16, k < 8;
}

/// After driving a pin high it reads high, after driving it low it reads low, and the other
/// pins of the port keep their levels.
pub proof fn lemma_level_reads_back(dat: u32, pin: u32, other: u32)
    requires
        pin < 32,
        other < 32,
    ensures
        get_bit_spec(clrset_spec(dat, 0, bit_spec(pin)), pin),
        !get_bit_spec(clrset_spec(dat, bit_spec(pin), 0), pin),
        other != pin ==> get_bit_spec(clrset_spec(dat, 0, bit_spec(pin)), other) == get_bit_spec(dat, other),
        other != pin ==> get_bit_spec(clrset_spec(dat, bit_spec(pin), 0), other) == get_bit_spec(dat, other),
{
    crate::devices::io::lemma_set_bit_reads_back(dat, pin, other, true);
    crate::devices::io::lemma_set_bit_reads_back(dat, pin, other, false);
}

} // verus!

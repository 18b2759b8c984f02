//! Clock control unit: bus clock gates, CPU PLL and the DRAM clock and controller bring-up.
use vstd::prelude::*;
use crate::devices::io::{self, RegOp, apply, bit_spec, clrset_spec, get_bit_spec, op_effect, reg_after};

verus! {

pub const REG_BASE: u32 = 0x01c20000;

pub const CCU_PLL1_CFG: u32 = 0x00;
pub const CCU_PLL5_CFG: u32 = 0x20;
pub const CCU_PLL6_CFG: u32 = 0x28;
pub const CCU_MBUS_CLK_CFG: u32 = 0x15c;

pub const CCU_CPU_AHB_APB0_CFG: u32 = 0x54;
pub const CCU_AHB0: u32 = 0x60;
pub const CCU_AHB1: u32 = 0x64;
pub const CCU_APB0: u32 = 0x68;
pub const CCU_APB1: u32 = 0x6c;

pub const CCU_APB1_UART0: u32 = 16;
pub const CCU_APB1_UART1: u32 = 17;
pub const CCU_APB1_UART2: u32 = 18;
pub const CCU_APB1_UART3: u32 = 19;

pub const CCU_APB1_TWI3: u32 = 3;
pub const CCU_APB1_TWI2: u32 = 2;
pub const CCU_APB1_TWI1: u32 = 1;
pub const CCU_APB1_TWI0: u32 = 0;

pub const CCU_CPU_CLOCK_SRC_PLL1: u32 = 2;

/// DRAM clock in MHz.
pub const CLK: u32 = 432;
/// MBUS clock in MHz.
pub const MBUS_CLK: u32 = 300;

/// A clock gating register: one enable bit per device.
pub struct ClockGate {
    reg: u32,
}

impl ClockGate {
    /// Address of the gating register.
    pub closed spec fn reg_spec(&self) -> u32 {
        self.reg
    }

    /// Gate off the clock of `device` (clear its bit).
    pub fn mask(&mut self, prog: &mut Vec<RegOp>, device: u32)
        requires
            device < 32,
        ensures
            *final(self) == *old(self),
            final(prog)@ == old(prog)@.push(
                RegOp::Modify { addr: old(self).reg_spec(), clear: bit_spec(device), set: 0 },
            ),
    {
        io::set_bit(prog, self.reg, device, false);
    }

    /// Let the clock of `device` pass (set its bit).
    pub fn pass(&mut self, prog: &mut Vec<RegOp>, device: u32)
        requires
            device < 32,
        ensures
            *final(self) == *old(self),
            final(prog)@ == old(prog)@.push(
                RegOp::Modify { addr: old(self).reg_spec(), clear: 0, set: bit_spec(device) },
            ),
    {
        io::set_bit(prog, self.reg, device, true);
    }
}

/// The clock control unit.
pub struct CCU;

/// PLL5 configuration for the DRAM clock, from the value `v` loaded from PLL5: factors
/// M = 2, K = 2, N = CLK / 24, VCO gain off, PLL enabled; other bits kept.
pub open spec fn pll5_dram_cfg(v: u32) -> u32 {
    (v & !(0x3u32 | (0x3u32 << 4u32) | (0x1fu32 << 8u32) | (0x3u32 << 16u32) | (1u32 << 19u32)))
        | 1u32 | (1u32 << 4u32) | ((CLK / 24) << 8u32) | (1u32 << 31u32)
}

/// Value of PLL6 that the DRAM clock setup programs.
pub const PLL6_DRAM_CFG: u32 = 0xa1009911;

/// PLL6 output (in MHz, halved) from the value loaded from PLL6: 24 * N * K / 2.
pub open spec fn pll6_half_mhz(pll6: u32) -> int {
    24 * ((pll6 >> 8u32) & 0x1f) * (((pll6 >> 4u32) & 0x3) + 1) / 2
}

/// MBUS divider M: the least M with PLL6 / M at most MBUS_CLK.
pub open spec fn mbus_divider(pll6: u32) -> int {
    (pll6_half_mhz(pll6) * 2 + MBUS_CLK - 1) / (MBUS_CLK as int)
}

/// MBUS configuration: gating on, clock from PLL6, N = 1, M as above (field holds M - 1).
pub open spec fn mbus_cfg(pll6: u32) -> u32 {
    ((1u32 << 31u32) | (1u32 << 24u32) | ((mbus_divider(pll6) - 1) as u32)) as u32
}

/// Address of the CCU register at offset `off`.
pub open spec fn ccu_reg(off: u32) -> u32 {
    (REG_BASE + off) as u32
}

/// The accesses of the DRAM clock setup between the load of PLL5 and the load of PLL6.
pub open spec fn dram_clock_program(pll5: u32) -> Seq<RegOp> {
    seq![
        RegOp::Write { addr: ccu_reg(CCU_PLL6_CFG), value: PLL6_DRAM_CFG },
        RegOp::Modify { addr: ccu_reg(CCU_AHB0), clear: 0, set: bit_spec(6) },
        RegOp::Write { addr: ccu_reg(CCU_PLL5_CFG), value: pll5_dram_cfg(pll5) },
        RegOp::Delay { ticks: 2_000_000 },
        RegOp::Modify { addr: ccu_reg(CCU_PLL5_CFG), clear: 0, set: bit_spec(29) },
        RegOp::Modify { addr: ccu_reg(0xd0), clear: 3, set: 0 },
        RegOp::Modify { addr: ccu_reg(CCU_AHB0), clear: 0, set: bit_spec(26) },
        RegOp::Delay { ticks: 0xfffff },
        RegOp::Modify { addr: ccu_reg(CCU_AHB0), clear: bit_spec(26), set: 0 },
        RegOp::Read { addr: ccu_reg(CCU_PLL6_CFG) },
    ]
}

/// The accesses of the DRAM clock setup after the load of PLL6.
pub open spec fn mbus_clock_program(pll6: u32) -> Seq<RegOp> {
    seq![
        RegOp::Write { addr: ccu_reg(CCU_MBUS_CLK_CFG), value: mbus_cfg(pll6) },
        RegOp::Modify { addr: ccu_reg(CCU_AHB0), clear: 0, set: 1u32 << 25u32 },
        RegOp::Delay { ticks: 0xfffff },
        RegOp::Modify { addr: ccu_reg(CCU_AHB0), clear: (1u32 << 14u32) | (1u32 << 15u32), set: 0 },
        RegOp::Delay { ticks: 0xfffff },
        RegOp::Modify { addr: ccu_reg(CCU_AHB0), clear: 0, set: (1u32 << 14u32) | (1u32 << 15u32) },
        RegOp::Delay { ticks: 0xfffff },
    ]
}

/// PLL1 configuration the CPU clock switch programs: enable, N field 19, K field 1
/// (factor 2), VCO bias 8, bias current 16, lock time 2; from the 24 MHz input that is
/// 24 MHz * 19 * 2 = 912 MHz.
pub open spec fn cfg_pll1_spec() -> u32 {
    (1u32 << 31u32) | (19u32 << 8u32) | (1u32 << 4u32) | (8u32 << 26u32) | (16u32 << 20u32) | (2u32 << 13u32)
}

/// CPU/AHB/APB0 divider fields used with PLL1: AXI field 2, AHB field 1, APB0 field 1.
pub open spec fn cfg_cpu_1500_spec() -> u32 {
    2u32 | (1u32 << 4u32) | (1u32 << 8u32)
}

/// CPU/AHB/APB0 dividers for the 24 MHz oscillator.
pub open spec fn cfg_cpu_24_spec() -> u32 {
    1u32 | (2u32 << 4u32) | (1u32 << 8u32)
}

/// The accesses that switch the CPU clock to PLL1 (see `cfg_pll1_spec`), going through the
/// 24 MHz oscillator.
pub open spec fn cpu_1500mhz_program() -> Seq<RegOp> {
    seq![
        RegOp::Write { addr: ccu_reg(CCU_CPU_AHB_APB0_CFG), value: cfg_cpu_24_spec() | (1u32 << 16u32) },
        RegOp::Delay { ticks: 100 },
        RegOp::Write { addr: ccu_reg(CCU_CPU_AHB_APB0_CFG), value: cfg_cpu_1500_spec() | (1u32 << 16u32) },
        RegOp::Write { addr: ccu_reg(CCU_PLL1_CFG), value: cfg_pll1_spec() },
        RegOp::Delay { ticks: 100 },
        RegOp::Write { addr: ccu_reg(CCU_CPU_AHB_APB0_CFG), value: cfg_cpu_1500_spec() | (2u32 << 16u32) },
        RegOp::Delay { ticks: 100 },
    ]
}

impl CCU {
    pub fn get() -> (r: CCU) {
        CCU {}
    }

    /// The gating register at offset `unit` of the CCU.
    pub fn clock_gate(&mut self, unit: u32) -> (r: ClockGate)
        requires
            REG_BASE + unit <= u32::MAX,
        ensures
            r.reg_spec() == REG_BASE + unit,
    {
        ClockGate { reg: REG_BASE + unit }
    }

    /// Load PLL5, whose value `set_dram_clock` takes.
    pub fn read_pll5(&mut self, prog: &mut Vec<RegOp>)
        ensures
            final(prog)@ == old(prog)@.push(RegOp::Read { addr: ccu_reg(CCU_PLL5_CFG) }),
    {
        io::read(prog, REG_BASE + CCU_PLL5_CFG);
    }

    /// DRAM clock setup, given `pll5`, the value loaded from PLL5: program PLL6 and PLL5,
    /// enable the PLL5 output, reset GPS, and load PLL6 (whose value
    /// `set_dram_clock_mbus` takes).
    pub fn set_dram_clock(&mut self, prog: &mut Vec<RegOp>, pll5: u32)
        ensures
            final(prog)@ == old(prog)@ + dram_clock_program(pll5),
    {
        let ghost start = prog@;
        let mut v = pll5;
        io::write(prog, REG_BASE + CCU_PLL6_CFG, PLL6_DRAM_CFG);

        self.clock_gate(CCU_AHB0).pass(prog, 6);

        v &= !(0x03u32 << 0u32);  // M = 0
        v &= !(0x03u32 << 4u32);  // K = 0
        v &= !(0x1fu32 << 8u32);  // N = 0
        v &= !(0x03u32 << 16u32);  // P = 0

        v |= 1u32 << 0u32;  // M = 2
        v |= 1u32 << 4u32;  // K = 2
        v |= (CLK / 24) << 8u32;  // N = 432 / 24

        v &= !(1u32 << 19u32);  // disable VCO gain
        v |= 1u32 << 31u32;  // enable PLL5
        assert(v == pll5_dram_cfg(pll5)) by (bit_vector)
            requires
                v == ((((((((((pll5 & !(0x03u32 << 0u32)) & !(0x03u32 << 4u32)) & !(0x1fu32 << 8u32)) & !(0x03u32 << 16u32))
                    | (1u32 << 0u32)) | (1u32 << 4u32)) | (18u32 << 8u32)) & !(1u32 << 19u32)) | (1u32 << 31u32))),
        ;

        io::write(prog, REG_BASE + CCU_PLL5_CFG, v);
        prog.push(RegOp::Delay { ticks: 2_000_000 });

        /* enable PLL5 output clock */
        io::set_bit(prog, REG_BASE + CCU_PLL5_CFG, 29, true);

        /* GPS RESET */
        io::clrset_bits(prog, REG_BASE + 0xd0, 3, 0);
        self.clock_gate(CCU_AHB0).pass(prog, 26);
        prog.push(RegOp::Delay { ticks: 0xfffff });
        self.clock_gate(CCU_AHB0).mask(prog, 26);

        io::read(prog, REG_BASE + CCU_PLL6_CFG);
        assert(prog@ =~= start + dram_clock_program(pll5));
    }

    /// DRAM clock setup, given `pll6`, the value loaded from PLL6: program the MBUS clock
    /// from PLL6 and cycle the DRAM gates in AHB0.
    pub fn set_dram_clock_mbus(&mut self, prog: &mut Vec<RegOp>, pll6: u32)
        requires
            (pll6 >> 8u32) & 0x1f != 0,
        ensures
            final(prog)@ == old(prog)@ + mbus_clock_program(pll6),
    {
        let ghost start = prog@;
        let x = pll6;
        let n = (x >> 8u32) & 0x1f;
        assert((x >> 4u32) & 0x03 <= 3) by (bit_vector);
        let k = ((x >> 4u32) & 0x03) + 1;
        assert(n <= 31) by (bit_vector) requires n == (x >> 8u32) & 0x1f;
        assert(k <= 4) by (bit_vector) requires k == ((x >> 4u32) & 0x03) + 1;
        assert(24 * n * k <= 24 * 31 * 4) by (nonlinear_arith) requires n <= 31, k <= 4;
        let x = 24 * n * k / 2;
        let x = (x * 2 + MBUS_CLK - 1) / MBUS_CLK;
        assert(x >= 1) by (nonlinear_arith)
            requires x == ((24 * n * k / 2) * 2 + 299) / 300, n >= 1, k >= 1;

        let v = (1u32 << 31u32) | (1u32 << 24u32) | (x - 1);

        io::write(prog, REG_BASE + CCU_MBUS_CLK_CFG, v);

        io::clrset_bits(prog, REG_BASE + CCU_AHB0, 0, 1u32 << 25u32);
        prog.push(RegOp::Delay { ticks: 0xfffff });

        io::clrset_bits(prog, REG_BASE + CCU_AHB0, (1u32 << 14u32) | (1u32 << 15u32), 0);
        prog.push(RegOp::Delay { ticks: 0xfffff });

        io::clrset_bits(prog, REG_BASE + CCU_AHB0, 0, (1u32 << 14u32) | (1u32 << 15u32));
        prog.push(RegOp::Delay { ticks: 0xfffff });
        assert(prog@ =~= start + mbus_clock_program(pll6));
    }

    /// Whether the MBUS setup can take the value `pll6` loaded from PLL6: its N factor must
    /// be nonzero, or the MBUS divider would be 0.
    pub fn mbus_clock_ok(&self, pll6: u32) -> (r: bool)
        ensures
            r == ((pll6 >> 8u32) & 0x1f != 0),
    {
        (pll6 >> 8u32) & 0x1f != 0
    }

    /// Switch the CPU clock to PLL1 (N field 19, K field 1; see `cfg_pll1_spec`), going
    /// through the 24 MHz oscillator.
    pub fn set_cpu_1500mhz(&mut self, prog: &mut Vec<RegOp>)
        ensures
            final(prog)@ == old(prog)@ + cpu_1500mhz_program(),
    {
        let ghost start = prog@;
        let cfg_pll1: u32 = 1u32 << 31u32 |  // ENABLE = 1
        19u32 << 8u32 |  // N field = 19
        1u32 << 4u32 |  // K field = 1
        8u32 << 26u32 |  // VCO_BIAS = 8
        16u32 << 20u32 |  // BIAS_CUR = 16
        2u32 << 13u32;  // LOCK_TMR = 2

        let cfg_cpu_1500: u32 = 2u32 |  // axi field = 2
        1u32 << 4u32 |  // ahb = 1
        1u32 << 8u32;  // pb0 = 1

        let cfg_cpu_24: u32 = 1u32 | 2u32 << 4u32 | 1u32 << 8u32;

        let cfg_cpu_osc24m: u32 = 1u32 << 16u32;
        let cfg_cpu_pll1: u32 = 2u32 << 16u32;

        io::write(prog, REG_BASE + CCU_CPU_AHB_APB0_CFG, cfg_cpu_24 | cfg_cpu_osc24m);
        prog.push(RegOp::Delay { ticks: 100 });
        io::write(prog, REG_BASE + CCU_CPU_AHB_APB0_CFG, cfg_cpu_1500 | cfg_cpu_osc24m);
        io::write(prog, REG_BASE + CCU_PLL1_CFG, cfg_pll1);
        prog.push(RegOp::Delay { ticks: 100 });
        io::write(prog, REG_BASE + CCU_CPU_AHB_APB0_CFG, cfg_cpu_1500 | cfg_cpu_pll1);
        prog.push(RegOp::Delay { ticks: 100 });
        assert(prog@ =~= start + cpu_1500mhz_program());
    }
}

/// Letting a device's clock pass sets its gate bit; masking it again clears the bit; the
/// other gates keep their state throughout.
pub proof fn lemma_gate_pass_then_mask(regs: spec_fn(u32) -> u32, reg: u32, device: u32, other: u32)
    requires
        device < 32,
        other < 32,
    ensures
        ({
            let passed = apply(regs, RegOp::Modify { addr: reg, clear: 0, set: bit_spec(device) });
            let masked = apply(passed, RegOp::Modify { addr: reg, clear: bit_spec(device), set: 0 });
            &&& get_bit_spec(passed(reg), device)
            &&& !get_bit_spec(masked(reg), device)
            &&& other != device ==> get_bit_spec(masked(reg), other) == get_bit_spec(regs(reg), other)
        }),
{
    let v = regs(reg);
    crate::devices::io::lemma_set_bit_reads_back(v, device, other, true);
    crate::devices::io::lemma_set_bit_reads_back(clrset_spec(v, 0, bit_spec(device)), device, other, false);
}

} // verus!

verus! {

pub const DRAMC_BASE: u32 = 0x01c01000;
pub const DRAMC_MCTL: u32 = 0x230;
pub const DRAMC_DCR: u32 = 0x004;
pub const DRAMC_DLLCR: u32 = 0x204;

/// DLL phase settings of the byte lanes (4 bits per lane).
pub const TPR3: u32 = 0;
pub const BUS_WIDTH: u32 = 32;
pub const IO_WIDTH: u32 = 16;
/// Chip density code: 1024 Mbit = 2, ..., 8192 Mbit = 5.
pub const DENSITY: u32 = 4;

/// Address of the DRAM controller register at offset `off`.
pub open spec fn dramc_reg(off: u32) -> u32 {
    (DRAMC_BASE + off) as u32
}

/// Address of the DLL control register of byte lane `i` (1..=4).
pub open spec fn lane_reg(i: nat) -> u32 {
    (DRAMC_BASE + DRAMC_DLLCR + i * 4) as u32
}

/// DLL phase of byte lane `i` (1..=4), taken from TPR3.
pub open spec fn lane_phase(i: nat) -> u32 {
    ((TPR3 >> ((4 * (i - 1)) as u32)) & 0xf) as u32
}

/// Number of byte lanes of the bus.
pub open spec fn lane_count() -> nat {
    if BUS_WIDTH == 32 { 4 } else { 2 }
}

/// Refresh-cycle times tRFC in ns, by density code.
pub open spec fn trfc_table() -> Seq<u32> {
    seq![90u32, 90, 110, 160, 300, 350]
}

/// tRFC in DRAM clock cycles, rounded up.
pub open spec fn rfc() -> int {
    (trfc_table()[DENSITY as int] * CLK + 999) / 1000
}

/// Refresh interval tREFI (7.8 us) in units of 1024 DRAM clock cycles, rounded down.
pub open spec fn refi() -> int {
    (7987 * CLK) / 1024
}

/// The autorefresh register value: tRFC in bits 0..8, tREFI in bits 8..24.
pub open spec fn refresh_value() -> u32 {
    ((rfc() as u32) & 0xff) | (((refi() as u32) & 0xffff) << 8u32)
}

/// Write recovery time (15 ns) in DRAM clock cycles, rounded up.
pub open spec fn twr_ck() -> int {
    (15 * CLK + 999) / 1000
}

/// The write-recovery field of the DDR3 mode register for `twr` cycles.
pub open spec fn write_recovery(twr: int) -> int {
    if twr < 5 { 1 } else if twr <= 8 { twr - 4 } else if twr <= 10 { 5 } else { 6 }
}

/// The DDR3 mode register: power down, CAS latency 6, write recovery.
pub open spec fn mode_value() -> u32 {
    (1u32 << 12u32) | (5u32 << 4u32) | ((write_recovery(twr_ck()) as u32) << 9u32)
}

/// The DRAM configuration register: DDR3, IO width, density, 32-bit bus, all ranks,
/// interleave.
pub open spec fn dcr_value() -> u32 {
    1u32 | ((IO_WIDTH >> 3u32) << 1u32) | (DENSITY << 3u32) | (3u32 << 6u32) | (1u32 << 12u32) | (1u32 << 13u32)
}

/// Host port configuration words.
pub open spec fn hpcr_table() -> Seq<u32> {
    seq![
        0x0301u32, 0x0301, 0x0301, 0x0301,
        0x0301, 0x0301, 0x0301, 0x0301,
        0, 0, 0, 0,
        0, 0, 0, 0,
        0x1031, 0x1031, 0x0735, 0x1035,
        0x1035, 0x0731, 0x1031, 0x0735,
        0x1035, 0x1031, 0x0731, 0x1035,
        0x0001, 0x1031, 0, 0x1031
    ]
}

/// Controller setup up to the end of the DDR3 reset.
pub open spec fn dram_setup_program() -> Seq<RegOp> {
    seq![
        RegOp::Write { addr: dramc_reg(0x23c), value: 0x16510000 },
        RegOp::Modify { addr: dramc_reg(DRAMC_MCTL), clear: 0x03u32 | (0x03u32 << 28u32), set: (0x03u32 << 13u32) | 0xffcu32 },
        RegOp::Modify { addr: dramc_reg(DRAMC_MCTL), clear: bit_spec(16), set: 0 },
        RegOp::Modify { addr: dramc_reg(0), clear: 1u32 << 31u32, set: 1u32 << 28u32 },
        RegOp::Modify { addr: dramc_reg(DRAMC_DLLCR), clear: 0x3fu32 << 6u32, set: ((TPR3 >> 16u32) & 0x3f) << 6u32 },
        RegOp::Modify { addr: dramc_reg(DRAMC_DLLCR), clear: 1u32 << 30u32, set: 1u32 << 31u32 },
        RegOp::Delay { ticks: 0xfffff },
        RegOp::Modify { addr: dramc_reg(DRAMC_DLLCR), clear: (1u32 << 31u32) | (1u32 << 30u32), set: 0 },
        RegOp::Delay { ticks: 0xfffff },
        RegOp::Modify { addr: dramc_reg(DRAMC_DLLCR), clear: 1u32 << 31u32, set: 1u32 << 30u32 },
        RegOp::Delay { ticks: 0xfffff },
        RegOp::Write { addr: dramc_reg(DRAMC_DCR), value: dcr_value() },
        RegOp::Modify { addr: dramc_reg(DRAMC_MCTL), clear: 0, set: bit_spec(16) },
        RegOp::Delay { ticks: 0xfffff },
        RegOp::Modify { addr: dramc_reg(0xb4), clear: 0, set: 0x1ffff },
        RegOp::Modify { addr: dramc_reg(DRAMC_MCTL), clear: 1u32 << 12u32, set: 0 },
        RegOp::Delay { ticks: 0xfffff },
        RegOp::Modify { addr: dramc_reg(DRAMC_MCTL), clear: 0, set: 1u32 << 12u32 },
        RegOp::Delay { ticks: 0xfffff },
        RegOp::WaitClear { addr: dramc_reg(0), mask: 1u32 << 31u32 },
    ]
}

/// Per lane 1..=n: set the DLL phase and hold the DLL in reset.
pub open spec fn dll_phase_program(n: nat) -> Seq<RegOp>
    decreases n,
{
    if n == 0 {
        seq![]
    } else {
        dll_phase_program((n - 1) as nat) + seq![
            RegOp::Modify { addr: lane_reg(n), clear: 0xfu32 << 14u32, set: (lane_phase(n) & 0xf) << 14u32 },
            RegOp::Modify { addr: lane_reg(n), clear: 1u32 << 30u32, set: 1u32 << 31u32 },
        ]
    }
}

/// Per lane 1..=n: clear both DLL control bits.
pub open spec fn dll_release_program(n: nat) -> Seq<RegOp>
    decreases n,
{
    if n == 0 {
        seq![]
    } else {
        dll_release_program((n - 1) as nat) + seq![
            RegOp::Modify { addr: lane_reg(n), clear: (1u32 << 30u32) | (1u32 << 31u32), set: 0 },
        ]
    }
}

/// Per lane 1..=n: enable the DLL.
pub open spec fn dll_enable_program(n: nat) -> Seq<RegOp>
    decreases n,
{
    if n == 0 {
        seq![]
    } else {
        dll_enable_program((n - 1) as nat) + seq![
            RegOp::Modify { addr: lane_reg(n), clear: 1u32 << 31u32, set: 1u32 << 30u32 },
        ]
    }
}

/// Timing, mode registers, external RAM init, readpipe scan and ITM reset.
pub open spec fn dram_timing_program() -> Seq<RegOp> {
    seq![
        RegOp::Write { addr: dramc_reg(0x10), value: refresh_value() },
        RegOp::Write { addr: dramc_reg(0x14), value: 0x42d899b7 },
        RegOp::Write { addr: dramc_reg(0x18), value: 0xa090 },
        RegOp::Write { addr: dramc_reg(0x1c), value: 0x22a00 },
        RegOp::Write { addr: dramc_reg(0x1f0), value: mode_value() },
        RegOp::Write { addr: dramc_reg(0x1f4), value: 0x04 },
        RegOp::Write { addr: dramc_reg(0x1f8), value: 0x10 },
        RegOp::Write { addr: dramc_reg(0x1fc), value: 0 },
        RegOp::Modify { addr: dramc_reg(0), clear: 1u32 << 17u32, set: 1u32 << 14u32 },
        RegOp::Modify { addr: dramc_reg(0), clear: 0, set: 1u32 << 31u32 },
        RegOp::WaitClear { addr: dramc_reg(0), mask: 1u32 << 31u32 },
        RegOp::Modify { addr: dramc_reg(0), clear: 1u32 << 28u32, set: 0 },
        RegOp::Modify { addr: dramc_reg(0x0c), clear: (1u32 << 20u32) | (1u32 << 21u32), set: 0 },
        RegOp::Modify { addr: dramc_reg(0), clear: 0, set: 1u32 << 30u32 },
        RegOp::WaitClear { addr: dramc_reg(0), mask: 1u32 << 30u32 },
        RegOp::Modify { addr: dramc_reg(0), clear: 0, set: 1u32 << 14u32 },
        RegOp::Modify { addr: dramc_reg(0), clear: 1u32 << 31u32, set: 1u32 << 28u32 },
        RegOp::Delay { ticks: 0xfffff },
        RegOp::Modify { addr: dramc_reg(0), clear: 1u32 << 28u32, set: 0 },
        RegOp::Delay { ticks: 0xfffff },
    ]
}

/// Host port configuration: word `i` of the table at offset 0x250 + 4 i.
pub open spec fn hpcr_program() -> Seq<RegOp> {
    Seq::new(32, |i: int| RegOp::Write { addr: dramc_reg((0x250 + i * 4) as u32), value: hpcr_table()[i] })
}

/// The whole DRAM controller bring-up that follows the DRAM clock setup.
pub open spec fn dram_init_program() -> Seq<RegOp> {
    dram_setup_program() + dll_phase_program(lane_count()) + seq![RegOp::Delay { ticks: 0xfffff }]
        + dll_release_program(lane_count()) + seq![RegOp::Delay { ticks: 0xfffff }]
        + dll_enable_program(lane_count()) + seq![RegOp::Delay { ticks: 0xfffff }]
        + dram_timing_program() + hpcr_program()
}

/// The computed DRAM parameters.
pub proof fn lemma_dram_parameters()
    ensures
        rfc() == 130,
        refi() == 3369,
        refresh_value() == 0x000d_2982,
        twr_ck() == 7,
        write_recovery(twr_ck()) == 3,
        mode_value() == 0x1650,
        dcr_value() == 0x30e5,
        forall|i: nat| 1 <= i <= 4 ==> #[trigger] lane_phase(i) == 0,
{
    assert(trfc_table()[4] == 300);
    assert((130u32 & 0xff) | ((3369u32 & 0xffff) << 8u32) == 0x000d_2982) by (bit_vector);
    assert((1u32 << 12u32) | (5u32 << 4u32) | (3u32 << 9u32) == 0x1650) by (bit_vector);
    assert(1u32 | ((16u32 >> 3u32) << 1u32) | (4u32 << 3u32) | (3u32 << 6u32) | (1u32 << 12u32) | (1u32 << 13u32) == 0x30e5) by (bit_vector);
    assert(forall|k: u32| (0u32 >> k) & 0xf == 0) by (bit_vector);
}

impl CCU {
    /// Bring up the DRAM controller (after `set_dram_clock` and `set_dram_clock_mbus`):
    /// drive strength, DLLs, DDR3 configuration and reset, per-lane DLL phases, refresh and
    /// timing parameters, mode registers, external RAM initialisation, readpipe scan, ITM
    /// reset and the host port configuration.
    #[verifier::rlimit(40)]
    pub fn dram_init(&mut self, prog: &mut Vec<RegOp>)
        ensures
            final(prog)@ == old(prog)@ + dram_init_program(),
    {
        let ghost start = prog@;
        proof { lemma_dram_parameters(); }

        /* disable_power_save */
        io::write(prog, DRAMC_BASE + 0x23c, 0x16510000);

        /* mctl_set_drive() */
        io::clrset_bits(prog, DRAMC_BASE + DRAMC_MCTL, 0x03u32 | 0x03u32 << 28u32, 0x03u32 << 13u32 | 0xffcu32);

        /* clock output disable */
        io::set_bit(prog, DRAMC_BASE + DRAMC_MCTL, 16, false);

        /* ITM disable */
        io::clrset_bits(prog, DRAMC_BASE, 1u32 << 31u32, 1u32 << 28u32);

        /* DLL control */
        io::clrset_bits(prog, DRAMC_BASE + DRAMC_DLLCR, 0x3fu32 << 6u32, ((TPR3 >> 16u32) & 0x3f) << 6u32);
        io::clrset_bits(prog, DRAMC_BASE + DRAMC_DLLCR, 1u32 << 30u32, 1u32 << 31u32);
        prog.push(RegOp::Delay { ticks: 0xfffff });

        io::clrset_bits(prog, DRAMC_BASE + DRAMC_DLLCR, 1u32 << 31u32 | 1u32 << 30u32, 0);
        prog.push(RegOp::Delay { ticks: 0xfffff });

        io::clrset_bits(prog, DRAMC_BASE + DRAMC_DLLCR, 1u32 << 31u32, 1u32 << 30u32);
        prog.push(RegOp::Delay { ticks: 0xfffff });

        /* configure external DRAM */
        let v: u32 = (1u32 << 0u32) |  // DDR3
        ((IO_WIDTH >> 3u32) << 1u32) |  // IO width = 16
        (DENSITY << 3u32) |  // density = 8192
        (3u32 << 6u32) |  // bus width = 32
        (1u32 << 12u32) |  // rank all
        (1u32 << 13u32);  // interleave
        assert(v == dcr_value()) by (bit_vector)
            requires v == (1u32 << 0u32) | ((16u32 >> 3u32) << 1u32) | (4u32 << 3u32) | (3u32 << 6u32) | (1u32 << 12u32) | (1u32 << 13u32);

        io::write(prog, DRAMC_BASE + DRAMC_DCR, v);

        /* enable clock output */
        io::set_bit(prog, DRAMC_BASE + DRAMC_MCTL, 16, true);

        /* set impendance */
        prog.push(RegOp::Delay { ticks: 0xfffff });

        /* set initialization delay */
        io::clrset_bits(prog, DRAMC_BASE + 0xb4, 0, 0x1ffff);

        /* reset ddr3 */
        io::clrset_bits(prog, DRAMC_BASE + DRAMC_MCTL, 1u32 << 12u32, 0);
        prog.push(RegOp::Delay { ticks: 0xfffff });
        io::clrset_bits(prog, DRAMC_BASE + DRAMC_MCTL, 0, 1u32 << 12u32);
        prog.push(RegOp::Delay { ticks: 0xfffff });

        prog.push(RegOp::WaitClear { addr: DRAMC_BASE, mask: 1u32 << 31u32 });
        assert(prog@ =~= start + dram_setup_program());

        /* DLL */
        let nlanes: u32 = if BUS_WIDTH == 32 { 4 } else { 2 };
        dll_lanes(prog, nlanes);
        prog.push(RegOp::Delay { ticks: 0xfffff });
        dll_release(prog, nlanes);
        prog.push(RegOp::Delay { ticks: 0xfffff });
        dll_enable(prog, nlanes);
        prog.push(RegOp::Delay { ticks: 0xfffff });

        dram_timing(prog);
        dram_hpcr(prog);
        assert(prog@ =~= start + dram_init_program());
    }
}

/// Per lane: set its DLL phase from TPR3 and hold its DLL in reset.
fn dll_lanes(prog: &mut Vec<RegOp>, nlanes: u32)
    requires
        nlanes == lane_count(),
    ensures
        final(prog)@ == old(prog)@ + dll_phase_program(lane_count()),
{
    let ghost start = prog@;
    proof { lemma_dram_parameters(); }
    let mut phase: u32 = TPR3;
    let mut i: u32 = 1;
    while i <= nlanes
        invariant
            1 <= i <= nlanes + 1,
            nlanes == 4,
            phase == 0,
            forall|j: nat| 1 <= j <= 4 ==> #[trigger] lane_phase(j) == 0,
            prog@ == start + dll_phase_program((i - 1) as nat),
        decreases nlanes + 1 - i,
    {
        let r = DRAMC_BASE + DRAMC_DLLCR + i * 4;
        io::clrset_bits(prog, r, 0xfu32 << 14u32, (phase & 0xf) << 14u32);
        io::clrset_bits(prog, r, 1u32 << 30u32, 1u32 << 31u32);
        phase = phase >> 4u32;
        assert(0u32 >> 4u32 == 0) by (bit_vector);
        assert(prog@ =~= start + dll_phase_program(i as nat));
        i += 1;
    }
}

/// Per lane: release both DLL control bits.
fn dll_release(prog: &mut Vec<RegOp>, nlanes: u32)
    requires
        nlanes == lane_count(),
    ensures
        final(prog)@ == old(prog)@ + dll_release_program(lane_count()),
{
    let ghost start = prog@;
    let mut i: u32 = 1;
    while i <= nlanes
        invariant
            1 <= i <= nlanes + 1,
            nlanes == 4,
            prog@ == start + dll_release_program((i - 1) as nat),
        decreases nlanes + 1 - i,
    {
        let r = DRAMC_BASE + DRAMC_DLLCR + i * 4;
        io::clrset_bits(prog, r, (1u32 << 30u32) | (1u32 << 31u32), 0);
        assert(prog@ =~= start + dll_release_program(i as nat));
        i += 1;
    }
}

/// Per lane: enable its DLL.
fn dll_enable(prog: &mut Vec<RegOp>, nlanes: u32)
    requires
        nlanes == lane_count(),
    ensures
        final(prog)@ == old(prog)@ + dll_enable_program(lane_count()),
{
    let ghost start = prog@;
    let mut i: u32 = 1;
    while i <= nlanes
        invariant
            1 <= i <= nlanes + 1,
            nlanes == 4,
            prog@ == start + dll_enable_program((i - 1) as nat),
        decreases nlanes + 1 - i,
    {
        let r = DRAMC_BASE + DRAMC_DLLCR + i * 4;
        io::clrset_bits(prog, r, 1u32 << 31u32, 1u32 << 30u32);
        assert(prog@ =~= start + dll_enable_program(i as nat));
        i += 1;
    }
}

/// Refresh and timing parameters, mode registers, external RAM init, readpipe scan and
/// ITM reset.
fn dram_timing(prog: &mut Vec<RegOp>)
    ensures
        final(prog)@ == old(prog)@ + dram_timing_program(),
{
    let ghost start = prog@;
    proof { lemma_dram_parameters(); }

    /* set autorefresh cycle */
    let trfc: [u32; 6] = [90, 90, 110, 160, 300, 350];
    assert(trfc@ =~= trfc_table());
    let rfc = (trfc[DENSITY as usize] * CLK + 999) / 1000;
    let refi = (7987 * CLK) >> 10u32;
    assert(refi == 3369) by (bit_vector) requires refi == 3450384u32 >> 10u32;
    let refresh = rfc & 0xff | (refi & 0xffff) << 8u32;
    assert(refresh == 0x000d_2982) by (bit_vector) requires refresh == (130u32 & 0xff) | ((3369u32 & 0xffff) << 8u32);
    io::write(prog, DRAMC_BASE + 0x10, refresh);

    /* set timing parameters */
    io::write(prog, DRAMC_BASE + 0x14, 0x42d899b7);
    io::write(prog, DRAMC_BASE + 0x18, 0xa090);
    io::write(prog, DRAMC_BASE + 0x1c, 0x22a00);

    /* mode register */
    let twr_ck = (15 * CLK + 999) / 1000;
    let wr: u32 = if twr_ck < 5 { 1 } else if twr_ck <= 8 { twr_ck - 4 } else if twr_ck <= 10 { 5 } else { 6 };
    let v = 1u32 << 12u32 |  // power down
    5u32 << 4u32 |  // cas = 6
    wr << 9u32;  // write recovery
    assert(v == 0x1650) by (bit_vector) requires v == (1u32 << 12u32) | (5u32 << 4u32) | (3u32 << 9u32);
    io::write(prog, DRAMC_BASE + 0x1f0, v);

    /* extended mode register */
    io::write(prog, DRAMC_BASE + 0x1f4, 0x04);
    io::write(prog, DRAMC_BASE + 0x1f8, 0x10);
    io::write(prog, DRAMC_BASE + 0x1fc, 0);

    /* disable drift compensation */
    io::clrset_bits(prog, DRAMC_BASE, 1u32 << 17u32, 1u32 << 14u32);

    /* init ext ram */
    io::clrset_bits(prog, DRAMC_BASE, 0, 1u32 << 31u32);
    prog.push(RegOp::WaitClear { addr: DRAMC_BASE, mask: 1u32 << 31u32 });

    /* itm enable */
    io::clrset_bits(prog, DRAMC_BASE, 1u32 << 28u32, 0);

    /* scan readpipe */
    io::clrset_bits(prog, DRAMC_BASE + 0x0c, (1u32 << 20u32) | (1u32 << 21u32), 0);
    io::clrset_bits(prog, DRAMC_BASE, 0, 1u32 << 30u32);
    prog.push(RegOp::WaitClear { addr: DRAMC_BASE, mask: 1u32 << 30u32 });

    /* DQS gating window type */
    io::clrset_bits(prog, DRAMC_BASE, 0, 1u32 << 14u32);

    /* ITM RESET */
    io::clrset_bits(prog, DRAMC_BASE, 1u32 << 31u32, 1u32 << 28u32);
    prog.push(RegOp::Delay { ticks: 0xfffff });

    io::clrset_bits(prog, DRAMC_BASE, 1u32 << 28u32, 0);
    prog.push(RegOp::Delay { ticks: 0xfffff });
    assert(prog@ =~= start + dram_timing_program());
}

/// Host port configuration registers.
fn dram_hpcr(prog: &mut Vec<RegOp>)
    ensures
        final(prog)@ == old(prog)@ + hpcr_program(),
{
    let ghost start = prog@;
    let hpcr: [u32; 32] = [
        0x0301, 0x0301, 0x0301, 0x0301,
        0x0301, 0x0301, 0x0301, 0x0301,
        0, 0, 0, 0,
        0, 0, 0, 0,
        0x1031, 0x1031, 0x0735, 0x1035,
        0x1035, 0x0731, 0x1031, 0x0735,
        0x1035, 0x1031, 0x0731, 0x1035,
        0x0001, 0x1031, 0, 0x1031,
    ];
    assert(hpcr@ =~= hpcr_table());
    let mut i: u32 = 0;
    while i < 32
        invariant
            i <= 32,
            hpcr@ == hpcr_table(),
            prog@ =~= start + hpcr_program().take(i as int),
        decreases 32 - i,
    {
        io::write(prog, DRAMC_BASE + 0x250 + i * 4, hpcr[i as usize]);
        assert(hpcr_program().take(i + 1) =~= hpcr_program().take(i as int).push(hpcr_program()[i as int]));
        i += 1;
    }
    assert(hpcr_program().take(32) =~= hpcr_program());
}

/// The DRAM clock output is on through the DDR3 reset and the wait for initialisation: in
/// the DRAM controller bring-up (which begins with `dram_setup_program`), from the access
/// that enables it (the 13th) to the end of the setup part, bit 16 of MCTL (the clock output
/// enable) is set, whatever MCTL held before; the DDR3 reset toggles only bit 12 of it.
pub proof fn lemma_dram_clock_output_enabled(v: u32, n: nat)
    requires
        13 <= n <= 20,
    ensures
        get_bit_spec(reg_after(v, dramc_reg(DRAMC_MCTL), dram_setup_program(), n), 16),
        get_bit_spec(reg_after(v, dramc_reg(DRAMC_MCTL), dram_setup_program(), 20), 12),
        dram_init_program().take(20) == dram_setup_program(),
{
    let a = dramc_reg(DRAMC_MCTL);
    let p = dram_setup_program();
    assert(a == 0x01c01230);
    assert(reg_after(v, a, p, 1) == op_effect(reg_after(v, a, p, 0), a, p[0]));
    assert(reg_after(v, a, p, 2) == op_effect(reg_after(v, a, p, 1), a, p[1]));
    assert(reg_after(v, a, p, 3) == op_effect(reg_after(v, a, p, 2), a, p[2]));
    assert(reg_after(v, a, p, 4) == op_effect(reg_after(v, a, p, 3), a, p[3]));
    assert(reg_after(v, a, p, 5) == op_effect(reg_after(v, a, p, 4), a, p[4]));
    assert(reg_after(v, a, p, 6) == op_effect(reg_after(v, a, p, 5), a, p[5]));
    assert(reg_after(v, a, p, 7) == op_effect(reg_after(v, a, p, 6), a, p[6]));
    assert(reg_after(v, a, p, 8) == op_effect(reg_after(v, a, p, 7), a, p[7]));
    assert(reg_after(v, a, p, 9) == op_effect(reg_after(v, a, p, 8), a, p[8]));
    assert(reg_after(v, a, p, 10) == op_effect(reg_after(v, a, p, 9), a, p[9]));
    assert(reg_after(v, a, p, 11) == op_effect(reg_after(v, a, p, 10), a, p[10]));
    assert(reg_after(v, a, p, 12) == op_effect(reg_after(v, a, p, 11), a, p[11]));
    assert(reg_after(v, a, p, 13) == op_effect(reg_after(v, a, p, 12), a, p[12]));
    assert(reg_after(v, a, p, 14) == op_effect(reg_after(v, a, p, 13), a, p[13]));
    assert(reg_after(v, a, p, 15) == op_effect(reg_after(v, a, p, 14), a, p[14]));
    assert(reg_after(v, a, p, 16) == op_effect(reg_after(v, a, p, 15), a, p[15]));
    assert(reg_after(v, a, p, 17) == op_effect(reg_after(v, a, p, 16), a, p[16]));
    assert(reg_after(v, a, p, 18) == op_effect(reg_after(v, a, p, 17), a, p[17]));
    assert(reg_after(v, a, p, 19) == op_effect(reg_after(v, a, p, 18), a, p[18]));
    assert(reg_after(v, a, p, 20) == op_effect(reg_after(v, a, p, 19), a, p[19]));
    let x12 = reg_after(v, a, p, 12);
    let x13 = reg_after(v, a, p, 13);
    assert(x13 == clrset_spec(x12, 0, bit_spec(16)));
    let x15 = reg_after(v, a, p, 15);
    assert(x15 == x13);
    let x16 = reg_after(v, a, p, 16);
    assert(x16 == clrset_spec(x15, 1u32 << 12u32, 0));
    let x18 = reg_after(v, a, p, 18);
    assert(x18 == clrset_spec(x16, 0, 1u32 << 12u32));
    assert(reg_after(v, a, p, 20) == x18);
    assert(bit_spec(12) == 1u32 << 12u32);
    io::lemma_set_bit_reads_back(x12, 16, 12, true);
    io::lemma_set_bit_reads_back(x15, 12, 16, false);
    io::lemma_set_bit_reads_back(x16, 12, 16, true);
    assert(dram_init_program().take(20) =~= dram_setup_program());
}

} // verus!

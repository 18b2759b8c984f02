use lib::devices::ccu::{ClockGate, CCU, CCU_AHB0, CCU_APB1, CCU_APB1_UART0};
use lib::devices::gpio::{port_cfg, port_dat, port_drv, port_pull, GPIO, GPIO_PB, GPIO_PH, GPIO_UART};
use lib::devices::i2c::{twi_data, twi_init, twi_read, twi_update, twi_write};
use lib::devices::io::{self, RegOp};
use lib::devices::rsb::RSB;
use std::collections::HashMap;

/// Word registers as the board runtime would leave them after running `ops`
/// (stores and read-modify-writes; everything else leaves them as they are).
fn simulate(regs: &mut HashMap<u32, u32>, ops: &[RegOp]) {
    for op in ops {
        match *op {
            RegOp::Write { addr, value } => {
                regs.insert(addr, value);
            }
            RegOp::Modify { addr, clear, set } => {
                let v = *regs.get(&addr).unwrap_or(&0);
                regs.insert(addr, io::clrset_value(v, clear, set));
            }
            _ => {}
        }
    }
}

#[test]
fn clrset_value_clears_then_sets() {
    assert_eq!(io::clrset_value(0xffff_ffff, 0xf0, 0x30), 0xffff_ff3f);
    assert_eq!(io::clrset_value(0, 0, 0x10), 0x10);
    assert_eq!(io::clrset_value(0x10, 0x10, 0), 0);
}

#[test]
fn bit_is_set_tests_one_bit() {
    assert!(io::bit_is_set(0x20, 5));
    assert!(!io::bit_is_set(0x20, 4));
    assert!(io::bit_is_set(0x8000_0000, 31));
}

#[test]
fn set_bit_reads_back() {
    let mut p = Vec::new();
    io::set_bit(&mut p, 0x100, 7, true);
    io::set_bit(&mut p, 0x100, 3, false);
    assert_eq!(p, vec![
        RegOp::Modify { addr: 0x100, clear: 0, set: 0x80 },
        RegOp::Modify { addr: 0x100, clear: 0x8, set: 0 },
    ]);
    let mut regs = HashMap::new();
    regs.insert(0x100, 0x0f);
    simulate(&mut regs, &p);
    assert_eq!(regs[&0x100], 0x87);
    assert!(io::bit_is_set(regs[&0x100], 7));
    assert!(!io::bit_is_set(regs[&0x100], 3));
}

#[test]
fn io_ops() {
    let mut p = Vec::new();
    io::write(&mut p, 1, 2);
    io::read(&mut p, 3);
    io::set_bits(&mut p, 4, 5);
    io::clrset_bits(&mut p, 6, 7, 8);
    io::write8(&mut p, 9, 10);
    io::read8(&mut p, 11);
    assert_eq!(p, vec![
        RegOp::Write { addr: 1, value: 2 },
        RegOp::Read { addr: 3 },
        RegOp::Modify { addr: 4, clear: 0, set: 5 },
        RegOp::Modify { addr: 6, clear: 7, set: 8 },
        RegOp::Write8 { addr: 9, value: 10 },
        RegOp::Read8 { addr: 11 },
    ]);
}

#[test]
fn gpio_port_registers() {
    assert_eq!(port_cfg(GPIO_PB, 2), 0x01c2082c);
    assert_eq!(port_dat(GPIO_PH), 0x01c2090c);
    assert_eq!(port_dat(GPIO_PB), 0x01c20834);
    assert_eq!(port_drv(GPIO_PB, 1), 0x01c20838 + 4);
    assert_eq!(port_pull(GPIO_PB, 0), 0x01c20840);
}

#[test]
fn gpio_cfg_sets_the_pin_function() {
    let mut pb = GPIO::get(GPIO_PB);
    let mut p = Vec::new();
    pb.cfg(&mut p, 22, GPIO_UART);
    assert_eq!(p, vec![RegOp::Modify { addr: 0x01c2082c, clear: 0xf << 24, set: 2 << 24 }]);
    let mut regs = HashMap::new();
    regs.insert(0x01c2082c, 0x7777_7777);
    simulate(&mut regs, &p);
    assert_eq!(regs[&0x01c2082c], 0x7277_7777);
    assert_eq!((regs[&0x01c2082c] >> 24) & 0xf, GPIO_UART);
}

#[test]
fn gpio_levels_read_back() {
    let mut ph = GPIO::get(GPIO_PH);
    let dat = port_dat(GPIO_PH);
    let mut regs = HashMap::new();
    regs.insert(dat, 0x0000_0005);
    let mut p = Vec::new();
    ph.set_high(&mut p, 24);
    simulate(&mut regs, &p);
    assert!(ph.is_high(24, regs[&dat]));
    assert!(ph.is_high(0, regs[&dat]));
    let mut p = Vec::new();
    ph.set_low(&mut p, 24);
    simulate(&mut regs, &p);
    assert!(!ph.is_high(24, regs[&dat]));
    assert!(ph.is_high(2, regs[&dat]));
    let mut p = Vec::new();
    ph.read_dat(&mut p);
    assert_eq!(p, vec![RegOp::Read { addr: dat }]);
}

#[test]
fn clock_gate_pass_then_mask() {
    let mut ccu = CCU::get();
    let mut gate: ClockGate = ccu.clock_gate(CCU_APB1);
    let mut p = Vec::new();
    gate.pass(&mut p, CCU_APB1_UART0);
    gate.mask(&mut p, CCU_APB1_UART0);
    assert_eq!(p, vec![
        RegOp::Modify { addr: 0x01c2006c, clear: 0, set: 1 << 16 },
        RegOp::Modify { addr: 0x01c2006c, clear: 1 << 16, set: 0 },
    ]);
    let mut regs = HashMap::new();
    regs.insert(0x01c2006c, 0x3);
    simulate(&mut regs, &p[..1]);
    assert_eq!(regs[&0x01c2006c], 0x1_0003);
    simulate(&mut regs, &p[1..]);
    assert_eq!(regs[&0x01c2006c], 0x3);
}

#[test]
fn cpu_1500mhz_values() {
    let mut ccu = CCU::get();
    let mut p = Vec::new();
    ccu.set_cpu_1500mhz(&mut p);
    assert_eq!(p, vec![
        RegOp::Write { addr: 0x01c20054, value: 0x0001_0121 },
        RegOp::Delay { ticks: 100 },
        RegOp::Write { addr: 0x01c20054, value: 0x0001_0112 },
        RegOp::Write { addr: 0x01c20000, value: 0xa100_5310 },
        RegOp::Delay { ticks: 100 },
        RegOp::Write { addr: 0x01c20054, value: 0x0002_0112 },
        RegOp::Delay { ticks: 100 },
    ]);
}

#[test]
fn dram_clock_values() {
    let mut ccu = CCU::get();
    let mut p = Vec::new();
    ccu.read_pll5(&mut p);
    assert_eq!(p, vec![RegOp::Read { addr: 0x01c20020 }]);
    let mut p = Vec::new();
    ccu.set_dram_clock(&mut p, 0xffff_ffff);
    assert_eq!(p.len(), 10);
    assert_eq!(p[0], RegOp::Write { addr: 0x01c20028, value: 0xa100_9911 });
    assert_eq!(p[1], RegOp::Modify { addr: 0x01c20000 + CCU_AHB0, clear: 0, set: 1 << 6 });
    // M = 2, K = 2, N = 18, P cleared, VCO gain off, enabled; the rest kept.
    assert_eq!(p[2], RegOp::Write { addr: 0x01c20020, value: 0xfff4_f2dd });
    assert_eq!(p[9], RegOp::Read { addr: 0x01c20028 });
    let mut p = Vec::new();
    ccu.set_dram_clock(&mut p, 0);
    assert_eq!(p[2], RegOp::Write { addr: 0x01c20020, value: 0x8000_1211 });
}

#[test]
fn mbus_clock_from_pll6() {
    let mut ccu = CCU::get();
    let mut p = Vec::new();
    ccu.set_dram_clock_mbus(&mut p, 0xa100_9911);
    assert_eq!(p[0], RegOp::Write { addr: 0x01c2015c, value: 0x8100_0003 });
    assert_eq!(p.len(), 7);
    // N = 1, K = 1: PLL6 = 24 MHz, so M = 1 (field 0).
    let mut p = Vec::new();
    ccu.set_dram_clock_mbus(&mut p, 0x0000_0100);
    assert_eq!(p[0], RegOp::Write { addr: 0x01c2015c, value: 0x8100_0000 });
}

#[test]
fn dram_init_values() {
    let mut ccu = CCU::get();
    let mut p = Vec::new();
    ccu.dram_init(&mut p);
    assert_eq!(p.len(), 20 + 8 + 1 + 4 + 1 + 4 + 1 + 20 + 32);
    assert_eq!(p[11], RegOp::Write { addr: 0x01c01004, value: 0x30e5 });
    assert_eq!(p[19], RegOp::WaitClear { addr: 0x01c01000, mask: 1 << 31 });
    assert_eq!(p[20], RegOp::Modify { addr: 0x01c01208, clear: 0xf << 14, set: 0 });
    assert_eq!(p[27], RegOp::Modify { addr: 0x01c01214, clear: 1 << 30, set: 1 << 31 });
    let t = 20 + 8 + 1 + 4 + 1 + 4 + 1;
    assert_eq!(p[t], RegOp::Write { addr: 0x01c01010, value: 0x000d_2982 });
    assert_eq!(p[t + 4], RegOp::Write { addr: 0x01c011f0, value: 0x1650 });
    assert_eq!(p[t + 20], RegOp::Write { addr: 0x01c01250, value: 0x0301 });
    assert_eq!(p[t + 20 + 18], RegOp::Write { addr: 0x01c01250 + 18 * 4, value: 0x0735 });
    assert_eq!(p[t + 20 + 31], RegOp::Write { addr: 0x01c012cc, value: 0x1031 });
}

#[test]
fn rsb_init_gates() {
    let _rsb = RSB::get();
    let mut p = Vec::new();
    RSB::init(&mut p);
    assert_eq!(p, vec![RegOp::Modify { addr: 0x01f03428, clear: 0, set: 9 }]);
}

#[test]
fn twi_programs() {
    let mut p = Vec::new();
    twi_init(&mut p);
    assert_eq!(p.len(), 11);
    assert_eq!(p[4], RegOp::Write { addr: 0x01c2ac14, value: 0x44 });
    assert_eq!(p[10], RegOp::AwaitStatus { status_addr: 0x01c2ac10, expect: 0xf8, tries: 10000, ticks: 10 });

    let mut p = Vec::new();
    twi_read(&mut p, 0x34, 0x12);
    // start, address 0x68 (write), register, repeated start, address 0x69 (read), receive, stop.
    assert_eq!(p[0], RegOp::Write { addr: 0x01c2ac0c, value: 0x60 });
    assert_eq!(p[2], RegOp::Write { addr: 0x01c2ac08, value: 0x68 });
    assert_eq!(p[4], RegOp::AwaitFlagStatus {
        flag_addr: 0x01c2ac0c, flag: 8, status_addr: 0x01c2ac10, expect: 0x18, tries: 10000, ticks: 100,
    });
    assert_eq!(p[5], RegOp::Write { addr: 0x01c2ac08, value: 0x12 });
    assert_eq!(p[10], RegOp::Write { addr: 0x01c2ac08, value: 0x69 });
    if let RegOp::AwaitFlagStatus { expect, .. } = p[12] {
        assert_eq!(expect, 0x40);
    } else {
        panic!("expected a wait");
    }
    assert_eq!(p[13], RegOp::Write { addr: 0x01c2ac0c, value: 0x40 });
    assert_eq!(p[15], RegOp::Read { addr: 0x01c2ac08 });
    assert_eq!(p.len(), 18);
    assert_eq!(twi_data(0x1ab), 0xab);

    let mut p = Vec::new();
    twi_write(&mut p, 0x34, 0x23, 28);
    assert_eq!(p.len(), 13);
    assert_eq!(p[8], RegOp::Write { addr: 0x01c2ac08, value: 28 });

    let mut q = Vec::new();
    twi_update(&mut q, 0x34, 0x12, 0x81, 0x0f, 0x10);
    assert_eq!(q[8], RegOp::Write { addr: 0x01c2ac08, value: 0x11 });
}

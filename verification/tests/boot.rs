use lib::boot::{
    blinker, gic_eoi, gic_getack, handle_swi, irq_en, parse_cmd, str_eq, tick, timer_on, timer_read, timer_status,
    toggle_led, Command, LoaderState, LoaderStateData, Main, PmicStep, SrecLoader, AXP209,
};
use lib::devices::gpio::{GPIO, GPIO_PH};
use lib::devices::i2c::{twi_data, twi_read, twi_write};
use lib::devices::io::RegOp;
use lib::devices::uart::UART;
use lib::hello::{led_off, led_on, on_key, prompt, PB_DAT, LED_BIT};
use lib::uart::{uart_getc, uart_init, uart_puts};

const BASE: u32 = 0x01c28000;

fn sent(base: u32, ops: &[RegOp]) -> Vec<u8> {
    let mut out = Vec::new();
    let mut i = 0;
    while i < ops.len() {
        assert_eq!(ops[i], RegOp::WaitSet { addr: base + 0x14, mask: 0x20 });
        match ops[i + 1] {
            RegOp::Write { addr, value } if addr == base => out.push(value as u8),
            other => panic!("unexpected {:?}", other),
        }
        i += 2;
    }
    out
}

/// Run the loader over `input` as the board runtime does; returns the final state, the
/// accesses made, and how many characters were read.
fn load(input: &[u8], base: u32) -> ((LoaderState, LoaderStateData), Vec<RegOp>, usize) {
    let mut uart = UART::get(0);
    uart.set_echo(true);
    let mut ld = SrecLoader::new(&mut uart, base);
    let mut prog = Vec::new();
    let mut pos = 0;
    while ld.active() {
        let n = ld.needs();
        let chunk = &input[pos..pos + n];
        assert!(ld.accepts(chunk));
        ld.step(&mut uart, &mut prog, chunk);
        pos += n;
    }
    (ld.finish(&mut uart), prog, pos)
}

#[test]
fn srec_data_record_with_good_checksum() {
    let input = b"S307000000100102E5\r\nS70500000000FA\r\n";
    let ((st, data), prog, used) = load(input, 0x4200_0000);
    assert_eq!(used, input.len());
    assert_eq!(st, LoaderState::S7Addr);
    assert_eq!(data.count, 5);
    assert_eq!(prog[0], RegOp::Write8 { addr: 0x4200_0011, value: 1 });
    assert_eq!(prog[1], RegOp::Write8 { addr: 0x4200_0012, value: 2 });
    assert_eq!(sent(BASE, &prog[2..]), b".".to_vec());
}

#[test]
fn srec_bad_checksum() {
    let input = b"S307000000100102E6\r\nS70500000000FA\r\n";
    let ((st, _), prog, _) = load(input, 0x4800_0000);
    assert_eq!(st, LoaderState::S7Addr);
    assert_eq!(sent(BASE, &prog[2..]), b"!".to_vec());
}

#[test]
fn srec_header_is_skipped() {
    let input = b"S00600004844521B\r\nS30600000000AAAA\r\nS70500000000FA\r\n";
    let ((st, data), prog, used) = load(input, 0);
    assert_eq!(used, input.len());
    assert_eq!(st, LoaderState::S7Addr);
    assert_eq!(data.addr, 1);
    assert_eq!(prog[0], RegOp::Write8 { addr: 1, value: 0xaa });
    // 6 + 0 + 0 + 0 + 0 + 0xaa = 0xb0; its complement 0x4f is not 0xaa.
    assert_eq!(sent(BASE, &prog[1..]), b"!".to_vec());
}

#[test]
fn srec_bad_start() {
    let ((st, _), prog, used) = load(b"X", 0);
    assert_eq!(st, LoaderState::Failure);
    assert_eq!(used, 1);
    assert_eq!(sent(BASE, &prog), b"error: expected start X\r\n".to_vec());
}

#[test]
fn srec_bad_type() {
    let ((st, _), prog, used) = load(b"SZ", 0);
    assert_eq!(st, LoaderState::Failure);
    assert_eq!(used, 2);
    assert_eq!(sent(BASE, &prog), b"error: unexpected record type\r\n".to_vec());
}

#[test]
fn srec_unsupported_type_ends_quietly() {
    let ((st, data), prog, used) = load(b"S105", 0);
    assert_eq!(st, LoaderState::Failure);
    assert_eq!(data.count, 5);
    assert_eq!(used, 4);
    assert!(prog.is_empty());
}

#[test]
fn srec_rejects_what_would_overflow() {
    let mut uart = UART::get(0);
    let mut ld = SrecLoader::new(&mut uart, 0);
    let mut prog = Vec::new();
    for chunk in [&b"S"[..], &b"3"[..], &b"03"[..]] {
        assert!(ld.accepts(chunk));
        ld.step(&mut uart, &mut prog, chunk);
    }
    // A count of 3 is too short for an address.
    assert!(!ld.accepts(b"00000010"));
    let mut ld = SrecLoader::new(&mut uart, 0);
    for chunk in [&b"S"[..], &b"3"[..], &b"07"[..]] {
        ld.step(&mut uart, &mut prog, chunk);
    }
    // Not a character the hex reader takes.
    assert!(!ld.accepts(b"0000#010"));
    assert!(!ld.accepts(b"0000001"));
    assert!(ld.accepts(b"00000010"));
}

#[test]
fn srec_loader_turns_echo_back_on() {
    let mut uart = UART::get(0);
    let ld = SrecLoader::new(&mut uart, 0);
    let mut p = Vec::new();
    uart.received(&mut p, 0x41);
    assert!(p.is_empty());
    ld.finish(&mut uart);
    uart.received(&mut p, 0x41);
    assert_eq!(sent(BASE, &p), b"A".to_vec());
}

#[test]
fn main_new_brings_up_the_board() {
    let mut p = Vec::new();
    let mut m = Main::new(&mut p);
    assert_eq!(p.len(), 10 + 2 * 19 + 2);
    assert_eq!(p[0], RegOp::Modify { addr: 0x01c2082c, clear: 0xf << 24, set: 2 << 24 });
    assert_eq!(p[1], RegOp::Modify { addr: 0x01c2082c, clear: 0xf << 28, set: 2 << 28 });
    assert_eq!(p[2], RegOp::Modify { addr: 0x01c20824, clear: 0xf, set: 2 });
    assert_eq!(p[3], RegOp::Modify { addr: 0x01c20824, clear: 0xf << 4, set: 2 << 4 });
    assert_eq!(p[4], RegOp::Modify { addr: 0x01c2006c, clear: 0, set: 1 << 16 });
    assert_eq!(p[5], RegOp::Modify { addr: 0x01c2006c, clear: 0, set: 1 });
    assert_eq!(p[8], RegOp::Write { addr: BASE, value: 13 });
    assert_eq!(sent(BASE, &p[10..48]), b"Initialization...\n\r".to_vec());
    assert_eq!(p[48], RegOp::Modify { addr: 0x01c20908, clear: 0xf, set: 1 });
    assert_eq!(p[49], RegOp::Modify { addr: 0x01c2090c, clear: 1 << 24, set: 0 });
    // Local echo is on afterwards.
    let mut q = Vec::new();
    m.console.received(&mut q, 0x31);
    assert_eq!(sent(BASE, &q), b"1".to_vec());
}

#[test]
fn power_plan() {
    let mut p = Vec::new();
    let mut m = Main::new(&mut p);
    let mut q = Vec::new();
    let plan = m.power(&mut q);
    assert_eq!(q.len(), 11);
    assert_eq!(AXP209, 0x34);
    assert_eq!(plan, vec![
        PmicStep::Write { reg: 0x23, value: 28 },
        PmicStep::Update { reg: 0x12, keep: 0xff, set: 0x10 },
        PmicStep::Write { reg: 0x27, value: 22 },
        PmicStep::Update { reg: 0x12, keep: 0xff, set: 0x02 },
        PmicStep::Update { reg: 0x28, keep: 0x0f, set: 0 },
        PmicStep::Update { reg: 0x12, keep: 0xff, set: 0x04 },
        PmicStep::Update { reg: 0x12, keep: 0xb7, set: 0 },
    ]);
}

#[test]
fn print_regs_lines() {
    let mut p = Vec::new();
    let mut m = Main::new(&mut p);
    let mut r = [0u32; 16];
    r[1] = 7;
    r[15] = 0x4200_0000;
    let mut q = Vec::new();
    m.print_regs(&mut q, &r);
    let text = sent(BASE, &q);
    let s = String::from_utf8(text).unwrap();
    assert!(s.starts_with("R00 = 0x\n\rR01 = 7x\n\rR02 = 0x\n\r"));
    assert!(s.ends_with("LR  = 0x\n\rPC  = 117296256x\n\r"));
}

#[test]
fn timer_test_announces_the_wait() {
    let mut p = Vec::new();
    let mut m = Main::new(&mut p);
    let mut q = Vec::new();
    assert_eq!(m.timer_test(&mut q), 2000);
    assert_eq!(q.len(), 1 + 0xffff + 2 + 2 + 2 * 24);
    assert_eq!(sent(BASE, &q[0xffff + 5..]), b"\r\nWaiting for 20 msec...".to_vec());
    assert!(m.msleep(100, 2099, 2000));
    assert!(!m.msleep(100, 2100, 2000));
}

#[test]
fn timer_and_interrupts() {
    let mut p = Vec::new();
    timer_on(&mut p, 24_000);
    assert_eq!(p[0], RegOp::Write { addr: 0x01c20c10, value: 4 });
    assert_eq!(p[1], RegOp::Read { addr: 0x01c20c10 });
    assert_eq!(p[0xffff], RegOp::Read { addr: 0x01c20c10 });
    assert_eq!(p[0x10000], RegOp::Write { addr: 0x01c20c14, value: 24_000 });
    assert_eq!(p[0x10001], RegOp::Write { addr: 0x01c20c10, value: 7 });
    assert_eq!(p[0x10002], RegOp::Modify { addr: 0x01c81104, clear: 0, set: 1 << 22 });
    assert_eq!(p[0x10003], RegOp::Write8 { addr: 0x01c81836, value: 1 });

    let mut q = Vec::new();
    irq_en(&mut q, 3);
    assert_eq!(q, vec![
        RegOp::Modify { addr: 0x01c81100, clear: 0, set: 8 },
        RegOp::Write8 { addr: 0x01c81803, value: 1 },
    ]);

    let mut b = Vec::new();
    blinker(&mut b);
    assert_eq!(b.last(), Some(&RegOp::Modify { addr: 0x01c20c00, clear: 0, set: 1 }));

    let mut s = Vec::new();
    timer_status(&mut s);
    assert_eq!(s, vec![RegOp::Read { addr: 0x01c20c04 }]);
    let mut t = Vec::new();
    assert!(timer_read(&mut t, 3));
    assert_eq!(t, vec![RegOp::Modify { addr: 0x01c20c04, clear: 0, set: 2 }]);
    let mut t = Vec::new();
    assert!(!timer_read(&mut t, 2));
    assert!(t.is_empty());

    let mut g = Vec::new();
    gic_getack(&mut g);
    gic_eoi(&mut g, 54);
    assert_eq!(g, vec![RegOp::Read { addr: 0x01c8200c }, RegOp::Write { addr: 0x01c82010, value: 54 }]);
}

#[test]
fn ticks_toggle_every_500() {
    assert_eq!(tick(0), (1, false));
    assert_eq!(tick(499), (500, true));
    assert_eq!(tick(500), (501, false));
    assert_eq!(tick(999), (1000, true));
    let mut ph = GPIO::get(GPIO_PH);
    let mut p = Vec::new();
    toggle_led(&mut p, &mut ph, 1 << 24);
    toggle_led(&mut p, &mut ph, 0);
    assert_eq!(p, vec![
        RegOp::Modify { addr: 0x01c2090c, clear: 1 << 24, set: 0 },
        RegOp::Modify { addr: 0x01c2090c, clear: 0, set: 1 << 24 },
    ]);
}

#[test]
fn swi_message() {
    let mut p = Vec::new();
    handle_swi(&mut p);
    assert_eq!(sent(BASE, &p), b"\r\nSWI".to_vec());
}

#[test]
fn commands() {
    assert_eq!(parse_cmd("led on"), Command::LedOn);
    assert_eq!(parse_cmd("led off"), Command::LedOff);
    assert_eq!(parse_cmd("swi"), Command::Swi);
    assert_eq!(parse_cmd("reg"), Command::Reg);
    assert_eq!(parse_cmd("wait"), Command::Wait);
    assert_eq!(parse_cmd("reclock"), Command::Reclock);
    assert_eq!(parse_cmd("blink"), Command::Blink);
    assert_eq!(parse_cmd("power"), Command::Power);
    assert_eq!(parse_cmd("dram"), Command::Dram);
    assert_eq!(parse_cmd("led  on"), Command::Unknown);
    assert_eq!(parse_cmd(""), Command::Unknown);
    assert_eq!(parse_cmd("DRAM"), Command::Unknown);
    assert!(str_eq("abc", "abc"));
    assert!(!str_eq("abc", "abd"));
    assert!(!str_eq("abc", "ab"));
}

#[test]
fn hello_program() {
    let mut p = Vec::new();
    uart_init(&mut p);
    assert_eq!(p, vec![
        RegOp::Modify { addr: 0x01c2006c, clear: 0, set: 1 << 16 },
        RegOp::Modify { addr: 0x01c202d8, clear: 0, set: 1 << 16 },
        RegOp::Write { addr: BASE + 0xc, value: 0x80 },
        RegOp::Write { addr: BASE + 4, value: 0 },
        RegOp::Write { addr: BASE, value: 13 },
        RegOp::Write { addr: BASE + 0xc, value: 3 },
    ]);
    let mut p = Vec::new();
    prompt(&mut p);
    assert_eq!(sent(BASE, &p), b"\rhello, world! >".to_vec());
    let mut p = Vec::new();
    uart_puts(&mut p, "é");
    assert_eq!(p[1], RegOp::Write { addr: BASE, value: 0xe9 });
    let mut p = Vec::new();
    uart_getc(&mut p);
    assert_eq!(p, vec![RegOp::WaitSet { addr: BASE + 0x14, mask: 1 }, RegOp::Read { addr: BASE }]);

    let mut p = Vec::new();
    on_key(&mut p, 0x31);
    assert_eq!(sent(BASE, &p[..4]), b"1\n".to_vec());
    assert_eq!(p[4], RegOp::Write { addr: PB_DAT, value: LED_BIT });
    let mut p = Vec::new();
    on_key(&mut p, 0x130);
    assert_eq!(sent(BASE, &p[..4]), b"0\n".to_vec());
    assert_eq!(p[4], RegOp::Write { addr: PB_DAT, value: 0 });
    let mut p = Vec::new();
    on_key(&mut p, 0x61);
    assert_eq!(p.len(), 4);
    let mut p = Vec::new();
    led_on(&mut p);
    led_off(&mut p);
    assert_eq!(p, vec![RegOp::Write { addr: PB_DAT, value: LED_BIT }, RegOp::Write { addr: PB_DAT, value: 0 }]);
}

#[test]
fn srec_reply_comes_before_the_line_end() {
    let mut uart = UART::get(0);
    let mut ld = SrecLoader::new(&mut uart, 0x100);
    let mut prog = Vec::new();
    for chunk in [&b"S"[..], &b"3"[..], &b"06"[..], &b"00000000"[..]] {
        assert!(ld.accepts(chunk));
        ld.step(&mut uart, &mut prog, chunk);
    }
    assert!(prog.is_empty());
    // The last data byte and the checksum: stored, replied to, line end not yet read.
    assert_eq!(ld.needs(), 4);
    ld.step(&mut uart, &mut prog, b"55A4");
    assert_eq!(prog[0], RegOp::Write8 { addr: 0x101, value: 0x55 });
    assert_eq!(sent(BASE, &prog[1..]), b".".to_vec());
    assert_eq!(ld.needs(), 2);
    let mut more = Vec::new();
    ld.step(&mut uart, &mut more, b"\r\n");
    assert!(more.is_empty());
    assert_eq!(ld.needs(), 1);
    assert!(ld.active());
}

#[test]
fn srec_image_of_several_records() {
    let input = b"S30600000000AA4F\r\nS30700000010010207\r\nS70500000000FA\r\n";
    let ((st, _), prog, used) = load(input, 0x4000);
    assert_eq!(used, input.len());
    assert_eq!(st, LoaderState::S7Addr);
    assert_eq!(prog[0], RegOp::Write8 { addr: 0x4001, value: 0xaa });
    assert_eq!(sent(BASE, &prog[1..3]), b".".to_vec());
    assert_eq!(prog[3], RegOp::Write8 { addr: 0x4011, value: 1 });
    assert_eq!(prog[4], RegOp::Write8 { addr: 0x4012, value: 2 });
    assert_eq!(sent(BASE, &prog[5..]), b"!".to_vec());
}

#[test]
fn power_steps_address_the_axp209() {
    let w = PmicStep::Write { reg: 0x23, value: 28 };
    let mut p = Vec::new();
    assert!(!w.begin(&mut p));
    assert!(p.is_empty());
    w.finish(&mut p, 0xee);
    let mut q = Vec::new();
    twi_write(&mut q, 0x34, 0x23, 28);
    assert_eq!(p, q);
    // Chip address 0x34 goes on the bus as 0x68 (write).
    assert_eq!(p[2], RegOp::Write { addr: 0x01c2ac08, value: 0x68 });

    let u = PmicStep::Update { reg: 0x12, keep: 0xb7, set: 0 };
    let mut p = Vec::new();
    assert!(u.begin(&mut p));
    let mut q = Vec::new();
    twi_read(&mut q, 0x34, 0x12);
    assert_eq!(p, q);
    let v = twi_data(0x5f);
    let mut p = Vec::new();
    u.finish(&mut p, v);
    let mut q = Vec::new();
    twi_write(&mut q, 0x34, 0x12, 0x17);
    assert_eq!(p, q);
}

#[test]
fn power_plan_on_a_chip() {
    // A chip whose registers read back what was last written.
    let mut regs = [0u8; 256];
    regs[0x12] = 0x48 | 0x01;
    regs[0x28] = 0xab;
    let mut p = Vec::new();
    let mut m = Main::new(&mut p);
    let mut q = Vec::new();
    for step in m.power(&mut q) {
        let mut r = Vec::new();
        let v = match step {
            PmicStep::Update { reg, .. } => {
                assert!(step.begin(&mut r));
                regs[reg as usize]
            }
            PmicStep::Write { .. } => 0,
        };
        match step {
            PmicStep::Write { reg, value } => regs[reg as usize] = value,
            PmicStep::Update { reg, keep, set } => regs[reg as usize] = (v & keep) | set,
        }
        step.finish(&mut r, v);
    }
    assert_eq!(regs[0x23], 28);
    assert_eq!(regs[0x27], 22);
    assert_eq!(regs[0x12], (0x49 | 0x16) & !0x48);
    assert_eq!(regs[0x28], 0x0b);
}

#[test]
fn timer_test_ends_with_ok() {
    let mut p = Vec::new();
    let mut m = Main::new(&mut p);
    let mut q = Vec::new();
    assert!(m.timer_test_poll(&mut q, 100, 2099, 2000));
    assert!(q.is_empty());
    assert!(!m.timer_test_poll(&mut q, 100, 2100, 2000));
    assert_eq!(sent(BASE, &q), b"OK\n\r".to_vec());
}

#[test]
fn shell_commands_make_their_accesses() {
    let mut p = Vec::new();
    let mut m = Main::new(&mut p);
    assert!(m.pio_ph.dat_in_range());
    let mut q = Vec::new();
    assert_eq!(m.on_cmd(&mut q, "led on"), Command::LedOn);
    assert_eq!(q, vec![RegOp::Modify { addr: 0x01c2090c, clear: 0, set: 1 << 24 }]);
    let mut q = Vec::new();
    assert_eq!(m.on_cmd(&mut q, "led off"), Command::LedOff);
    assert_eq!(q, vec![RegOp::Modify { addr: 0x01c2090c, clear: 1 << 24, set: 0 }]);
    let mut q = Vec::new();
    assert_eq!(m.on_cmd(&mut q, "reclock"), Command::Reclock);
    assert_eq!(q.len(), 7);
    let mut q = Vec::new();
    assert_eq!(m.on_cmd(&mut q, "blink"), Command::Blink);
    assert_eq!(q.last(), Some(&RegOp::Modify { addr: 0x01c20c00, clear: 0, set: 1 }));
    let mut q = Vec::new();
    assert_eq!(m.on_cmd(&mut q, "hello"), Command::Unknown);
    assert_eq!(sent(BASE, &q), b"\n\runknown cmd".to_vec());
    let mut q = Vec::new();
    assert_eq!(m.on_cmd(&mut q, "dram"), Command::Dram);
    assert!(q.is_empty());
    assert!(!GPIO::get(0x0800_0000).dat_in_range());
}

use lib::devices::io::RegOp;
use lib::devices::uart::{FormatArg, LineRead, UART, UART_8N1};

const BASE: u32 = 0x01c28000;

/// The bytes a program transmits on the UART at `base`, checking that each store into the
/// transmit register waits for it first.
fn sent(base: u32, ops: &[RegOp]) -> Vec<u8> {
    let mut out = Vec::new();
    let mut i = 0;
    while i < ops.len() {
        assert_eq!(ops[i], RegOp::WaitSet { addr: base + 0x14, mask: 0x20 });
        match ops[i + 1] {
            RegOp::Write { addr, value } if addr == base => out.push(value as u8),
            other => panic!("unexpected {:?}", other),
        }
        i += 2;
    }
    out
}

fn u32_out(v: u32) -> Vec<u8> {
    let mut u = UART::get(0);
    let mut p = Vec::new();
    u.write_u32(&mut p, v);
    sent(BASE, &p)
}

#[test]
fn get_places_ports() {
    let mut u = UART::get(2);
    let mut p = Vec::new();
    u.put_char(&mut p, b'x');
    assert_eq!(p, vec![
        RegOp::WaitSet { addr: BASE + 0x800 + 0x14, mask: 0x20 },
        RegOp::Write { addr: BASE + 0x800, value: 0x78 },
    ]);
}

#[test]
fn set_mode_divisor() {
    let mut u = UART::get(0);
    let mut p = Vec::new();
    u.set_mode(&mut p, 115200, UART_8N1);
    assert_eq!(p, vec![
        RegOp::Modify { addr: BASE + 0xc, clear: 0, set: 0x80 },
        RegOp::Write { addr: BASE + 4, value: 0 },
        RegOp::Write { addr: BASE, value: 13 },
        RegOp::Write { addr: BASE + 0xc, value: 3 },
    ]);
    let mut p = Vec::new();
    u.set_mode(&mut p, 9600, UART_8N1);
    assert_eq!(p[2], RegOp::Write { addr: BASE, value: 156 });
}

#[test]
fn write_u32_digits() {
    assert_eq!(u32_out(0), b"0".to_vec());
    assert_eq!(u32_out(7), b"7".to_vec());
    assert_eq!(u32_out(42), b"42".to_vec());
    assert_eq!(u32_out(123456789), b"123456789".to_vec());
    assert_eq!(u32_out(4294967295), b"4294967295".to_vec());
}

#[test]
fn write_u32_leaves_out_inner_zeros() {
    assert_eq!(u32_out(105), b"15".to_vec());
    assert_eq!(u32_out(10), b"10".to_vec());
    assert_eq!(u32_out(2020), b"220".to_vec());
    assert_eq!(u32_out(1000000000), b"10".to_vec());
    assert_eq!(u32_out(3369), b"3369".to_vec());
}

#[test]
fn write_i32_sign() {
    let mut u = UART::get(0);
    let mut p = Vec::new();
    u.write_i32(&mut p, -45);
    assert_eq!(sent(BASE, &p), b"-45".to_vec());
    let mut p = Vec::new();
    u.write_i32(&mut p, 45);
    assert_eq!(sent(BASE, &p), b"45".to_vec());
    let mut p = Vec::new();
    u.write_i32(&mut p, i32::MAX);
    assert_eq!(sent(BASE, &p), b"2147483647".to_vec());
}

#[test]
fn write_str_bytes() {
    let mut u = UART::get(0);
    let mut p = Vec::new();
    u.write_str(&mut p, "hi\r\n");
    assert_eq!(sent(BASE, &p), b"hi\r\n".to_vec());
    let mut p = Vec::new();
    u.write_str(&mut p, "é");
    assert_eq!(sent(BASE, &p), vec![0xc3, 0xa9]);
}

#[test]
fn printf_formats() {
    let mut u = UART::get(0);
    let mut p = Vec::new();
    u.printf(&mut p, "% = %x\n\r", &[FormatArg::Str("SP "), FormatArg::U32(4096)]);
    assert_eq!(sent(BASE, &p), b"SP  = 496x\n\r".to_vec());

    let mut p = Vec::new();
    u.printf(&mut p, "100%% %, %", &[FormatArg::I32(-3)]);
    assert_eq!(sent(BASE, &p), b"100% -3, ".to_vec());

    let mut p = Vec::new();
    u.printf(&mut p, "%", &[FormatArg::from(7u32), FormatArg::from(8i32)]);
    assert_eq!(sent(BASE, &p), b"7".to_vec());

    let mut p = Vec::new();
    u.printf(&mut p, "a%", &[FormatArg::from("z")]);
    assert_eq!(sent(BASE, &p), b"az".to_vec());

    // A character beyond ASCII is sent as the low byte of its code point.
    let mut p = Vec::new();
    u.printf(&mut p, "é", &[]);
    assert_eq!(sent(BASE, &p), vec![0xe9]);
}

#[test]
fn printf_plain_is_write_str() {
    let mut u = UART::get(0);
    let mut p = Vec::new();
    u.printf(&mut p, "Initialization...\n\r", &[FormatArg::U32(1)]);
    let mut q = Vec::new();
    u.write_str(&mut q, "Initialization...\n\r");
    assert_eq!(p, q);
}

#[test]
fn get_char_and_echo() {
    let mut u = UART::get(0);
    let mut p = Vec::new();
    u.get_char(&mut p);
    assert_eq!(p, vec![
        RegOp::WaitSet { addr: BASE + 0x14, mask: 1 },
        RegOp::Read { addr: BASE },
    ]);
    let mut p = Vec::new();
    assert_eq!(u.received(&mut p, 0x141), 0x41);
    assert!(p.is_empty());
    u.set_echo(true);
    assert_eq!(u.received(&mut p, 0x41), 0x41);
    assert_eq!(sent(BASE, &p), b"A".to_vec());
}

#[test]
fn read_str_lines() {
    let mut u = UART::get(0);
    let mut buf = [0u8; 4];
    assert_eq!(u.read_str_begin(&buf), LineRead::More(0));
    assert_eq!(u.read_str(&mut buf, 0, b'o'), LineRead::More(1));
    assert_eq!(u.read_str(&mut buf, 1, b'k'), LineRead::More(2));
    assert_eq!(u.read_str(&mut buf, 2, b'\r'), LineRead::Done(2));
    assert_eq!(&buf[..2], b"ok");
    assert_eq!(u.read_str(&mut buf, 2, b'\n'), LineRead::Done(2));

    let mut small = [0u8; 2];
    assert_eq!(u.read_str(&mut small, 0, b'a'), LineRead::More(1));
    assert_eq!(u.read_str(&mut small, 1, b'b'), LineRead::Done(2));
    assert_eq!(&small, b"ab");

    let empty: [u8; 0] = [];
    assert_eq!(u.read_str_begin(&empty), LineRead::Done(0));
}

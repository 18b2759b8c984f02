//! 16550-style UART: line setup, character transmit and receive, and text output
//! (strings, decimal numbers, and a small `%`-format printer).
use vstd::prelude::*;
use crate::devices::io::{self, RegOp, bit_spec};
use vstd::string::StringSliceAdditionalSpecFns;

verus! {

pub const REG_BASE: u32 = 0x01c28000;
pub const REG_SIZE: u32 = 0x400;

pub const RBR: u32 = 0x00;
pub const THR: u32 = 0x00;
pub const DLL: u32 = 0x00;
pub const IER: u32 = 0x04;
pub const LCR: u32 = 0x0c;
pub const LSR: u32 = 0x14;

pub const LCR_DLAB: u32 = 7;
pub const LSR_THRE: u32 = 5;
pub const LSR_DR: u32 = 0;

pub const NO_PARITY: u32 = 0;
pub const STOP_1: u32 = 0;
pub const DATA_8: u32 = 3;

/// 8 data bits, no parity, one stop bit.
pub const UART_8N1: u32 = 3;

/// ASCII `0`.
pub const CH_0: u8 = 0x30;
/// ASCII `-`.
pub const CH_MINUS: u8 = 0x2d;
/// ASCII `%`.
pub const CH_PERCENT: u8 = 0x25;
/// ASCII line feed.
pub const CH_LF: u8 = 0x0a;
/// ASCII carriage return.
pub const CH_CR: u8 = 0x0d;

/// Input clock of the UARTs in MHz.
pub const SYS_FREQ: u32 = 24;

/// The accesses that transmit one byte: wait for an empty transmit holding register, then
/// store the byte in it.
pub open spec fn put_char_ops(base: u32, ch: u8) -> Seq<RegOp> {
    seq![
        RegOp::WaitSet { addr: (base + LSR) as u32, mask: bit_spec(LSR_THRE) },
        RegOp::Write { addr: (base + THR) as u32, value: ch as u32 },
    ]
}

/// The accesses that transmit `bytes`, one after the other.
pub open spec fn tx_ops(base: u32, bytes: Seq<u8>) -> Seq<RegOp>
    decreases bytes.len(),
{
    if bytes.len() == 0 {
        seq![]
    } else {
        tx_ops(base, bytes.drop_last()) + put_char_ops(base, bytes.last())
    }
}

/// Transmitting two byte strings in turn is transmitting their concatenation.
pub proof fn lemma_tx_ops_concat(base: u32, a: Seq<u8>, b: Seq<u8>)
    ensures
        tx_ops(base, a + b) == tx_ops(base, a) + tx_ops(base, b),
    decreases b.len(),
{
    if b.len() == 0 {
        assert(a + b =~= a);
        assert(tx_ops(base, a) + tx_ops(base, b) =~= tx_ops(base, a));
    } else {
        assert((a + b).drop_last() =~= a + b.drop_last());
        lemma_tx_ops_concat(base, a, b.drop_last());
        assert(tx_ops(base, a + b) =~= tx_ops(base, a) + tx_ops(base, b));
    }
}

/// Transmitting leaves the line control register alone: every access of `tx_ops` is a wait
/// on the line status register or a store to the transmit holding register, so none of them
/// can change the line mode (nor the divisor-latch access bit) that the transmitter runs in.
pub proof fn lemma_tx_ops_keep_lcr(base: u32, bytes: Seq<u8>)
    requires
        base + LSR <= u32::MAX,
    ensures
        tx_ops(base, bytes).len() == 2 * bytes.len(),
        forall|i: int| 0 <= i < tx_ops(base, bytes).len()
            ==> !io::touches(#[trigger] tx_ops(base, bytes)[i], (base + LCR) as u32),
    decreases bytes.len(),
{
    if bytes.len() > 0 {
        let pre = tx_ops(base, bytes.drop_last());
        let last = put_char_ops(base, bytes.last());
        lemma_tx_ops_keep_lcr(base, bytes.drop_last());
        assert forall|i: int| 0 <= i < tx_ops(base, bytes).len()
            implies !io::touches(#[trigger] tx_ops(base, bytes)[i], (base + LCR) as u32) by {
            if i < pre.len() {
                assert(tx_ops(base, bytes)[i] == pre[i]);
            } else {
                assert(tx_ops(base, bytes)[i] == last[i - pre.len()]);
            }
        }
    }
}

/// Transmitting one more byte appends its accesses.
pub proof fn lemma_tx_ops_push(base: u32, a: Seq<u8>, ch: u8)
    ensures
        tx_ops(base, a.push(ch)) == tx_ops(base, a) + put_char_ops(base, ch),
{
    assert(a.push(ch).drop_last() =~= a);
}

/// The text `write_u32` sends for `val`, from the place value `n` down: for n = 10^9, 10^8,
/// ..., 1 the digit `(val / n) % 10`, where a zero digit is sent only in the units place.
pub open spec fn digits_text(val: u32, n: nat) -> Seq<u8>
    decreases n,
{
    if n == 0 {
        seq![]
    } else {
        let d = (val as nat / n) % 10;
        (if d > 0 || n == 1 { seq![(CH_0 + d) as u8] } else { seq![] }) + digits_text(val, n / 10)
    }
}

/// The text `write_u32` sends for `val`.
pub open spec fn u32_text(val: u32) -> Seq<u8> {
    digits_text(val, 1_000_000_000)
}

/// The text `write_i32` sends for `val`: a minus sign when negative, then the text of its
/// magnitude.
pub open spec fn i32_text(val: i32) -> Seq<u8> {
    (if val < 0 { seq![CH_MINUS] } else { seq![] }) + u32_text(abs_spec(val))
}

/// The magnitude of `val` (for `val > i32::MIN`).
pub open spec fn abs_spec(val: i32) -> u32 {
    (if val < 0 { -val } else { val as int }) as u32
}

/// An argument of `printf`.
pub enum FormatArg<'a> {
    I32(i32),
    U32(u32),
    Str(&'a str),
}

impl<'a> From<u32> for FormatArg<'a> {
    fn from(item: u32) -> (r: Self) {
        FormatArg::U32(item)
    }
}

impl<'a> vstd::std_specs::convert::FromSpecImpl<u32> for FormatArg<'a> {
    open spec fn obeys_from_spec() -> bool {
        true
    }

    open spec fn from_spec(v: u32) -> Self {
        FormatArg::U32(v)
    }
}

impl<'a> From<i32> for FormatArg<'a> {
    fn from(item: i32) -> (r: Self) {
        FormatArg::I32(item)
    }
}

impl<'a> vstd::std_specs::convert::FromSpecImpl<i32> for FormatArg<'a> {
    open spec fn obeys_from_spec() -> bool {
        true
    }

    open spec fn from_spec(v: i32) -> Self {
        FormatArg::I32(v)
    }
}

impl<'a> From<&'a str> for FormatArg<'a> {
    fn from(item: &'a str) -> (r: Self) {
        FormatArg::Str(item)
    }
}

impl<'a> vstd::std_specs::convert::FromSpecImpl<&'a str> for FormatArg<'a> {
    open spec fn obeys_from_spec() -> bool {
        true
    }

    open spec fn from_spec(v: &'a str) -> Self {
        FormatArg::Str(v)
    }
}

/// The text `printf` sends for one argument.
pub open spec fn arg_text(arg: FormatArg) -> Seq<u8> {
    match arg {
        FormatArg::I32(x) => i32_text(x),
        FormatArg::U32(x) => u32_text(x),
        FormatArg::Str(s) => s.spec_bytes(),
    }
}

/// The text `printf` sends for the format characters `fmt` with the arguments `args`:
/// `%%` sends `%`; any other `%` sends the text of the next argument (nothing once they are
/// used up) and the character after it is sent as usual; every other character is sent as
/// its low byte.
pub open spec fn format_text(fmt: Seq<char>, args: Seq<FormatArg>) -> Seq<u8>
    decreases fmt.len(),
{
    if fmt.len() == 0 {
        seq![]
    } else if fmt[0] == '%' {
        if fmt.len() > 1 && fmt[1] == '%' {
            seq![CH_PERCENT] + format_text(fmt.skip(2), args)
        } else if args.len() > 0 {
            arg_text(args[0]) + format_text(fmt.skip(1), args.skip(1))
        } else {
            format_text(fmt.skip(1), args)
        }
    } else {
        seq![fmt[0] as u8] + format_text(fmt.skip(1), args)
    }
}

/// No argument that `fmt` consumes is `i32::MIN`, whose magnitude `write_i32` cannot take.
pub open spec fn format_ok(fmt: Seq<char>, args: Seq<FormatArg>) -> bool
    decreases fmt.len(),
{
    if fmt.len() == 0 {
        true
    } else if fmt[0] == '%' {
        if fmt.len() > 1 && fmt[1] == '%' {
            format_ok(fmt.skip(2), args)
        } else if args.len() > 0 {
            !(args[0] matches FormatArg::I32(x) && x == i32::MIN) && format_ok(fmt.skip(1), args.skip(1))
        } else {
            format_ok(fmt.skip(1), args)
        }
    } else {
        format_ok(fmt.skip(1), args)
    }
}

/// Where a line read with `read_str` stands: more characters wanted, or the line is
/// complete; either way with the number of bytes stored.
#[derive(Debug, Clone, Copy, PartialEq, Eq, Structural)]
pub enum LineRead {
    More(usize),
    Done(usize),
}

/// Whether `ch` ends a line (line feed or carriage return).
pub open spec fn is_line_end(ch: u8) -> bool {
    ch == CH_LF || ch == CH_CR
}

/// One character `ch` of a line read into `buf` with `len` bytes filled: a line end
/// completes the line; any other character is stored at `len`, and the line is complete
/// when that fills `buf`.
pub open spec fn read_str_step(buf: Seq<u8>, len: usize, ch: u8) -> (Seq<u8>, LineRead) {
    if is_line_end(ch) {
        (buf, LineRead::Done(len))
    } else {
        (buf.update(len as int, ch), if len + 1 == buf.len() {
            LineRead::Done((len + 1) as usize)
        } else {
            LineRead::More((len + 1) as usize)
        })
    }
}

/// Reading a line into `buf` from the state `st` with the received characters `input`:
/// the buffer, the state, and how many characters were taken, once the line is complete
/// or the input is used up.
pub open spec fn read_line(buf: Seq<u8>, st: LineRead, input: Seq<u8>) -> (Seq<u8>, LineRead, nat)
    decreases input.len(),
{
    match st {
        LineRead::Done(_) => (buf, st, 0),
        LineRead::More(len) => if input.len() == 0 || len >= buf.len() {
            (buf, st, 0)
        } else {
            let s = read_str_step(buf, len, input[0]);
            let r = read_line(s.0, s.1, input.skip(1));
            (r.0, r.1, r.2 + 1)
        },
    }
}

proof fn lemma_read_line_end(buf: Seq<u8>, j: usize, input: Seq<u8>, k: nat)
    requires
        j + k < buf.len() <= usize::MAX,
        k < input.len(),
        is_line_end(input[k as int]),
        forall|i: int| 0 <= i < k ==> !is_line_end(#[trigger] input[i]),
    ensures
        read_line(buf, LineRead::More(j), input) == (
            buf.take(j as int) + input.take(k as int) + buf.skip(j + k),
            LineRead::Done((j + k) as usize),
            k + 1,
        ),
    decreases k,
{
    let s = read_str_step(buf, j, input[0]);
    let r = read_line(s.0, s.1, input.skip(1));
    assert(read_line(buf, LineRead::More(j), input) == (r.0, r.1, r.2 + 1));
    if k == 0 {
        assert(s == (buf, LineRead::Done(j)));
        assert(r == (buf, LineRead::Done(j), 0nat));
        assert(buf.take(j as int) + input.take(0) + buf.skip(j as int) =~= buf);
    } else {
        assert(!is_line_end(input[0]));
        let b2 = buf.update(j as int, input[0]);
        assert(s == (b2, LineRead::More((j + 1) as usize)));
        assert(forall|i: int| 0 <= i < k - 1 ==> input.skip(1)[i] == input[i + 1]);
        lemma_read_line_end(b2, (j + 1) as usize, input.skip(1), (k - 1) as nat);
        assert(b2.take(j + 1) + input.skip(1).take(k - 1) + b2.skip(j + 1 + k - 1) =~= buf.take(j as int) + input.take(
            k as int,
        ) + buf.skip(j + k));
    }
}

proof fn lemma_read_line_full(buf: Seq<u8>, j: usize, input: Seq<u8>)
    requires
        j < buf.len() <= usize::MAX,
        input.len() >= buf.len() - j,
        forall|i: int| 0 <= i < buf.len() - j ==> !is_line_end(#[trigger] input[i]),
    ensures
        read_line(buf, LineRead::More(j), input) == (
            buf.take(j as int) + input.take(buf.len() - j),
            LineRead::Done(buf.len() as usize),
            (buf.len() - j) as nat,
        ),
    decreases buf.len() - j,
{
    assert(!is_line_end(input[0]));
    let b2 = buf.update(j as int, input[0]);
    let s = read_str_step(buf, j, input[0]);
    let r = read_line(s.0, s.1, input.skip(1));
    assert(read_line(buf, LineRead::More(j), input) == (r.0, r.1, r.2 + 1));
    if j + 1 == buf.len() {
        assert(s == (b2, LineRead::Done((j + 1) as usize)));
        assert(r == (b2, LineRead::Done((j + 1) as usize), 0nat));
        assert(b2 =~= buf.take(j as int) + input.take(1));
    } else {
        assert(s == (b2, LineRead::More((j + 1) as usize)));
        assert(forall|i: int| 0 <= i < buf.len() - (j + 1) ==> input.skip(1)[i] == input[i + 1]);
        lemma_read_line_full(b2, (j + 1) as usize, input.skip(1));
        assert(b2.take(j + 1) + input.skip(1).take(buf.len() - (j + 1)) =~= buf.take(j as int) + input.take(
            buf.len() - j,
        ));
    }
}

/// Reading a line with `read_str` from its start: when a line end comes at `k` before the
/// buffer is full, the first `k` characters are stored, the line has length `k`, and `k + 1`
/// characters (the line end too) are taken; when the first `buf.len()` characters hold no
/// line end, they fill the buffer and are all that is taken.
pub proof fn lemma_read_line(buf: Seq<u8>, input: Seq<u8>, k: nat)
    requires
        1 <= buf.len() <= usize::MAX,
    ensures
        k < buf.len() && k < input.len() && is_line_end(input[k as int]) && (forall|i: int|
            0 <= i < k ==> !is_line_end(#[trigger] input[i])) ==> read_line(buf, LineRead::More(0), input) == (
            input.take(k as int) + buf.skip(k as int),
            LineRead::Done(k as usize),
            k + 1,
        ),
        input.len() >= buf.len() && (forall|i: int| 0 <= i < buf.len() ==> !is_line_end(#[trigger] input[i]))
            ==> read_line(buf, LineRead::More(0), input) == (
            input.take(buf.len() as int),
            LineRead::Done(buf.len() as usize),
            buf.len(),
        ),
{
    if k < buf.len() && k < input.len() && is_line_end(input[k as int]) && (forall|i: int|
        0 <= i < k ==> !is_line_end(#[trigger] input[i])) {
        lemma_read_line_end(buf, 0, input, k);
        assert(buf.take(0) + input.take(k as int) + buf.skip(k as int) =~= input.take(k as int) + buf.skip(k as int));
    }
    if input.len() >= buf.len() && (forall|i: int| 0 <= i < buf.len() ==> !is_line_end(#[trigger] input[i])) {
        lemma_read_line_full(buf, 0, input);
        assert(buf.take(0) + input.take(buf.len() as int) =~= input.take(buf.len() as int));
    }
}

/// A UART port.
pub struct UART {
    base: u32,
    local_echo: bool,
}

impl UART {
    /// Every register of the port lies below 2^32.
    #[verifier::type_invariant]
    spec fn inv(&self) -> bool {
        self.base <= 0xffff_fc00
    }

    /// Address of the port's register block.
    pub closed spec fn base_spec(&self) -> u32 {
        self.base
    }

    /// Whether received characters are echoed back.
    pub closed spec fn echo_spec(&self) -> bool {
        self.local_echo
    }

    /// Port `index`, with local echo off.
    pub fn get(index: u32) -> (r: UART)
        requires
            REG_BASE + index * REG_SIZE <= u32::MAX,
        ensures
            r.base_spec() == REG_BASE + index * REG_SIZE,
            !r.echo_spec(),
    {
        let base = REG_BASE + index * REG_SIZE;
        assert(base <= 0xffff_fc00) by (nonlinear_arith)
            requires base == 0x01c28000 + index * 0x400, base <= 0xffff_ffff;
        UART { base: base, local_echo: false }
    }

    /// Set the baud rate (through the divisor latch) and the line mode.
    pub fn set_mode(&mut self, prog: &mut Vec<RegOp>, baud: u32, mode: u32)
        requires
            baud != 0,
        ensures
            *final(self) == *old(self),
            final(prog)@ == old(prog)@ + seq![
                RegOp::Modify { addr: (old(self).base_spec() + LCR) as u32, clear: 0, set: bit_spec(LCR_DLAB) },
                RegOp::Write { addr: (old(self).base_spec() + IER) as u32, value: 0 },
                RegOp::Write { addr: (old(self).base_spec() + DLL) as u32, value: (SYS_FREQ * 1000 * 1000 / 16 / baud as int) as u32 },
                RegOp::Write { addr: (old(self).base_spec() + LCR) as u32, value: mode },
            ],
    {
        proof { use_type_invariant(&*self); }
        let ghost start = prog@;
        io::set_bit(prog, self.base + LCR, LCR_DLAB, true);
        io::write(prog, self.base + IER, 0);
        io::write(prog, self.base + DLL, SYS_FREQ * 1000 * 1000 / 16 / baud);
        io::write(prog, self.base + LCR, mode);
        assert(prog@ =~= start + seq![
            RegOp::Modify { addr: (self.base + LCR) as u32, clear: 0, set: bit_spec(LCR_DLAB) },
            RegOp::Write { addr: (self.base + IER) as u32, value: 0 },
            RegOp::Write { addr: (self.base + DLL) as u32, value: (SYS_FREQ * 1000 * 1000 / 16 / baud as int) as u32 },
            RegOp::Write { addr: (self.base + LCR) as u32, value: mode },
        ]);
    }

    /// Turn local echo of received characters on or off.
    pub fn set_echo(&mut self, en: bool)
        ensures
            final(self).base_spec() == old(self).base_spec(),
            final(self).echo_spec() == en,
    {
        proof { use_type_invariant(&*self); }
        self.local_echo = en;
    }

    /// Transmit `ch`.
    pub fn put_char(&mut self, prog: &mut Vec<RegOp>, ch: u8)
        ensures
            *final(self) == *old(self),
            final(prog)@ == old(prog)@ + put_char_ops(old(self).base_spec(), ch),
    {
        proof { use_type_invariant(&*self); }
        let ghost start = prog@;
        prog.push(RegOp::WaitSet { addr: self.base + LSR, mask: 1u32 << LSR_THRE });
        io::write(prog, self.base + THR, ch as u32);
        assert(prog@ =~= start + put_char_ops(self.base, ch));
    }

    /// Wait for a received character and load it (its value is what `received` takes).
    pub fn get_char(&mut self, prog: &mut Vec<RegOp>)
        ensures
            *final(self) == *old(self),
            final(prog)@ == old(prog)@ + seq![
                RegOp::WaitSet { addr: (old(self).base_spec() + LSR) as u32, mask: bit_spec(LSR_DR) },
                RegOp::Read { addr: (old(self).base_spec() + RBR) as u32 },
            ],
    {
        proof { use_type_invariant(&*self); }
        let ghost start = prog@;
        prog.push(RegOp::WaitSet { addr: self.base + LSR, mask: 1u32 << LSR_DR });
        io::read(prog, self.base + RBR);
        assert(prog@ =~= start + seq![
            RegOp::WaitSet { addr: (self.base + LSR) as u32, mask: bit_spec(LSR_DR) },
            RegOp::Read { addr: (self.base + RBR) as u32 },
        ]);
    }

    /// The character received, from `raw`, the value loaded from the receive buffer; it is
    /// echoed back when local echo is on.
    pub fn received(&mut self, prog: &mut Vec<RegOp>, raw: u32) -> (ch: u8)
        ensures
            *final(self) == *old(self),
            ch == raw as u8,
            final(prog)@ == old(prog)@ + (if old(self).echo_spec() {
                put_char_ops(old(self).base_spec(), ch)
            } else {
                seq![]
            }),
    {
        let ch = raw as u8;
        if self.local_echo {
            self.put_char(prog, ch);
        } else {
            assert(prog@ =~= prog@ + seq![]);
        }
        ch
    }

    /// Transmit the UTF-8 bytes of `s`.
    pub fn write_str(&mut self, prog: &mut Vec<RegOp>, s: &str)
        ensures
            *final(self) == *old(self),
            final(prog)@ == old(prog)@ + tx_ops(old(self).base_spec(), s.spec_bytes()),
    {
        let bytes = s.as_bytes();
        self.write_bytes(prog, bytes);
    }

    /// Transmit `bytes`.
    fn write_bytes(&mut self, prog: &mut Vec<RegOp>, bytes: &[u8])
        ensures
            *final(self) == *old(self),
            final(prog)@ == old(prog)@ + tx_ops(old(self).base_spec(), bytes@),
    {
        let ghost start = prog@;
        let mut i: usize = 0;
        while i < bytes.len()
            invariant
                i <= bytes.len(),
                *self == *old(self),
                prog@ == start + tx_ops(self.base_spec(), bytes@.take(i as int)),
            decreases bytes.len() - i,
        {
            self.put_char(prog, bytes[i]);
            proof {
                lemma_tx_ops_push(self.base_spec(), bytes@.take(i as int), bytes@[i as int]);
                assert(bytes@.take(i as int).push(bytes@[i as int]) =~= bytes@.take(i + 1));
            }
            i += 1;
        }
        assert(bytes@.take(i as int) =~= bytes@);
    }

    /// Transmit `val` in decimal, digit by digit from the 10^9 place down to the units, where
    /// a zero digit is sent only in the units place.
    pub fn write_u32(&mut self, prog: &mut Vec<RegOp>, val: u32)
        ensures
            *final(self) == *old(self),
            final(prog)@ == old(prog)@ + tx_ops(old(self).base_spec(), u32_text(val)),
    {
        let ghost start = prog@;
        let ghost mut sent: Seq<u8> = seq![];
        let mut n: u32 = 1000000000;

        while n > 0
            invariant
                *self == *old(self),
                sent + digits_text(val, n as nat) == u32_text(val),
                prog@ == start + tx_ops(self.base_spec(), sent),
            decreases n,
        {
            let x = ((val / n) % 10) as u8;
            let ghost prev = sent;
            let ghost head: Seq<u8> = if x > 0 || n == 1 { seq![(CH_0 + x) as u8] } else { seq![] };
            assert(digits_text(val, n as nat) == head + digits_text(val, (n / 10) as nat));

            if x > 0 || n == 1 {
                self.put_char(prog, CH_0 + x);
                proof {
                    lemma_tx_ops_push(self.base_spec(), sent, (CH_0 + x) as u8);
                    sent = sent.push((CH_0 + x) as u8);
                }
            }
            assert(sent =~= prev + head);
            assert(sent + digits_text(val, (n / 10) as nat) =~= prev + (head + digits_text(val, (n / 10) as nat)));

            n = n / 10;
        }
        assert(sent =~= u32_text(val));
    }

    /// Transmit `val` in decimal: a minus sign when negative, then the magnitude as
    /// `write_u32` sends it.
    pub fn write_i32(&mut self, prog: &mut Vec<RegOp>, val: i32)
        requires
            val != i32::MIN,
        ensures
            *final(self) == *old(self),
            final(prog)@ == old(prog)@ + tx_ops(old(self).base_spec(), i32_text(val)),
    {
        let ghost start = prog@;
        if val < 0 {
            self.put_char(prog, CH_MINUS);
            proof { lemma_tx_ops_push(self.base_spec(), seq![], CH_MINUS); }
        }
        let ghost mid = prog@;
        let m: u32 = if val < 0 { (-val) as u32 } else { val as u32 };
        assert(m == abs_spec(val));
        self.write_u32(prog, m);
        proof {
            let sign: Seq<u8> = if val < 0 { seq![CH_MINUS] } else { seq![] };
            assert(tx_ops(self.base_spec(), seq![]) =~= seq![]);
            assert(seq![].push(CH_MINUS) =~= seq![CH_MINUS]);
            assert(mid =~= start + tx_ops(self.base_spec(), sign));
            lemma_tx_ops_concat(self.base_spec(), sign, u32_text(m));
            assert(prog@ =~= start + tx_ops(self.base_spec(), i32_text(val)));
        }
    }

    /// Transmit the format `fmt` with `args` filled in (see `format_text`).
    pub fn printf(&mut self, prog: &mut Vec<RegOp>, fmt: &str, args: &[FormatArg])
        requires
            format_ok(fmt@, args@),
        ensures
            *final(self) == *old(self),
            final(prog)@ == old(prog)@ + tx_ops(old(self).base_spec(), format_text(fmt@, args@)),
    {
        let ghost start = prog@;
        let chars = str_chars(fmt);
        let ghost mut sent: Seq<u8> = seq![];
        let mut i: usize = 0;
        let mut j: usize = 0;
        assert(chars@.skip(0) =~= fmt@);
        assert(args@.skip(0) =~= args@);
        assert(sent + format_text(fmt@, args@) =~= format_text(fmt@, args@));
        while i < chars.len()
            invariant
                i <= chars.len(),
                j <= args.len(),
                chars@ == fmt@,
                *self == *old(self),
                sent + format_text(chars@.skip(i as int), args@.skip(j as int)) == format_text(fmt@, args@),
                format_ok(chars@.skip(i as int), args@.skip(j as int)),
                prog@ == start + tx_ops(self.base_spec(), sent),
            decreases chars.len() - i,
        {
            let ghost rest = chars@.skip(i as int);
            let ghost rargs = args@.skip(j as int);
            let ghost prev = sent;
            let c = chars[i];
            if c == '%' {
                if i + 1 < chars.len() && chars[i + 1] == '%' {
                    self.put_char(prog, CH_PERCENT);
                    proof {
                        lemma_tx_ops_push(self.base_spec(), sent, CH_PERCENT);
                        sent = sent.push(CH_PERCENT);
                        assert(rest.skip(2) =~= chars@.skip(i + 2));
                        assert(sent + format_text(chars@.skip(i + 2), rargs) =~= prev + (seq![CH_PERCENT] + format_text(rest.skip(2), rargs)));
                    }
                    i += 2;
                } else {
                    if j < args.len() {
                        match &args[j] {
                            FormatArg::I32(x) => self.write_i32(prog, *x),
                            FormatArg::U32(x) => self.write_u32(prog, *x),
                            FormatArg::Str(x) => self.write_str(prog, x),
                        }
                        proof {
                            assert(rargs[0] == args@[j as int]);
                            lemma_tx_ops_concat(self.base_spec(), sent, arg_text(args@[j as int]));
                            sent = sent + arg_text(args@[j as int]);
                            assert(rest.skip(1) =~= chars@.skip(i + 1));
                            assert(rargs.skip(1) =~= args@.skip(j + 1));
                            assert(sent + format_text(chars@.skip(i + 1), args@.skip(j + 1)) =~= prev + (arg_text(rargs[0]) + format_text(rest.skip(1), rargs.skip(1))));
                        }
                        j += 1;
                    } else {
                        proof {
                            assert(rest.skip(1) =~= chars@.skip(i + 1));
                        }
                    }
                    i += 1;
                }
            } else {
                let b = #[verifier::truncate] (c as u8);
                self.put_char(prog, b);
                proof {
                    lemma_tx_ops_push(self.base_spec(), sent, b);
                    sent = sent.push(b);
                    assert(rest.skip(1) =~= chars@.skip(i + 1));
                    assert(sent + format_text(chars@.skip(i + 1), rargs) =~= prev + (seq![rest[0] as u8] + format_text(rest.skip(1), rargs)));
                }
                i += 1;
            }
        }
        assert(chars@.skip(i as int) =~= seq![]);
        assert(sent + seq![] =~= sent);
    }

    /// Where reading a line into `buf` starts: complete at once when `buf` is empty.
    pub fn read_str_begin(&self, buf: &[u8]) -> (r: LineRead)
        ensures
            r == (if buf@.len() == 0 { LineRead::Done(0) } else { LineRead::More(0) }),
    {
        if buf.len() == 0 {
            LineRead::Done(0)
        } else {
            LineRead::More(0)
        }
    }

    /// One character of a line being read into `buf`, `len` bytes of which are filled:
    /// a line feed or carriage return ends the line; any other character is stored at
    /// `len`, and the line ends when that fills `buf`.
    pub fn read_str(&mut self, buf: &mut [u8], len: usize, ch: u8) -> (r: LineRead)
        requires
            len < old(buf)@.len(),
        ensures
            *final(self) == *old(self),
            (final(buf)@, r) == read_str_step(old(buf)@, len, ch),
    {
        if ch == CH_LF || ch == CH_CR {
            return LineRead::Done(len);
        }
        buf[len] = ch;
        let len = len + 1;
        if len == buf.len() {
            LineRead::Done(len)
        } else {
            LineRead::More(len)
        }
    }
}

/// The characters of `s`, in order.
pub fn str_chars(s: &str) -> (r: Vec<char>)
    ensures
        r@ == s@,
{
    broadcast use vstd::string::axiom_spec_iter;
    let mut r: Vec<char> = Vec::new();
    for c in iter: s.chars()
        invariant
            r@ == iter.seq().take(iter.index() as int),
    {
        r.push(c);
    }
    r
}

/// A format without `%` is sent as the low bytes of its characters, whatever the
/// arguments.
pub proof fn lemma_format_plain(fmt: Seq<char>, args: Seq<FormatArg>)
    requires
        !fmt.contains('%'),
    ensures
        format_text(fmt, args) == fmt.map_values(|c: char| c as u8),
    decreases fmt.len(),
{
    if fmt.len() == 0 {
        assert(fmt.map_values(|c: char| c as u8) =~= seq![]);
    } else {
        assert(fmt[0] != '%');
        assert(!fmt.skip(1).contains('%')) by {
            if fmt.skip(1).contains('%') {
                let k = choose|k: int| 0 <= k < fmt.skip(1).len() && fmt.skip(1)[k] == '%';
                assert(fmt[k + 1] == '%');
            }
        }
        lemma_format_plain(fmt.skip(1), args);
        assert(format_text(fmt, args) =~= fmt.map_values(|c: char| c as u8));
    }
}

/// For an ASCII string without `%`, `printf` sends exactly what `write_str` sends.
pub proof fn lemma_printf_plain_is_write_str(s: &str, args: Seq<FormatArg>)
    requires
        vstd::string::is_ascii(s),
        !s@.contains('%'),
    ensures
        format_text(s@, args) == s.spec_bytes(),
{
    lemma_format_plain(s@, args);
    vstd::string::is_ascii_spec_bytes(s);
    assert(s@.map_values(|c: char| c as u8) =~= s.spec_bytes());
}

/// 10 to the power `k`.
pub open spec fn pow10(k: nat) -> nat
    decreases k,
{
    if k == 0 { 1 } else { 10 * pow10((k - 1) as nat) }
}

/// The nonzero decimal digits of `v`, most significant first.
pub open spec fn nonzero_digits(v: nat) -> Seq<u8>
    decreases v,
{
    if v == 0 {
        seq![]
    } else {
        nonzero_digits(v / 10) + if v % 10 != 0 { seq![(CH_0 + v % 10) as u8] } else { seq![] }
    }
}

/// The decimal numeral of `v`.
pub open spec fn numeral(v: nat) -> Seq<u8>
    decreases v,
{
    if v < 10 {
        seq![(CH_0 + v) as u8]
    } else {
        numeral(v / 10) + seq![(CH_0 + v % 10) as u8]
    }
}

/// Whether the numeral of `v` has no digit 0 (other than `v == 0` itself).
pub open spec fn no_zero_digit(v: nat) -> bool
    decreases v,
{
    v < 10 || (v % 10 != 0 && no_zero_digit(v / 10))
}

proof fn lemma_pow10_pos(k: nat)
    ensures
        pow10(k) >= 1,
    decreases k,
{
    if k > 0 {
        lemma_pow10_pos((k - 1) as nat);
    }
}

proof fn lemma_nonzero_digits_split(u: nat)
    ensures
        nonzero_digits(u) == nonzero_digits(u / 10) + if u % 10 != 0 { seq![(CH_0 + u % 10) as u8] } else { seq![] },
{
    if u == 0 {
        assert(nonzero_digits(0) + seq![] =~= nonzero_digits(0));
    }
}

/// Splitting off the digit in the 10^k place of the nonzero digits of `w` below 10^(k+1).
proof fn lemma_nonzero_digits_top(w: nat, k: nat)
    ensures
        nonzero_digits(w % pow10(k + 1)) == (if (w / pow10(k)) % 10 != 0 {
            seq![(CH_0 + (w / pow10(k)) % 10) as u8]
        } else {
            seq![]
        }) + nonzero_digits(w % pow10(k)),
    decreases k,
{
    lemma_pow10_pos(k);
    let p = pow10(k);
    assert(pow10(k + 1) == 10 * p);
    vstd::arithmetic::div_mod::lemma_breakdown(w as int, 10, p as int);
    let u = w % pow10(k + 1);
    let hi = (w / 10) % p;
    assert(u == 10 * hi + w % 10);
    assert(u / 10 == hi && u % 10 == w % 10);
    lemma_nonzero_digits_split(u);
    if k == 0 {
        assert(w % 1 == 0);
        assert(w / 1 == w);
        assert(hi == 0);
        assert(nonzero_digits(0) == Seq::<u8>::empty());
        assert(nonzero_digits(u) =~= (if (w / p) % 10 != 0 { seq![(CH_0 + (w / p) % 10) as u8] } else { seq![] })
            + nonzero_digits(w % p));
    } else {
        let q = pow10((k - 1) as nat);
        lemma_pow10_pos((k - 1) as nat);
        lemma_nonzero_digits_top(w / 10, (k - 1) as nat);
        vstd::arithmetic::div_mod::lemma_div_denominator(w as int, 10, q as int);
        assert((w / 10) / q == w / p);
        vstd::arithmetic::div_mod::lemma_breakdown(w as int, 10, q as int);
        let v = w % p;
        assert(v == 10 * ((w / 10) % q) + w % 10);
        assert(v / 10 == (w / 10) % q && v % 10 == w % 10);
        lemma_nonzero_digits_split(v);
        assert(nonzero_digits(u) =~= (if (w / p) % 10 != 0 { seq![(CH_0 + (w / p) % 10) as u8] } else { seq![] })
            + nonzero_digits(w % p));
    }
}

proof fn lemma_digits_text(val: u32, k: nat)
    ensures
        digits_text(val, pow10(k)) == nonzero_digits((val / 10) as nat % pow10(k)) + seq![(CH_0 + val % 10) as u8],
    decreases k,
{
    lemma_pow10_pos(k);
    if k == 0 {
        assert(digits_text(val, 0) == Seq::<u8>::empty());
        assert(nonzero_digits(0) == Seq::<u8>::empty());
        assert(digits_text(val, 1) =~= seq![(CH_0 + val % 10) as u8]);
        assert(nonzero_digits((val / 10) as nat % 1) + seq![(CH_0 + val % 10) as u8] =~= seq![(CH_0 + val % 10) as u8]);
    } else {
        let p = pow10(k);
        let q = pow10((k - 1) as nat);
        lemma_pow10_pos((k - 1) as nat);
        assert(p / 10 == q);
        lemma_digits_text(val, (k - 1) as nat);
        lemma_nonzero_digits_top((val / 10) as nat, (k - 1) as nat);
        vstd::arithmetic::div_mod::lemma_div_denominator(val as int, 10, q as int);
        assert(((val / 10) as nat) / q == val as nat / p);
        assert(digits_text(val, p) =~= nonzero_digits((val / 10) as nat % p) + seq![(CH_0 + val % 10) as u8]);
    }
}

proof fn lemma_nonzero_digits_numeral(v: nat)
    requires
        v >= 1,
        no_zero_digit(v),
    ensures
        nonzero_digits(v) == numeral(v),
    decreases v,
{
    lemma_nonzero_digits_split(v);
    if v < 10 {
        assert(v / 10 == 0);
        assert(nonzero_digits(0) == Seq::<u8>::empty());
        assert(nonzero_digits(v) =~= numeral(v));
    } else {
        lemma_nonzero_digits_numeral(v / 10);
    }
}

/// `write_u32` sends the nonzero digits of `val` above the units place, then the units
/// digit: zero digits other than the units are left out.
pub proof fn lemma_u32_text_digits(val: u32)
    ensures
        u32_text(val) == nonzero_digits((val / 10) as nat) + seq![(CH_0 + val % 10) as u8],
{
    assert(pow10(9) == 1_000_000_000) by {
        reveal_with_fuel(pow10, 10);
    }
    lemma_digits_text(val, 9);
    assert((val / 10) as nat % 1_000_000_000 == (val / 10) as nat);
}

/// When the numeral of `val` has no zero digit (or `val` is a single digit), `write_u32`
/// sends exactly that numeral; with zero digits it does not (105 is sent as "15").
pub proof fn lemma_u32_text_numeral(val: u32)
    requires
        no_zero_digit(val as nat),
    ensures
        u32_text(val) == numeral(val as nat),
{
    lemma_u32_text_digits(val);
    if val < 10 {
        assert(nonzero_digits(0) == Seq::<u8>::empty());
        assert(u32_text(val) =~= numeral(val as nat));
    } else {
        lemma_nonzero_digits_numeral((val / 10) as nat);
        assert(u32_text(val) =~= numeral(val as nat));
    }
}

proof fn lemma_nonzero_digits_are_digits(v: nat)
    ensures
        forall|i: int| 0 <= i < nonzero_digits(v).len() ==> CH_0 <= #[trigger] nonzero_digits(v)[i] <= CH_0 + 9,
    decreases v,
{
    if v > 0 {
        lemma_nonzero_digits_are_digits(v / 10);
        lemma_nonzero_digits_split(v);
    }
}

/// `write_u32` sends at least one character, all of them decimal digits, the last being the
/// units digit of `val`.
pub proof fn lemma_u32_text_is_digits(val: u32)
    ensures
        u32_text(val).len() >= 1,
        forall|i: int| 0 <= i < u32_text(val).len() ==> CH_0 <= #[trigger] u32_text(val)[i] <= CH_0 + 9,
        u32_text(val).last() == CH_0 + val % 10,
{
    lemma_u32_text_digits(val);
    lemma_nonzero_digits_are_digits((val / 10) as nat);
    let t = u32_text(val);
    let nz = nonzero_digits((val / 10) as nat);
    assert forall|i: int| 0 <= i < t.len() implies CH_0 <= #[trigger] t[i] <= CH_0 + 9 by {
        if i < nz.len() {
            assert(t[i] == nz[i]);
        }
    }
}

/// `write_i32` sends a minus sign exactly for negative values: its text begins with `-`
/// exactly when `val < 0`; a value of 0 or more is sent as `write_u32` sends it, and a
/// negative one as `-` followed by the text of its magnitude.
pub proof fn lemma_i32_text(val: i32)
    requires
        val != i32::MIN,
    ensures
        i32_text(val).len() >= 1,
        (i32_text(val)[0] == CH_MINUS) == (val < 0),
        val >= 0 ==> i32_text(val) == u32_text(val as u32),
        val < 0 ==> i32_text(val) == seq![CH_MINUS] + u32_text((-val) as u32),
{
    let m: u32 = if val < 0 { (-val) as u32 } else { val as u32 };
    assert(abs_spec(val) == m);
    lemma_u32_text_is_digits(m);
    if val >= 0 {
        assert(i32_text(val) =~= u32_text(val as u32));
        assert(u32_text(m)[0] != CH_MINUS);
    } else {
        assert(i32_text(val)[0] == CH_MINUS);
    }
}

} // verus!

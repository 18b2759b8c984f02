//! The boot loader proper: board bring-up, the S-record loader, timer and interrupt
//! plumbing, the PMIC power-up sequence and the command shell.
use vstd::prelude::*;
use crate::devices::io::{self, RegOp};
use crate::devices::uart::{UART, FormatArg, UART_8N1, tx_ops, put_char_ops, format_text, format_ok};
use crate::devices::ccu::{CCU, CCU_APB1, CCU_APB1_UART0, CCU_APB1_TWI0, ccu_reg};
use crate::devices::gpio::{GPIO, GPIO_PB, GPIO_PH, GPIO_UART, GPIO_TWI, GPIO_OUT, cfg_op, port_dat_spec};
use crate::devices::i2c;
use vstd::string::StringSliceAdditionalSpecFns;

verus! {

/// ASCII `S`.
pub const CH_S: u8 = 0x53;
/// ASCII `0`.
pub const CH_DIGIT_0: u8 = 0x30;
/// ASCII `3`.
pub const CH_DIGIT_3: u8 = 0x33;
/// ASCII `7`.
pub const CH_DIGIT_7: u8 = 0x37;
/// ASCII `9`.
pub const CH_DIGIT_9: u8 = 0x39;
/// ASCII `A`.
pub const CH_UPPER_A: u8 = 0x41;
/// ASCII `.`: a record whose checksum matched.
pub const CH_DOT: u8 = 0x2e;
/// ASCII `!`: a record whose checksum did not match.
pub const CH_BANG: u8 = 0x21;

/// Whether `c` is an ASCII decimal digit.
pub open spec fn is_digit(c: u8) -> bool {
    CH_DIGIT_0 <= c <= CH_DIGIT_9
}

/// The characters that the hex-digit reader accepts without overflow: decimal digits, and
/// the characters from `7` (value 10 + c - 'A' >= 0) up to 245 (10 + c <= 255).
pub open spec fn hex_ok(c: u8) -> bool {
    is_digit(c) || (55 <= c <= 245)
}

/// The value of a hex digit as the loader reads it: `c - '0'` for a decimal digit, else
/// `10 + c - 'A'` (so `A`..`F` give 10..15).
pub open spec fn hex4(c: u8) -> u8 {
    if is_digit(c) { (c - CH_DIGIT_0) as u8 } else { (10 + c - CH_UPPER_A) as u8 }
}

/// A byte from two hex digits, high digit first.
pub open spec fn hex8(hi: u8, lo: u8) -> u8 {
    ((hex4(hi) << 4u8) | hex4(lo)) as u8
}

/// A 32-bit word from eight hex digits starting at `chars[i]`, most significant first.
pub open spec fn hex32(chars: Seq<u8>, i: int) -> u32 {
    ((hex8(chars[i], chars[i + 1]) as u32) << 24u32) | ((hex8(chars[i + 2], chars[i + 3]) as u32) << 16u32)
        | ((hex8(chars[i + 4], chars[i + 5]) as u32) << 8u32) | (hex8(chars[i + 6], chars[i + 7]) as u32)
}

/// Where the S-record loader stands.
#[derive(Debug, Clone, Copy, PartialEq, Eq, Structural)]
pub enum LoaderState {
    /// Expecting the `S` that starts a record.
    Start,
    /// Expecting the record type digit.
    Type,
    /// Expecting the byte count of a record of the given type digit.
    Count(u8),
    /// Skipping the rest of an S0 (header) record.
    S0Ignore,
    /// Expecting the address of an S3 (data) record.
    S3Addr,
    /// Expecting a data byte of an S3 record (and after the last, its checksum).
    S3Data,
    /// Skipping the line end of an S3 record after its checksum.
    S3Tail,
    /// Reading an S7 (end) record; loading ends with it.
    S7Addr,
    /// A malformed record was met; loading has ended.
    Failure,
}

/// Progress within the current record.
#[derive(Debug, Clone, Copy, PartialEq, Eq, Structural)]
pub struct LoaderStateData {
    /// Offset of the last byte stored (an S3 record's address, advanced before each store).
    pub addr: u32,
    /// Bytes of the record still to read.
    pub count: u32,
    /// Running sum of the record's count, address and data bytes.
    pub csum: u32,
}

/// The number of characters the loader reads in state `st` with record progress `d`.
pub open spec fn needs_spec(st: LoaderState, d: LoaderStateData) -> nat {
    match st {
        LoaderState::Start => 1,
        LoaderState::Type => 1,
        LoaderState::Count(_) => 2,
        LoaderState::S0Ignore => (2 * d.count + 2) as nat,
        LoaderState::S3Addr => 8,
        LoaderState::S3Data => if d.count > 1 { 2 } else { 4 },
        LoaderState::S3Tail => 2,
        LoaderState::S7Addr => 12,
        LoaderState::Failure => 0,
    }
}

/// The condition under which the loader can take the characters `chars` in state `st`
/// (with `base` the load address) without an arithmetic overflow: the right number of
/// characters, hex digits where it reads numbers, a record long enough for its address
/// and data, and a store address below 2^32.
pub open spec fn step_req(st: LoaderState, d: LoaderStateData, base: u32, chars: Seq<u8>) -> bool {
    &&& chars.len() == needs_spec(st, d)
    &&& match st {
        LoaderState::Count(_) => hex_ok(chars[0]) && hex_ok(chars[1]),
        LoaderState::S3Addr => d.count >= 5 && forall|i: int| 0 <= i < 8 ==> hex_ok(#[trigger] chars[i]),
        LoaderState::S3Data => {
            &&& d.count >= 1
            &&& hex_ok(chars[0]) && hex_ok(chars[1])
            &&& d.addr < u32::MAX
            &&& base + d.addr + 1 <= u32::MAX
            &&& d.count == 1 ==> hex_ok(chars[2]) && hex_ok(chars[3])
        },
        LoaderState::S7Addr => forall|i: int| 0 <= i < 10 ==> hex_ok(#[trigger] chars[i]),
        _ => true,
    }
}

/// The state after reading `chars` in state `st`.
pub open spec fn next_state(st: LoaderState, d: LoaderStateData, chars: Seq<u8>) -> LoaderState {
    match st {
        LoaderState::Start => if chars[0] != CH_S { LoaderState::Failure } else { LoaderState::Type },
        LoaderState::Type => if !is_digit(chars[0]) { LoaderState::Failure } else { LoaderState::Count(chars[0]) },
        LoaderState::Count(r) => {
            if r == CH_DIGIT_0 {
                LoaderState::S0Ignore
            } else if r == CH_DIGIT_3 {
                LoaderState::S3Addr
            } else if r == CH_DIGIT_7 {
                LoaderState::S7Addr
            } else {
                LoaderState::Failure
            }
        },
        LoaderState::S0Ignore => LoaderState::Start,
        LoaderState::S3Addr => LoaderState::S3Data,
        LoaderState::S3Data => if d.count > 1 { LoaderState::S3Data } else { LoaderState::S3Tail },
        LoaderState::S3Tail => LoaderState::Start,
        LoaderState::S7Addr => LoaderState::S7Addr,
        LoaderState::Failure => LoaderState::Failure,
    }
}

/// The sum of the four bytes of `a`.
pub open spec fn byte_sum(a: u32) -> int {
    ((a >> 24u32) & 0xff) + ((a >> 16u32) & 0xff) + ((a >> 8u32) & 0xff) + (a & 0xff)
}

/// The record progress after reading `chars` in state `st`.
pub open spec fn next_data(st: LoaderState, d: LoaderStateData, chars: Seq<u8>) -> LoaderStateData {
    match st {
        LoaderState::Count(_) => {
            let c = hex8(chars[0], chars[1]) as u32;
            LoaderStateData { addr: d.addr, count: c, csum: c }
        },
        LoaderState::S0Ignore => LoaderStateData { count: 0, ..d },
        LoaderState::S3Addr => {
            let a = hex32(chars, 0);
            LoaderStateData { addr: a, count: (d.count - 5) as u32, csum: (d.csum + byte_sum(a)) as u32 }
        },
        LoaderState::S3Data => LoaderStateData {
            addr: (d.addr + 1) as u32,
            count: (d.count - 1) as u32,
            csum: (d.csum + hex8(chars[0], chars[1])) as u32,
        },
        _ => d,
    }
}

/// The message sent when a record does not start with `S`.
pub open spec fn start_error_text(ch: u8) -> Seq<u8> {
    "error: expected start ".spec_bytes() + seq![ch] + "\r\n".spec_bytes()
}

/// The checksum byte that a record with running sum `csum` must carry.
pub open spec fn record_checksum(csum: u32) -> u8 {
    (!(csum & 0xff)) as u8
}

/// The accesses made when reading `chars` in state `st`: an error message on the console
/// (at `ub`) for a record not starting with `S` or with a non-digit type; for a data byte its
/// store at `base` plus the advanced offset, and after a record's last byte a `.` when the
/// checksum read matches the running sum, else `!`.
pub open spec fn step_ops(st: LoaderState, d: LoaderStateData, base: u32, ub: u32, chars: Seq<u8>) -> Seq<RegOp> {
    match st {
        LoaderState::Start => if chars[0] != CH_S { tx_ops(ub, start_error_text(chars[0])) } else { seq![] },
        LoaderState::Type => if !is_digit(chars[0]) {
            tx_ops(ub, "error: unexpected record type\r\n".spec_bytes())
        } else {
            seq![]
        },
        LoaderState::S3Data => {
            let nd = next_data(st, d, chars);
            seq![RegOp::Write8 { addr: (base + nd.addr) as u32, value: hex8(chars[0], chars[1]) }] + if d.count > 1 {
                seq![]
            } else {
                put_char_ops(ub, if hex8(chars[2], chars[3]) == record_checksum(nd.csum) { CH_DOT } else { CH_BANG })
            }
        },
        _ => seq![],
    }
}

/// Read one hex digit.
fn read4(c: u8) -> (r: u8)
    requires
        hex_ok(c),
    ensures
        r == hex4(c),
{
    if CH_DIGIT_0 <= c && c <= CH_DIGIT_9 {
        c - CH_DIGIT_0
    } else {
        10 + c - CH_UPPER_A
    }
}

/// Read a byte from two hex digits, high first.
fn read8(hi: u8, lo: u8) -> (r: u8)
    requires
        hex_ok(hi),
        hex_ok(lo),
    ensures
        r == hex8(hi, lo),
{
    (read4(hi) << 4u8) | read4(lo)
}

/// Read a 32-bit word from the eight hex digits at `chars[i..i + 8]`.
fn read32(chars: &[u8], i: usize) -> (r: u32)
    requires
        i + 8 <= chars@.len(),
        forall|k: int| i <= k < i + 8 ==> hex_ok(#[trigger] chars@[k]),
    ensures
        r == hex32(chars@, i as int),
{
    (read8(chars[i], chars[i + 1]) as u32) << 24u32 | (read8(chars[i + 2], chars[i + 3]) as u32) << 16u32
        | (read8(chars[i + 4], chars[i + 5]) as u32) << 8u32 | read8(chars[i + 6], chars[i + 7]) as u32
}

/// A loader of Motorola S-records (S0 header, S3 data, S7 end) received on the console,
/// storing the data bytes at an offset from a load address.
pub struct SrecLoader {
    state: LoaderState,
    data: LoaderStateData,
    base: u32,
    done: bool,
}

impl SrecLoader {
    /// The running sum and the bytes left of a record stay within what their 32-bit
    /// fields can hold: each byte still to read adds at most 255 to the sum.
    #[verifier::type_invariant]
    spec fn inv(&self) -> bool {
        self.data.csum + 255 * self.data.count <= 65280
    }

    pub closed spec fn state_spec(&self) -> LoaderState {
        self.state
    }

    pub closed spec fn data_spec(&self) -> LoaderStateData {
        self.data
    }

    /// The load address.
    pub closed spec fn base_spec(&self) -> u32 {
        self.base
    }

    /// Whether an S7 record has ended loading.
    pub closed spec fn done_spec(&self) -> bool {
        self.done
    }

    /// A loader at the start of a record, storing at offsets from `base`; local echo of the
    /// console is turned off while loading.
    pub fn new(uart: &mut UART, base: u32) -> (r: SrecLoader)
        ensures
            r.state_spec() == LoaderState::Start,
            r.data_spec() == (LoaderStateData { addr: 0, count: 0, csum: 0 }),
            r.base_spec() == base,
            !r.done_spec(),
            final(uart).base_spec() == old(uart).base_spec(),
            !final(uart).echo_spec(),
    {
        uart.set_echo(false);
        SrecLoader { state: LoaderState::Start, data: LoaderStateData { addr: 0, count: 0, csum: 0 }, base, done: false }
    }

    /// Whether loading goes on: no S7 record has ended it and no malformed record was met.
    pub fn active(&self) -> (r: bool)
        ensures
            r == (!self.done_spec() && self.state_spec() != LoaderState::Failure),
    {
        !self.done && !matches!(self.state, LoaderState::Failure)
    }

    /// How many characters the next step reads.
    pub fn needs(&self) -> (r: usize)
        ensures
            r == needs_spec(self.state_spec(), self.data_spec()),
    {
        proof { use_type_invariant(self); }
        match self.state {
            LoaderState::Start => 1,
            LoaderState::Type => 1,
            LoaderState::Count(_) => 2,
            LoaderState::S0Ignore => (2 * self.data.count + 2) as usize,
            LoaderState::S3Addr => 8,
            LoaderState::S3Data => if self.data.count > 1 { 2 } else { 4 },
            LoaderState::S3Tail => 2,
            LoaderState::S7Addr => 12,
            LoaderState::Failure => 0,
        }
    }

    /// Whether the next step can take `chars` (see `step_req`).
    pub fn accepts(&self, chars: &[u8]) -> (r: bool)
        ensures
            r == step_req(self.state_spec(), self.data_spec(), self.base_spec(), chars@),
    {
        if chars.len() != self.needs() {
            return false;
        }
        match self.state {
            LoaderState::Count(_) => hex_char_ok(chars[0]) && hex_char_ok(chars[1]),
            LoaderState::S3Addr => self.data.count >= 5 && all_hex(chars, 8),
            LoaderState::S3Data => {
                self.data.count >= 1 && hex_char_ok(chars[0]) && hex_char_ok(chars[1]) && self.data.addr < u32::MAX
                    && self.data.addr + 1 <= u32::MAX - self.base && (self.data.count != 1 || (hex_char_ok(chars[2])
                    && hex_char_ok(chars[3])))
            },
            LoaderState::S7Addr => all_hex(chars, 10),
            _ => true,
        }
    }

    /// Read the characters `chars` of the current record part (as many as `needs` says):
    /// moves to the next state, updates the record progress, sends messages and stores
    /// data bytes as `step_ops` says, and ends loading after an S7 record.
    pub fn step(&mut self, uart: &mut UART, prog: &mut Vec<RegOp>, chars: &[u8])
        requires
            !old(self).done_spec(),
            step_req(old(self).state_spec(), old(self).data_spec(), old(self).base_spec(), chars@),
        ensures
            final(self).state_spec() == next_state(old(self).state_spec(), old(self).data_spec(), chars@),
            final(self).data_spec() == next_data(old(self).state_spec(), old(self).data_spec(), chars@),
            final(self).base_spec() == old(self).base_spec(),
            final(self).done_spec() == (old(self).state_spec() == LoaderState::S7Addr),
            *final(uart) == *old(uart),
            final(prog)@ == old(prog)@ + step_ops(
                old(self).state_spec(),
                old(self).data_spec(),
                old(self).base_spec(),
                old(uart).base_spec(),
                chars@,
            ),
    {
        proof { use_type_invariant(&*self); }
        let ghost start = prog@;
        let ghost st = self.state;
        let ghost d = self.data;
        match self.state {
            LoaderState::Start => {
                let ch = chars[0];
                if ch != CH_S {
                    uart.write_str(prog, "error: expected start ");
                    uart.put_char(prog, ch);
                    uart.write_str(prog, "\r\n");
                    proof {
                        let ub = uart.base_spec();
                        crate::devices::uart::lemma_tx_ops_push(ub, "error: expected start ".spec_bytes(), ch);
                        crate::devices::uart::lemma_tx_ops_concat(ub, "error: expected start ".spec_bytes().push(ch), "\r\n".spec_bytes());
                        assert("error: expected start ".spec_bytes().push(ch) =~= "error: expected start ".spec_bytes() + seq![ch]);
                        assert(prog@ =~= start + tx_ops(ub, start_error_text(ch)));
                    }
                    self.state = LoaderState::Failure;
                } else {
                    self.state = LoaderState::Type;
                    assert(prog@ =~= start + seq![]);
                }
            },
            LoaderState::Type => {
                let r = chars[0];
                if !(CH_DIGIT_0 <= r && r <= CH_DIGIT_9) {
                    uart.write_str(prog, "error: unexpected record type\r\n");
                    self.state = LoaderState::Failure;
                } else {
                    self.state = LoaderState::Count(r);
                    assert(prog@ =~= start + seq![]);
                }
            },
            LoaderState::Count(r) => {
                let c = read8(chars[0], chars[1]) as u32;
                self.data = LoaderStateData { addr: self.data.addr, count: c, csum: c };
                self.state = if r == CH_DIGIT_0 {
                    LoaderState::S0Ignore
                } else if r == CH_DIGIT_3 {
                    LoaderState::S3Addr
                } else if r == CH_DIGIT_7 {
                    LoaderState::S7Addr
                } else {
                    LoaderState::Failure
                };
                assert(prog@ =~= start + seq![]);
            },
            LoaderState::S0Ignore => {
                self.data = LoaderStateData { addr: self.data.addr, count: 0, csum: self.data.csum };
                self.state = LoaderState::Start;
                assert(prog@ =~= start + seq![]);
            },
            LoaderState::S3Addr => {
                let a = read32(chars, 0);
                let count = self.data.count - 5;
                let mut csum = self.data.csum;
                assert((a >> 24u32) & 0xff <= 255 && (a >> 16u32) & 0xff <= 255 && (a >> 8u32) & 0xff <= 255 && a & 0xff <= 255) by (bit_vector);
                csum += (a >> 24u32) & 0xff;
                csum += (a >> 16u32) & 0xff;
                csum += (a >> 8u32) & 0xff;
                csum += a & 0xff;
                self.data = LoaderStateData { addr: a, count, csum };
                self.state = LoaderState::S3Data;
                assert(prog@ =~= start + seq![]);
            },
            LoaderState::S3Data => {
                let v = read8(chars[0], chars[1]);
                let count = self.data.count - 1;
                let csum = self.data.csum + v as u32;
                let addr = self.data.addr + 1;
                self.data = LoaderStateData { addr, count, csum };
                io::write8(prog, self.base + addr, v);
                if count > 0 {
                    assert(prog@ =~= start + step_ops(st, d, self.base, uart.base_spec(), chars@));
                } else {
                    let cs0 = read8(chars[2], chars[3]);
                    let cs1 = (!(csum & 0xff)) as u8;
                    uart.put_char(prog, if cs0 == cs1 { CH_DOT } else { CH_BANG });
                    self.state = LoaderState::S3Tail;
                    assert(prog@ =~= start + step_ops(st, d, self.base, uart.base_spec(), chars@));
                }
            },
            LoaderState::S3Tail => {
                self.state = LoaderState::Start;
                assert(prog@ =~= start + seq![]);
            },
            LoaderState::S7Addr => {
                let _addr = read32(chars, 0);
                let _cs = read8(chars[8], chars[9]);
                self.done = true;
                assert(prog@ =~= start + seq![]);
            },
            LoaderState::Failure => {
                assert(prog@ =~= start + seq![]);
            },
        }
    }

    /// End loading: local echo of the console is turned back on; the final state and
    /// record progress are returned.
    pub fn finish(self, uart: &mut UART) -> (r: (LoaderState, LoaderStateData))
        ensures
            r == (self.state_spec(), self.data_spec()),
            final(uart).base_spec() == old(uart).base_spec(),
            final(uart).echo_spec(),
    {
        uart.set_echo(true);
        (self.state, self.data)
    }
}

/// Whether `c` is a character the hex-digit reader accepts.
pub fn hex_char_ok(c: u8) -> (r: bool)
    ensures
        r == hex_ok(c),
{
    (CH_DIGIT_0 <= c && c <= CH_DIGIT_9) || (55 <= c && c <= 245)
}

/// Whether the first `n` characters of `chars` are all accepted by the hex-digit reader.
fn all_hex(chars: &[u8], n: usize) -> (r: bool)
    requires
        n <= chars@.len(),
    ensures
        r == forall|i: int| 0 <= i < n ==> hex_ok(#[trigger] chars@[i]),
{
    let mut i: usize = 0;
    while i < n
        invariant
            i <= n <= chars@.len(),
            forall|k: int| 0 <= k < i ==> hex_ok(#[trigger] chars@[k]),
        decreases n - i,
    {
        if !hex_char_ok(chars[i]) {
            return false;
        }
        i += 1;
    }
    true
}


/// The loader run over the text `text`, taking as many characters as it needs at each
/// step while it is active and enough are left: the final state, record progress, whether
/// an S7 record ended loading, and the accesses made.
pub open spec fn run_text(
    st: LoaderState,
    d: LoaderStateData,
    done: bool,
    base: u32,
    ub: u32,
    text: Seq<u8>,
) -> (LoaderState, LoaderStateData, bool, Seq<RegOp>)
    decreases text.len(),
{
    let n = needs_spec(st, d);
    if done || st == LoaderState::Failure || n == 0 || text.len() < n {
        (st, d, done, seq![])
    } else {
        let c = text.take(n as int);
        let r = run_text(next_state(st, d, c), next_data(st, d, c), st == LoaderState::S7Addr, base, ub, text.skip(n as int));
        (r.0, r.1, r.2, step_ops(st, d, base, ub, c) + r.3)
    }
}

/// Whether every step of `run_text` over `text` meets `step_req`, so that the loader
/// accepts each part of the text.
pub open spec fn text_accepted(st: LoaderState, d: LoaderStateData, done: bool, base: u32, text: Seq<u8>) -> bool
    decreases text.len(),
{
    let n = needs_spec(st, d);
    if done || st == LoaderState::Failure || n == 0 || text.len() < n {
        true
    } else {
        let c = text.take(n as int);
        step_req(st, d, base, c) && text_accepted(next_state(st, d, c), next_data(st, d, c), st == LoaderState::S7Addr, base, text.skip(n as int))
    }
}

/// The upper-case hex digit of `n` (below 16).
pub open spec fn hex_digit(n: u8) -> u8 {
    if n < 10 { (CH_DIGIT_0 + n) as u8 } else { (CH_UPPER_A + n - 10) as u8 }
}

/// The two hex digits of `b`.
pub open spec fn hex_byte(b: u8) -> Seq<u8> {
    seq![hex_digit(b >> 4u8), hex_digit(b & 0xf)]
}

/// The eight hex digits of `a`.
pub open spec fn hex_word(a: u32) -> Seq<u8> {
    hex_byte((a >> 24u32) as u8) + hex_byte((a >> 16u32) as u8) + hex_byte((a >> 8u32) as u8) + hex_byte(a as u8)
}

/// The hex digits of the bytes `data`, in order.
pub open spec fn hex_text(data: Seq<u8>) -> Seq<u8>
    decreases data.len(),
{
    if data.len() == 0 { seq![] } else { hex_byte(data[0]) + hex_text(data.skip(1)) }
}

/// Line end of a record.
pub open spec fn crlf() -> Seq<u8> {
    seq![0x0du8, 0x0au8]
}

/// The text of an S3 record for the bytes `data` at `addr` with checksum byte `ck`.
pub open spec fn s3_record(addr: u32, data: Seq<u8>, ck: u8) -> Seq<u8> {
    seq![CH_S, CH_DIGIT_3] + hex_byte((data.len() + 5) as u8) + hex_word(addr) + hex_text(data) + hex_byte(ck) + crlf()
}

/// The text of an S7 (end) record for the entry address `entry` with checksum byte `ck`.
pub open spec fn s7_record(entry: u32, ck: u8) -> Seq<u8> {
    seq![CH_S, CH_DIGIT_7] + hex_byte(5) + hex_word(entry) + hex_byte(ck) + crlf()
}

/// The text of an S0 (header) record whose count byte is `count`, followed by the `body`
/// of `2 * count + 2` characters it skips.
pub open spec fn s0_record(count: u8, body: Seq<u8>) -> Seq<u8> {
    seq![CH_S, CH_DIGIT_0] + hex_byte(count) + body
}

/// The sum of the bytes `data`.
pub open spec fn bytes_sum(data: Seq<u8>) -> int
    decreases data.len(),
{
    if data.len() == 0 { 0 } else { data[0] + bytes_sum(data.skip(1)) }
}

/// The stores of the bytes `data` when the last offset stored was `addr`: each byte goes
/// one past the previous one.
pub open spec fn stores(base: u32, addr: u32, data: Seq<u8>) -> Seq<RegOp>
    decreases data.len(),
{
    if data.len() == 0 {
        seq![]
    } else {
        seq![RegOp::Write8 { addr: (base + addr + 1) as u32, value: data[0] }] + stores(base, (addr + 1) as u32, data.skip(1))
    }
}

proof fn lemma_hex_digit(n: u8)
    requires
        n < 16,
    ensures
        hex_ok(hex_digit(n)),
        hex4(hex_digit(n)) == n,
{
}

proof fn lemma_hex_byte(b: u8)
    ensures
        hex_ok(hex_byte(b)[0]) && hex_ok(hex_byte(b)[1]),
        hex8(hex_byte(b)[0], hex_byte(b)[1]) == b,
        hex_byte(b).len() == 2,
{
    assert(b >> 4u8 < 16 && b & 0xf < 16) by (bit_vector);
    lemma_hex_digit(b >> 4u8);
    lemma_hex_digit(b & 0xf);
    assert((((b >> 4u8) << 4u8) | (b & 0xf)) as u8 == b) by (bit_vector);
}

proof fn lemma_hex_word(a: u32)
    ensures
        forall|i: int| 0 <= i < 8 ==> hex_ok(#[trigger] hex_word(a)[i]),
        hex32(hex_word(a), 0) == a,
        hex_word(a).len() == 8,
        0 <= byte_sum(a) <= 1020,
{
    let b3 = (a >> 24u32) as u8;
    let b2 = (a >> 16u32) as u8;
    let b1 = (a >> 8u32) as u8;
    let b0 = a as u8;
    lemma_hex_byte(b3);
    lemma_hex_byte(b2);
    lemma_hex_byte(b1);
    lemma_hex_byte(b0);
    let w = hex_word(a);
    assert(w =~= seq![hex_byte(b3)[0], hex_byte(b3)[1], hex_byte(b2)[0], hex_byte(b2)[1],
        hex_byte(b1)[0], hex_byte(b1)[1], hex_byte(b0)[0], hex_byte(b0)[1]]);
    assert(((b3 as u32) << 24u32) | ((b2 as u32) << 16u32) | ((b1 as u32) << 8u32) | (b0 as u32) == a) by (bit_vector)
        requires b3 == (a >> 24u32) as u8, b2 == (a >> 16u32) as u8, b1 == (a >> 8u32) as u8, b0 == a as u8;
    assert(byte_sum(a) == b3 + b2 + b1 + b0) by (bit_vector)
        requires b3 == (a >> 24u32) as u8, b2 == (a >> 16u32) as u8, b1 == (a >> 8u32) as u8, b0 == a as u8;
}

proof fn lemma_bytes_sum_bound(data: Seq<u8>)
    ensures
        0 <= bytes_sum(data) <= 255 * data.len(),
    decreases data.len(),
{
    if data.len() > 0 {
        lemma_bytes_sum_bound(data.skip(1));
    }
}

/// One step of `run_text` and `text_accepted`, unfolded.
proof fn lemma_run_text_step(st: LoaderState, d: LoaderStateData, base: u32, ub: u32, text: Seq<u8>)
    requires
        st != LoaderState::Failure,
        needs_spec(st, d) > 0,
        text.len() >= needs_spec(st, d),
    ensures
        ({
            let n = needs_spec(st, d) as int;
            let c = text.take(n);
            let r = run_text(next_state(st, d, c), next_data(st, d, c), st == LoaderState::S7Addr, base, ub, text.skip(n));
            &&& run_text(st, d, false, base, ub, text) == (r.0, r.1, r.2, step_ops(st, d, base, ub, c) + r.3)
            &&& text_accepted(st, d, false, base, text) == (step_req(st, d, base, c)
                && text_accepted(next_state(st, d, c), next_data(st, d, c), st == LoaderState::S7Addr, base, text.skip(n)))
        }),
{
}

/// The reply to an S3 record for the bytes `data` at `addr` with checksum byte `ck`: `.` when
/// `ck` is the complement of the low byte of the sum of the count, address and data bytes,
/// else `!`.
pub open spec fn record_reply(addr: u32, data: Seq<u8>, ck: u8) -> u8 {
    let sum = (data.len() + 5 + byte_sum(addr) + bytes_sum(data)) as u32;
    if ck == record_checksum(sum) { CH_DOT } else { CH_BANG }
}

/// The checksum a record must carry complements the low byte of its running sum: the two
/// add up to 255, for every sum.
pub proof fn lemma_record_checksum(csum: u32)
    ensures
        record_checksum(csum) + csum % 256 == 255,
{
    assert(((!(csum & 0xff)) as u8) as int + csum % 256 == 255) by (bit_vector);
}

/// The reply to an S3 record is `.` exactly when its checksum byte and the sum of its count,
/// address and data bytes add up to 255 modulo 256, and `!` otherwise.
pub proof fn lemma_record_reply(addr: u32, data: Seq<u8>, ck: u8)
    requires
        data.len() <= 250,
    ensures
        record_reply(addr, data, ck) == (if (ck + (data.len() + 5 + byte_sum(addr) + bytes_sum(data))) % 256 == 255 {
            CH_DOT
        } else {
            CH_BANG
        }),
{
    lemma_hex_word(addr);
    lemma_bytes_sum_bound(data);
    let sum = data.len() + 5 + byte_sum(addr) + bytes_sum(data);
    assert(0 <= sum <= u32::MAX);
    let s32 = sum as u32;
    assert(s32 as int == sum);
    lemma_record_checksum(s32);
    assert(0 <= ck < 256);
    assert((ck + sum) % 256 == 255 <==> ck == 255 - sum % 256) by {
        assert(0 <= sum % 256 < 256);
        assert((ck + sum) % 256 == (ck + sum % 256) % 256) by {
            vstd::arithmetic::div_mod::lemma_add_mod_noop(ck as int, sum, 256);
            vstd::arithmetic::div_mod::lemma_mod_twice(ck as int, 256);
            vstd::arithmetic::div_mod::lemma_small_mod(ck as nat, 256);
        }
    }
}

/// The accesses that loading one S3 record makes: the stores of its data bytes, then the
/// reply on the console at `ub`.
pub open spec fn record_ops(base: u32, ub: u32, addr: u32, data: Seq<u8>, ck: u8) -> Seq<RegOp> {
    stores(base, addr, data) + put_char_ops(ub, record_reply(addr, data, ck))
}

/// The record progress after an S3 record for `data` at `addr`.
pub open spec fn record_end_data(addr: u32, data: Seq<u8>) -> LoaderStateData {
    LoaderStateData {
        addr: (addr + data.len()) as u32,
        count: 0,
        csum: (data.len() + 5 + byte_sum(addr) + bytes_sum(data)) as u32,
    }
}

/// The data part of an S3 record followed by `rest`: from `S3Data` with `rem` data bytes to
/// read, the loader stores them one after the other, replies to the checksum, skips the
/// line end, and goes on with `rest` at the start of a record.
proof fn lemma_s3_data(d: LoaderStateData, base: u32, ub: u32, rem: Seq<u8>, ck: u8, rest: Seq<u8>)
    requires
        rem.len() >= 1,
        d.count == rem.len(),
        d.csum + 255 * d.count <= 65280,
        base + d.addr + rem.len() <= u32::MAX,
    ensures
        ({
            let text = hex_text(rem) + hex_byte(ck) + crlf() + rest;
            let sum = (d.csum + bytes_sum(rem)) as u32;
            let nd = LoaderStateData { addr: (d.addr + rem.len()) as u32, count: 0, csum: sum };
            let r = run_text(LoaderState::Start, nd, false, base, ub, rest);
            &&& run_text(LoaderState::S3Data, d, false, base, ub, text) == (
                r.0,
                r.1,
                r.2,
                stores(base, d.addr, rem) + put_char_ops(ub, if ck == record_checksum(sum) { CH_DOT } else { CH_BANG }) + r.3,
            )
            &&& text_accepted(LoaderState::S3Data, d, false, base, text) == text_accepted(LoaderState::Start, nd, false, base, rest)
        }),
    decreases rem.len(),
{
    let text = hex_text(rem) + hex_byte(ck) + crlf() + rest;
    lemma_hex_byte(rem[0]);
    lemma_hex_byte(ck);
    lemma_bytes_sum_bound(rem.skip(1));
    assert(hex_text(rem) == hex_byte(rem[0]) + hex_text(rem.skip(1)));
    assert(bytes_sum(rem) == rem[0] + bytes_sum(rem.skip(1)));
    lemma_run_text_step(LoaderState::S3Data, d, base, ub, text);
    if rem.len() == 1 {
        assert(rem.skip(1) =~= Seq::<u8>::empty());
        assert(hex_text(rem.skip(1)) =~= Seq::<u8>::empty());
        assert(bytes_sum(rem.skip(1)) == 0);
        let c = text.take(4);
        assert(c =~= hex_byte(rem[0]) + hex_byte(ck));
        assert(c[0] == hex_byte(rem[0])[0] && c[1] == hex_byte(rem[0])[1]);
        assert(c[2] == hex_byte(ck)[0] && c[3] == hex_byte(ck)[1]);
        let t = text.skip(4);
        assert(t =~= crlf() + rest);
        let nd = next_data(LoaderState::S3Data, d, c);
        assert(nd == LoaderStateData { addr: (d.addr + 1) as u32, count: 0, csum: (d.csum + rem[0]) as u32 });
        assert(next_state(LoaderState::S3Data, d, c) == LoaderState::S3Tail);
        lemma_run_text_step(LoaderState::S3Tail, nd, base, ub, t);
        assert(t.take(2) =~= crlf());
        assert(t.skip(2) =~= rest);
        assert(next_state(LoaderState::S3Tail, nd, t.take(2)) == LoaderState::Start);
        assert(next_data(LoaderState::S3Tail, nd, t.take(2)) == nd);
        assert(step_ops(LoaderState::S3Tail, nd, base, ub, t.take(2)) =~= Seq::<RegOp>::empty());
        assert(step_req(LoaderState::S3Tail, nd, base, t.take(2)));
        let r = run_text(LoaderState::Start, nd, false, base, ub, rest);
        assert(stores(base, (d.addr + 1) as u32, rem.skip(1)) =~= Seq::<RegOp>::empty());
        assert(stores(base, d.addr, rem) =~= seq![RegOp::Write8 { addr: (base + d.addr + 1) as u32, value: rem[0] }]);
        assert(step_ops(LoaderState::S3Data, d, base, ub, c) + (Seq::<RegOp>::empty() + r.3) =~= stores(base, d.addr, rem)
            + put_char_ops(ub, if ck == record_checksum((d.csum + bytes_sum(rem)) as u32) { CH_DOT } else { CH_BANG }) + r.3);
        assert(step_req(LoaderState::S3Data, d, base, c));
    } else {
        let c = text.take(2);
        assert(c =~= hex_byte(rem[0]));
        let t = text.skip(2);
        assert(t =~= hex_text(rem.skip(1)) + hex_byte(ck) + crlf() + rest);
        let nd = next_data(LoaderState::S3Data, d, c);
        assert(nd == LoaderStateData { addr: (d.addr + 1) as u32, count: (d.count - 1) as u32, csum: (d.csum + rem[0]) as u32 });
        assert(next_state(LoaderState::S3Data, d, c) == LoaderState::S3Data);
        lemma_s3_data(nd, base, ub, rem.skip(1), ck, rest);
        assert(stores(base, d.addr, rem) == seq![RegOp::Write8 { addr: (base + d.addr + 1) as u32, value: rem[0] }]
            + stores(base, nd.addr, rem.skip(1)));
        let sum = (d.csum + bytes_sum(rem)) as u32;
        assert(sum == (nd.csum + bytes_sum(rem.skip(1))) as u32);
        let fd = LoaderStateData { addr: (d.addr + rem.len()) as u32, count: 0, csum: sum };
        assert(fd == LoaderStateData { addr: (nd.addr + rem.skip(1).len()) as u32, count: 0, csum: (nd.csum + bytes_sum(rem.skip(1))) as u32 });
        let r = run_text(LoaderState::Start, fd, false, base, ub, rest);
        let r2 = run_text(LoaderState::S3Data, nd, false, base, ub, t);
        assert(step_ops(LoaderState::S3Data, d, base, ub, c) + r2.3 =~= stores(base, d.addr, rem) + put_char_ops(
            ub,
            if ck == record_checksum(sum) { CH_DOT } else { CH_BANG },
        ) + r.3);
        assert(step_req(LoaderState::S3Data, d, base, c));
    }
}

/// Loading an S3 record followed by `rest`: read from the start of a record, the loader
/// accepts every part of the record, stores its data bytes one after the other from one
/// past its address on (at offsets from the load address), replies `.` when the checksum
/// matches and `!` when not (see `record_reply`) before it reads the line end, and goes on
/// with `rest` at the start of a record.
pub proof fn lemma_s3_record_loads(d: LoaderStateData, base: u32, ub: u32, addr: u32, data: Seq<u8>, ck: u8, rest: Seq<u8>)
    requires
        1 <= data.len() <= 250,
        base + addr + data.len() <= u32::MAX,
    ensures
        ({
            let text = s3_record(addr, data, ck) + rest;
            let r = run_text(LoaderState::Start, record_end_data(addr, data), false, base, ub, rest);
            &&& text_accepted(LoaderState::Start, d, false, base, text)
                == text_accepted(LoaderState::Start, record_end_data(addr, data), false, base, rest)
            &&& run_text(LoaderState::Start, d, false, base, ub, text) == (r.0, r.1, r.2, record_ops(base, ub, addr, data, ck) + r.3)
        }),
{
    let n = data.len();
    let cnt = (n + 5) as u8;
    let text = s3_record(addr, data, ck) + rest;
    lemma_hex_byte(cnt);
    lemma_hex_word(addr);
    lemma_bytes_sum_bound(data);
    let t1 = text.skip(1);
    let t2 = text.skip(2);
    let t3 = text.skip(4);
    let t4 = text.skip(12);
    assert(text.take(1) =~= seq![CH_S]);
    assert(t1.take(1) =~= seq![CH_DIGIT_3]);
    assert(t1.skip(1) =~= t2);
    assert(t2.take(2) =~= hex_byte(cnt));
    assert(t2.skip(2) =~= t3);
    assert(t3.take(8) =~= hex_word(addr));
    assert(t3.skip(8) =~= t4);
    assert(t4 =~= hex_text(data) + hex_byte(ck) + crlf() + rest);

    // 'S'
    lemma_run_text_step(LoaderState::Start, d, base, ub, text);
    assert(next_state(LoaderState::Start, d, text.take(1)) == LoaderState::Type);
    assert(next_data(LoaderState::Start, d, text.take(1)) == d);
    // '3'
    lemma_run_text_step(LoaderState::Type, d, base, ub, t1);
    assert(next_state(LoaderState::Type, d, t1.take(1)) == LoaderState::Count(CH_DIGIT_3));
    // count
    lemma_run_text_step(LoaderState::Count(CH_DIGIT_3), d, base, ub, t2);
    let d1 = next_data(LoaderState::Count(CH_DIGIT_3), d, t2.take(2));
    assert(d1 == LoaderStateData { addr: d.addr, count: (n + 5) as u32, csum: (n + 5) as u32 });
    // address
    lemma_run_text_step(LoaderState::S3Addr, d1, base, ub, t3);
    let d2 = next_data(LoaderState::S3Addr, d1, t3.take(8));
    assert(d2 == LoaderStateData { addr: addr, count: n as u32, csum: (n + 5 + byte_sum(addr)) as u32 });
    assert(step_req(LoaderState::S3Addr, d1, base, t3.take(8)));
    // data, checksum and line end
    lemma_s3_data(d2, base, ub, data, ck, rest);
    assert(LoaderStateData { addr: (d2.addr + data.len()) as u32, count: 0, csum: (d2.csum + bytes_sum(data)) as u32 }
        == record_end_data(addr, data));
    assert(step_ops(LoaderState::Start, d, base, ub, text.take(1)) =~= Seq::<RegOp>::empty());
    assert(step_ops(LoaderState::Type, d, base, ub, t1.take(1)) =~= Seq::<RegOp>::empty());
    assert(step_ops(LoaderState::Count(CH_DIGIT_3), d, base, ub, t2.take(2)) =~= Seq::<RegOp>::empty());
    assert(step_ops(LoaderState::S3Addr, d1, base, ub, t3.take(8)) =~= Seq::<RegOp>::empty());
    let r = run_text(LoaderState::Start, record_end_data(addr, data), false, base, ub, rest);
    let r4 = run_text(LoaderState::S3Data, d2, false, base, ub, t4);
    assert(r4.3 == record_ops(base, ub, addr, data, ck) + r.3);
    assert(Seq::<RegOp>::empty() + (Seq::<RegOp>::empty() + (Seq::<RegOp>::empty() + (Seq::<RegOp>::empty() + r4.3))) =~= r4.3);
}

/// An S7 record ends loading: read from the start of a record, the loader accepts it,
/// makes no access, and stops in the S7 state, whatever text follows.
pub proof fn lemma_s7_record_ends(d: LoaderStateData, base: u32, ub: u32, entry: u32, ck: u8, rest: Seq<u8>)
    ensures
        ({
            let text = s7_record(entry, ck) + rest;
            &&& text_accepted(LoaderState::Start, d, false, base, text)
            &&& run_text(LoaderState::Start, d, false, base, ub, text) == (
                LoaderState::S7Addr,
                LoaderStateData { addr: d.addr, count: 5, csum: 5 },
                true,
                Seq::<RegOp>::empty(),
            )
        }),
{
    let text = s7_record(entry, ck) + rest;
    lemma_hex_byte(5);
    lemma_hex_word(entry);
    lemma_hex_byte(ck);
    let t1 = text.skip(1);
    let t2 = text.skip(2);
    let t4 = text.skip(4);
    assert(text.take(1) =~= seq![CH_S]);
    assert(t1.take(1) =~= seq![CH_DIGIT_7]);
    assert(t1.skip(1) =~= t2);
    assert(t2.take(2) =~= hex_byte(5));
    assert(t2.skip(2) =~= t4);
    assert(t4.len() >= 12);
    assert(forall|i: int| 0 <= i < 8 ==> t4.take(12)[i] == hex_word(entry)[i]);
    assert(t4.take(12)[8] == hex_byte(ck)[0] && t4.take(12)[9] == hex_byte(ck)[1]);
    lemma_run_text_step(LoaderState::Start, d, base, ub, text);
    lemma_run_text_step(LoaderState::Type, d, base, ub, t1);
    lemma_run_text_step(LoaderState::Count(CH_DIGIT_7), d, base, ub, t2);
    let d1 = next_data(LoaderState::Count(CH_DIGIT_7), d, t2.take(2));
    assert(d1 == LoaderStateData { addr: d.addr, count: 5, csum: 5 });
    lemma_run_text_step(LoaderState::S7Addr, d1, base, ub, t4);
    assert(step_req(LoaderState::S7Addr, d1, base, t4.take(12)));
    let r = run_text(LoaderState::S7Addr, d1, true, base, ub, t4.skip(12));
    assert(r == (LoaderState::S7Addr, d1, true, Seq::<RegOp>::empty()));
    assert(Seq::<RegOp>::empty() + (Seq::<RegOp>::empty() + (Seq::<RegOp>::empty() + (Seq::<RegOp>::empty() + r.3))) =~= Seq::<RegOp>::empty());
}

/// An S0 header record is skipped: read from the start of a record, the loader accepts it,
/// makes no access, and goes on with `rest` at the start of a record.
pub proof fn lemma_s0_record_skipped(d: LoaderStateData, base: u32, ub: u32, count: u8, body: Seq<u8>, rest: Seq<u8>)
    requires
        body.len() == 2 * count + 2,
    ensures
        ({
            let text = s0_record(count, body) + rest;
            let nd = LoaderStateData { addr: d.addr, count: 0, csum: count as u32 };
            &&& text_accepted(LoaderState::Start, d, false, base, text) == text_accepted(LoaderState::Start, nd, false, base, rest)
            &&& run_text(LoaderState::Start, d, false, base, ub, text) == run_text(LoaderState::Start, nd, false, base, ub, rest)
        }),
{
    let text = s0_record(count, body) + rest;
    lemma_hex_byte(count);
    let t1 = text.skip(1);
    let t2 = text.skip(2);
    let t3 = text.skip(4);
    assert(text.take(1) =~= seq![CH_S]);
    assert(t1.take(1) =~= seq![CH_DIGIT_0]);
    assert(t1.skip(1) =~= t2);
    assert(t2.take(2) =~= hex_byte(count));
    assert(t2.skip(2) =~= t3);
    assert(t3 =~= body + rest);
    assert(t3.take(body.len() as int) =~= body);
    assert(t3.skip(body.len() as int) =~= rest);
    lemma_run_text_step(LoaderState::Start, d, base, ub, text);
    lemma_run_text_step(LoaderState::Type, d, base, ub, t1);
    lemma_run_text_step(LoaderState::Count(CH_DIGIT_0), d, base, ub, t2);
    let d1 = next_data(LoaderState::Count(CH_DIGIT_0), d, t2.take(2));
    assert(d1 == LoaderStateData { addr: d.addr, count: count as u32, csum: count as u32 });
    lemma_run_text_step(LoaderState::S0Ignore, d1, base, ub, t3);
    let d2 = next_data(LoaderState::S0Ignore, d1, body);
    let r = run_text(LoaderState::Start, d2, false, base, ub, rest);
    assert(Seq::<RegOp>::empty() + (Seq::<RegOp>::empty() + (Seq::<RegOp>::empty() + (Seq::<RegOp>::empty() + r.3))) =~= r.3);
}

/// An S3 record for the bytes `.1` at address `.0` with checksum byte `.2`.
pub type S3Rec = (u32, Seq<u8>, u8);

/// The text of the S3 records `recs`, one after the other.
pub open spec fn s3_records_text(recs: Seq<S3Rec>) -> Seq<u8>
    decreases recs.len(),
{
    if recs.len() == 0 {
        seq![]
    } else {
        s3_record(recs[0].0, recs[0].1, recs[0].2) + s3_records_text(recs.skip(1))
    }
}

/// The accesses that loading the S3 records `recs` makes, one record after the other.
pub open spec fn records_ops(base: u32, ub: u32, recs: Seq<S3Rec>) -> Seq<RegOp>
    decreases recs.len(),
{
    if recs.len() == 0 {
        seq![]
    } else {
        record_ops(base, ub, recs[0].0, recs[0].1, recs[0].2) + records_ops(base, ub, recs.skip(1))
    }
}

/// Every record holds 1 to 250 data bytes whose store addresses lie below 2^32.
pub open spec fn records_fit(base: u32, recs: Seq<S3Rec>) -> bool {
    forall|i: int| 0 <= i < recs.len() ==> 1 <= (#[trigger] recs[i]).1.len() <= 250 && base + recs[i].0 + recs[i].1.len() <= u32::MAX
}

/// Loading an image: read from the start of a record, a sequence of S3 records ended by an
/// S7 record is accepted in full; each record's data bytes are stored and its checksum
/// replied to, record after record; loading ends with the S7 record, whatever follows.
pub proof fn lemma_load_image(d: LoaderStateData, base: u32, ub: u32, recs: Seq<S3Rec>, entry: u32, ck: u8, rest: Seq<u8>)
    requires
        records_fit(base, recs),
    ensures
        ({
            let text = s3_records_text(recs) + s7_record(entry, ck) + rest;
            let r = run_text(LoaderState::Start, d, false, base, ub, text);
            &&& text_accepted(LoaderState::Start, d, false, base, text)
            &&& r.0 == LoaderState::S7Addr
            &&& r.2
            &&& r.3 == records_ops(base, ub, recs)
        }),
    decreases recs.len(),
{
    if recs.len() == 0 {
        assert(s3_records_text(recs) + s7_record(entry, ck) + rest =~= s7_record(entry, ck) + rest);
        lemma_s7_record_ends(d, base, ub, entry, ck, rest);
    } else {
        let rec = recs[0];
        assert(1 <= recs[0].1.len() <= 250 && base + recs[0].0 + recs[0].1.len() <= u32::MAX);
        let tail = s3_records_text(recs.skip(1)) + s7_record(entry, ck) + rest;
        assert(s3_records_text(recs) + s7_record(entry, ck) + rest =~= s3_record(rec.0, rec.1, rec.2) + tail);
        lemma_s3_record_loads(d, base, ub, rec.0, rec.1, rec.2, tail);
        assert forall|i: int| 0 <= i < recs.skip(1).len() implies 1 <= (#[trigger] recs.skip(1)[i]).1.len() <= 250
            && base + recs.skip(1)[i].0 + recs.skip(1)[i].1.len() <= u32::MAX by {
            assert(recs.skip(1)[i] == recs[i + 1]);
        }
        let nd = record_end_data(rec.0, rec.1);
        lemma_load_image(nd, base, ub, recs.skip(1), entry, ck, rest);
    }
}

/// The pin of PH that drives the green LED.
pub const LED_PIN: u32 = 24;

pub const KERNEL_BASE: u32 = 0x4200_0000;
pub const DTB_BASE: u32 = 0x4800_0000;
pub const INITRAM_BASE: u32 = 0x4820_0000;

/// Base of the timer block.
pub const TIMER_BASE: u32 = 0x01c20c00;
/// Base of the interrupt controller's distributor.
pub const GIC_DIST: u32 = 0x01C81000;
/// End-of-interrupt register of the CPU interface.
pub const GIC_EOI: u32 = 0x01C82010;
/// Interrupt acknowledge register of the CPU interface.
pub const GIC_ACK: u32 = 0x01C8200C;
/// Interrupt number of timer 0.
pub const TIMER0_IRQ: u32 = 54;

/// I2C address of the AXP209 power management chip.
pub const AXP209: u8 = 0x34;

/// A register update of the power management chip.
#[derive(Debug, Clone, Copy, PartialEq, Eq, Structural)]
pub enum PmicStep {
    /// Write `value` to register `reg`.
    Write { reg: u8, value: u8 },
    /// Read register `reg`, then write back its bits of `keep` together with `set`.
    Update { reg: u8, keep: u8, set: u8 },
}

impl PmicStep {
    /// The first part of the step on the AXP209 (I2C address 0x34): for an update, the read of its
    /// register (the byte read, see `i2c::twi_data`, is what `finish` takes); nothing for a
    /// write. Returns whether a read was added.
    pub fn begin(&self, prog: &mut Vec<RegOp>) -> (r: bool)
        ensures
            r == (*self is Update),
            final(prog)@ == old(prog)@ + pmic_step_read(*self),
    {
        match *self {
            PmicStep::Write { .. } => {
                assert(prog@ =~= prog@ + Seq::<RegOp>::empty());
                false
            },
            PmicStep::Update { reg, .. } => {
                i2c::twi_read(prog, AXP209, reg);
                true
            },
        }
    }

    /// The second part of the step on the AXP209 (I2C address 0x34): the write of its register,
    /// where `v` is what the read of an update gave (a write step ignores it).
    pub fn finish(&self, prog: &mut Vec<RegOp>, v: u8)
        ensures
            final(prog)@ == old(prog)@ + i2c::write_program(0x34, pmic_step_reg(*self), pmic_step_value(*self, v)),
    {
        match *self {
            PmicStep::Write { reg, value } => i2c::twi_write(prog, AXP209, reg, value),
            PmicStep::Update { reg, keep, set } => i2c::twi_update(prog, AXP209, reg, v, keep, set),
        }
    }
}

/// The AXP209 setting for a DC-DC voltage of `mv` millivolts (25 mV steps from 700 mV).
pub open spec fn dcdc_setting(mv: int) -> u8 {
    ((mv - 700) / 25) as u8
}

/// The AXP209 LDO2 voltage code for `mv` millivolts (100 mV steps from 1800 mV).
pub open spec fn ldo2_setting(mv: int) -> u8 {
    ((mv - 1800) / 100) as u8
}

/// The power-up sequence of the AXP209: DCDC2 set to 1.4 V and switched on, DCDC3 set to
/// 1.25 V and switched on, the upper four bits of the LDO2 register written with the LDO2
/// code 12 masked by 0xf0 (which clears them), LDO2 switched on, LDO3 and LDO4 switched off.
pub open spec fn power_plan() -> Seq<PmicStep> {
    seq![
        PmicStep::Write { reg: 0x23, value: dcdc_setting(1400) },
        PmicStep::Update { reg: 0x12, keep: 0xff, set: 1u8 << 4u8 },
        PmicStep::Write { reg: 0x27, value: dcdc_setting(1250) },
        PmicStep::Update { reg: 0x12, keep: 0xff, set: 1u8 << 1u8 },
        PmicStep::Update { reg: 0x28, keep: 0x0f, set: ldo2_setting(3000) & 0xf0 },
        PmicStep::Update { reg: 0x12, keep: 0xff, set: 1u8 << 2u8 },
        PmicStep::Update { reg: 0x12, keep: !((1u8 << 6u8) | (1u8 << 3u8)), set: 0 },
    ]
}

/// The bus traffic of the first part of `step`: for an update, the read of its register
/// on the AXP209 at I2C address 0x34; nothing for a write.
pub open spec fn pmic_step_read(step: PmicStep) -> Seq<RegOp> {
    match step {
        PmicStep::Write { .. } => seq![],
        PmicStep::Update { reg, .. } => i2c::read_program(0x34, reg),
    }
}

/// The value `step` writes to its register when the read of an update gave `v`.
pub open spec fn pmic_step_value(step: PmicStep, v: u8) -> u8 {
    match step {
        PmicStep::Write { value, .. } => value,
        PmicStep::Update { keep, set, .. } => i2c::update8(v, keep, set),
    }
}

/// The register of the chip that `step` writes.
pub open spec fn pmic_step_reg(step: PmicStep) -> u8 {
    match step {
        PmicStep::Write { reg, .. } => reg,
        PmicStep::Update { reg, .. } => reg,
    }
}

/// The bus traffic of `step` on the AXP209 at I2C address 0x34, where `v` is what the read
/// of an update gave: the read (for an update), then the write of `pmic_step_value`.
pub open spec fn pmic_step_program(step: PmicStep, v: u8) -> Seq<RegOp> {
    pmic_step_read(step) + i2c::write_program(0x34, pmic_step_reg(step), pmic_step_value(step, v))
}

/// The registers of a chip whose registers read back what was last written to them, after
/// `step`.
pub open spec fn pmic_apply(regs: spec_fn(u8) -> u8, step: PmicStep) -> spec_fn(u8) -> u8 {
    |r: u8| if r == pmic_step_reg(step) { pmic_step_value(step, regs(r)) } else { regs(r) }
}

/// The registers of such a chip after the steps `plan`, in order.
pub open spec fn pmic_run(regs: spec_fn(u8) -> u8, plan: Seq<PmicStep>) -> spec_fn(u8) -> u8
    decreases plan.len(),
{
    if plan.len() == 0 { regs } else { pmic_run(pmic_apply(regs, plan[0]), plan.skip(1)) }
}

/// The bus traffic of the steps `plan` on such a chip whose registers start as `regs`:
/// each update writes back what it computed from the register as the earlier steps left
/// it.
pub open spec fn plan_program(regs: spec_fn(u8) -> u8, plan: Seq<PmicStep>) -> Seq<RegOp>
    decreases plan.len(),
{
    if plan.len() == 0 {
        seq![]
    } else {
        pmic_step_program(plan[0], regs(pmic_step_reg(plan[0]))) + plan_program(pmic_apply(regs, plan[0]), plan.skip(1))
    }
}

/// What the power-up leaves in the AXP209 when its registers read back what was last
/// written: 28 (1.4 V) in DCDC2's register 0x23, 22 (1.25 V) in DCDC3's register 0x27, the
/// power output control 0x12 with DCDC2, DCDC3 and LDO2 on (bits 4, 1, 2) and LDO3, LDO4 off
/// (bits 6, 3), the low four bits of 0x28 kept and its upper four cleared; every other
/// register as it was.
pub proof fn lemma_power_plan_settings(regs: spec_fn(u8) -> u8, other: u8)
    requires
        other != 0x23 && other != 0x27 && other != 0x12 && other != 0x28,
    ensures
        ({
            let after = pmic_run(regs, power_plan());
            &&& after(0x23) == 28
            &&& after(0x27) == 22
            &&& after(0x12) == (regs(0x12) | 0x16) & !0x48u8
            &&& after(0x28) == regs(0x28) & 0x0f
            &&& after(other) == regs(other)
        }),
{
    let p = power_plan();
    let r1 = pmic_apply(regs, p[0]);
    let r2 = pmic_apply(r1, p[1]);
    let r3 = pmic_apply(r2, p[2]);
    let r4 = pmic_apply(r3, p[3]);
    let r5 = pmic_apply(r4, p[4]);
    let r6 = pmic_apply(r5, p[5]);
    let r7 = pmic_apply(r6, p[6]);
    assert(p.skip(1).skip(1).skip(1).skip(1).skip(1).skip(1).skip(1) =~= Seq::<PmicStep>::empty());
    assert(pmic_run(regs, p) == pmic_run(r1, p.skip(1)));
    assert(p.skip(1)[0] == p[1] && p.skip(1).skip(1)[0] == p[2] && p.skip(1).skip(1).skip(1)[0] == p[3]);
    assert(p.skip(1).skip(1).skip(1).skip(1)[0] == p[4] && p.skip(1).skip(1).skip(1).skip(1).skip(1)[0] == p[5]);
    assert(p.skip(1).skip(1).skip(1).skip(1).skip(1).skip(1)[0] == p[6]);
    assert(pmic_run(r1, p.skip(1)) == pmic_run(r2, p.skip(1).skip(1)));
    assert(pmic_run(r2, p.skip(1).skip(1)) == pmic_run(r3, p.skip(1).skip(1).skip(1)));
    assert(pmic_run(r3, p.skip(1).skip(1).skip(1)) == pmic_run(r4, p.skip(1).skip(1).skip(1).skip(1)));
    assert(pmic_run(r4, p.skip(1).skip(1).skip(1).skip(1)) == pmic_run(r5, p.skip(1).skip(1).skip(1).skip(1).skip(1)));
    assert(pmic_run(r5, p.skip(1).skip(1).skip(1).skip(1).skip(1)) == pmic_run(r6, p.skip(1).skip(1).skip(1).skip(1).skip(1).skip(1)));
    assert(pmic_run(r6, p.skip(1).skip(1).skip(1).skip(1).skip(1).skip(1)) == pmic_run(r7, p.skip(1).skip(1).skip(1).skip(1).skip(1).skip(1).skip(1)));
    let v = regs(0x12);
    let w = regs(0x28);
    assert((((((((v & 0xff) | (1u8 << 4u8)) & 0xff) | (1u8 << 1u8)) & 0xff) | (1u8 << 2u8)) & !((1u8 << 6u8) | (1u8 << 3u8))) | 0u8
        == (v | 0x16) & !0x48u8 && (w & 0x0f) | (12u8 & 0xf0) == w & 0x0f) by (bit_vector);
}

/// The accesses that start timer 0 with `interval` and enable its interrupt: reload,
/// 0xffff loads of the control register as a pause, interval, start with auto-reload.
pub open spec fn timer_on_program(interval: u32) -> Seq<RegOp> {
    seq![RegOp::Write { addr: (TIMER_BASE + 0x10) as u32, value: 4 }]
        + Seq::new(0xffff, |i: int| RegOp::Read { addr: (TIMER_BASE + 0x10) as u32 })
        + seq![
            RegOp::Write { addr: (TIMER_BASE + 0x14) as u32, value: interval },
            RegOp::Write { addr: (TIMER_BASE + 0x10) as u32, value: 7 },
        ] + irq_en_program(TIMER0_IRQ)
}

/// The accesses that enable interrupt `no`: its set-enable bit, and its byte in the CPU
/// targets registers (offset 0x800) set to 1, which sends it to CPU interface 0.
pub open spec fn irq_en_program(no: u32) -> Seq<RegOp> {
    seq![
        RegOp::Modify { addr: (GIC_DIST + 0x100 + 4 * (no >> 5u32)) as u32, clear: 0, set: (1u32 << (no & 0x1f)) as u32 },
        RegOp::Write8 { addr: (GIC_DIST + 0x800 + no) as u32, value: 1 },
    ]
}

/// The console's transmit accesses for `printf` of `fmt` without arguments.
pub open spec fn message_ops(ub: u32, fmt: &str) -> Seq<RegOp> {
    tx_ops(ub, format_text(fmt@, seq![]))
}

/// The accesses of the board bring-up: PB22/PB23 to UART0, PB0/PB1 to TWI0, UART0 and
/// TWI0 clocks on, UART0 at 115200 8N1, the greeting, and PH24 (green LED) as a low output.
pub open spec fn main_new_program() -> Seq<RegOp> {
    let ub = crate::devices::uart::REG_BASE;
    seq![
        cfg_op(GPIO_PB, 22, GPIO_UART),
        cfg_op(GPIO_PB, 23, GPIO_UART),
        cfg_op(GPIO_PB, 0, GPIO_TWI),
        cfg_op(GPIO_PB, 1, GPIO_TWI),
        RegOp::Modify { addr: ccu_reg(CCU_APB1), clear: 0, set: io::bit_spec(CCU_APB1_UART0) },
        RegOp::Modify { addr: ccu_reg(CCU_APB1), clear: 0, set: io::bit_spec(CCU_APB1_TWI0) },
        RegOp::Modify { addr: (ub + crate::devices::uart::LCR) as u32, clear: 0, set: io::bit_spec(crate::devices::uart::LCR_DLAB) },
        RegOp::Write { addr: (ub + crate::devices::uart::IER) as u32, value: 0 },
        RegOp::Write { addr: (ub + crate::devices::uart::DLL) as u32, value: 13 },
        RegOp::Write { addr: (ub + crate::devices::uart::LCR) as u32, value: UART_8N1 },
    ] + message_ops(ub, "Initialization...\n\r") + seq![
        cfg_op(GPIO_PH, LED_PIN, GPIO_OUT),
        RegOp::Modify { addr: port_dat_spec(GPIO_PH) as u32, clear: io::bit_spec(LED_PIN), set: 0 },
    ]
}

/// Address of UART0's line control register.
pub open spec fn uart0_lcr() -> u32 {
    (crate::devices::uart::REG_BASE + crate::devices::uart::LCR) as u32
}

/// The line mode the bring-up leaves on UART0, whatever the line control register held
/// before: while the divisor is stored (access 8, at offset 0) the divisor-latch access bit
/// (bit 7) is set; from access 10 on, the register holds 8N1 (`UART_8N1`) with that bit
/// clear, and nothing after it (the greeting's transmits, the LED pin set-up) changes it,
/// so every later store to offset 0 goes to the transmitter.
pub proof fn lemma_main_new_line_mode(v: u32)
    ensures
        io::reg_after(v, uart0_lcr(), main_new_program(), 8) & 0x80 != 0,
        io::reg_after(v, uart0_lcr(), main_new_program(), 10) == UART_8N1,
        io::reg_after(v, uart0_lcr(), main_new_program(), 10) & 0x80 == 0,
        forall|n: nat| 10 <= n <= main_new_program().len()
            ==> #[trigger] io::reg_after(v, uart0_lcr(), main_new_program(), n) == UART_8N1,
{
    let p = main_new_program();
    let a = uart0_lcr();
    let ub = crate::devices::uart::REG_BASE;
    let text = format_text("Initialization...\n\r"@, seq![]);
    let m = message_ops(ub, "Initialization...\n\r");
    crate::devices::uart::lemma_tx_ops_keep_lcr(ub, text);
    assert(p[6] == RegOp::Modify { addr: a, clear: 0, set: io::bit_spec(crate::devices::uart::LCR_DLAB) });
    assert(p[7] == RegOp::Write { addr: (ub + crate::devices::uart::IER) as u32, value: 0 });
    assert(p[8] == RegOp::Write { addr: (ub + crate::devices::uart::DLL) as u32, value: 13 });
    assert(p[9] == RegOp::Write { addr: a, value: UART_8N1 });
    let r6 = io::reg_after(v, a, p, 6);
    assert(io::clrset_spec(r6, 0, io::bit_spec(7)) & 0x80 != 0) by (bit_vector);
    assert(io::reg_after(v, a, p, 7) == io::clrset_spec(r6, 0, io::bit_spec(7)));
    assert(io::reg_after(v, a, p, 8) == io::reg_after(v, a, p, 7));
    assert(io::reg_after(v, a, p, 9) == io::reg_after(v, a, p, 8));
    assert(io::reg_after(v, a, p, 10) == UART_8N1);
    assert(UART_8N1 & 0x80 == 0) by (bit_vector);
    assert(24u32 >> 3u32 == 3u32) by (bit_vector);
    assert(p.len() == 10 + m.len() + 2);
    assert forall|i: int| 10 <= i < p.len() implies !io::touches(#[trigger] p[i], a) by {
        if i < 10 + m.len() {
            assert(p[i] == m[i - 10]);
        } else if i == 10 + m.len() {
            assert(p[i] == cfg_op(GPIO_PH, LED_PIN, GPIO_OUT));
        } else {
            assert(p[i] == RegOp::Modify { addr: port_dat_spec(GPIO_PH) as u32, clear: io::bit_spec(LED_PIN), set: 0 });
        }
    }
    assert forall|n: nat| 10 <= n <= p.len() implies #[trigger] io::reg_after(v, a, p, n) == UART_8N1 by {
        io::lemma_reg_after_untouched(v, a, p, 10, n);
    }
}

/// A format without arguments consumes none, so no argument can be `i32::MIN`.
pub proof fn lemma_format_ok_no_args(fmt: Seq<char>)
    ensures
        format_ok(fmt, seq![]),
    decreases fmt.len(),
{
    if fmt.len() == 0 {
    } else if fmt[0] == '%' && fmt.len() > 1 && fmt[1] == '%' {
        lemma_format_ok_no_args(fmt.skip(2));
    } else {
        lemma_format_ok_no_args(fmt.skip(1));
    }
}

/// The register names `print_regs` shows.
pub open spec fn reg_names() -> Seq<&'static str> {
    seq![
        "R00", "R01", "R02", "R03",
        "R04", "R05", "R06", "R07",
        "R08", "R09", "R10", "R11",
        "R12", "SP ", "LR ", "PC "
    ]
}

/// The text `print_regs` sends for the first `n` of the register values `r`: one line
/// `<name> = <value>x` each (the `x` after the `%` is sent as it is).
pub open spec fn regs_report(r: Seq<u32>, n: nat) -> Seq<u8>
    decreases n,
{
    if n == 0 {
        seq![]
    } else {
        regs_report(r, (n - 1) as nat) + format_text(
            "% = %x\n\r"@,
            seq![FormatArg::Str(reg_names()[n - 1]), FormatArg::U32(r[n - 1])],
        )
    }
}

/// The board state: the clock unit, the console and port H (the LED).
pub struct Main {
    pub ccu: CCU,
    pub console: UART,
    pub pio_ph: GPIO,
}

impl Main {
    /// Bring up the board (see `main_new_program`) and greet on the console, whose local
    /// echo is then on.
    pub fn new(prog: &mut Vec<RegOp>) -> (r: Main)
        ensures
            final(prog)@ == old(prog)@ + main_new_program(),
            r.console.base_spec() == crate::devices::uart::REG_BASE,
            r.console.echo_spec(),
            r.pio_ph.port_spec() == GPIO_PH,
    {
        let ghost start = prog@;
        let mut ccu = CCU::get();
        let mut uart = UART::get(0);
        let mut ph = GPIO::get(GPIO_PH);
        let mut pb = GPIO::get(GPIO_PB);
        assert(22u32 >> 3u32 == 2 && 23u32 >> 3u32 == 2 && 0u32 >> 3u32 == 0 && 1u32 >> 3u32 == 0
            && 24u32 >> 3u32 == 3) by (bit_vector);

        /* Mux PB 22,23 to UART0 rx/tx */
        pb.cfg(prog, 22, GPIO_UART);
        pb.cfg(prog, 23, GPIO_UART);
        pb.cfg(prog, 0, GPIO_TWI);
        pb.cfg(prog, 1, GPIO_TWI);

        ccu.clock_gate(CCU_APB1).pass(prog, CCU_APB1_UART0);
        ccu.clock_gate(CCU_APB1).pass(prog, CCU_APB1_TWI0);

        uart.set_mode(prog, 115200, UART_8N1);
        uart.set_echo(true);

        let no_args: [FormatArg; 0] = [];
        proof { lemma_format_ok_no_args("Initialization...\n\r"@); }
        assert(no_args@ =~= seq![]);
        uart.printf(prog, "Initialization...\n\r", &no_args);

        /* Configure PH24 (Green LED) as output */
        ph.cfg(prog, LED_PIN, GPIO_OUT);
        ph.set_low(prog, LED_PIN);
        assert(prog@ =~= start + main_new_program());

        Main { ccu, console: uart, pio_ph: ph }
    }

    /// Print the register values `r` (R0..R12, SP, LR, PC) on the console.
    pub fn print_regs(&mut self, prog: &mut Vec<RegOp>, r: &[u32; 16])
        ensures
            *final(self) == *old(self),
            final(prog)@ == old(prog)@ + tx_ops(old(self).console.base_spec(), regs_report(r@, 16)),
    {
        let ghost start = prog@;
        let names: [&str; 16] = [
            "R00", "R01", "R02", "R03",
            "R04", "R05", "R06", "R07",
            "R08", "R09", "R10", "R11",
            "R12", "SP ", "LR ", "PC ",
        ];
        assert(names@ =~= reg_names());
        let mut i: usize = 0;
        while i < 16
            invariant
                i <= 16,
                names@ == reg_names(),
                *self == *old(self),
                prog@ == start + tx_ops(self.console.base_spec(), regs_report(r@, i as nat)),
            decreases 16 - i,
        {
            let args: [FormatArg; 2] = [FormatArg::Str(names[i]), FormatArg::U32(r[i])];
            assert(args@ =~= seq![FormatArg::Str(reg_names()[i as int]), FormatArg::U32(r@[i as int])]);
            proof { lemma_format_ok_str_u32("% = %x\n\r"@, reg_names()[i as int], r@[i as int]); }
            self.console.printf(prog, "% = %x\n\r", &args);
            proof {
                crate::devices::uart::lemma_tx_ops_concat(
                    self.console.base_spec(),
                    regs_report(r@, i as nat),
                    format_text("% = %x\n\r"@, args@),
                );
            }
            i += 1;
        }
    }

    /// Power up the PMIC: reset the TWI controller (into `prog`) and return the register
    /// updates to make on the AXP209 (see `power_plan`). Each step goes on the bus as
    /// `PmicStep::begin` then `PmicStep::finish` (together `pmic_step_program`, addressed to
    /// 0x34); `lemma_power_plan_settings` gives what the plan leaves in the chip.
    pub fn power(&mut self, prog: &mut Vec<RegOp>) -> (r: Vec<PmicStep>)
        ensures
            *final(self) == *old(self),
            final(prog)@ == old(prog)@ + i2c::init_program(),
            r@ == power_plan(),
    {
        i2c::twi_init(prog);

        let mut plan: Vec<PmicStep> = Vec::new();
        /* Enable DCDC2 and set the voltage to 1.4V */
        let dcdc2: u32 = (1400 - 700) / 25;
        plan.push(PmicStep::Write { reg: 0x23, value: dcdc2 as u8 });
        plan.push(PmicStep::Update { reg: 0x12, keep: 0xff, set: 1u8 << 4u8 });

        /* Enable DCDC3 and set the voltage to 1.25V */
        let dcdc3: u32 = (1250 - 700) / 25;
        plan.push(PmicStep::Write { reg: 0x27, value: dcdc3 as u8 });
        plan.push(PmicStep::Update { reg: 0x12, keep: 0xff, set: 1u8 << 1u8 });

        /* Enable LDO2 and set the voltage to 3.0V */
        let ldo2: u32 = (3000 - 1800) / 100;
        plan.push(PmicStep::Update { reg: 0x28, keep: 0x0f, set: ldo2 as u8 & 0xf0 });
        plan.push(PmicStep::Update { reg: 0x12, keep: 0xff, set: 1u8 << 2u8 });

        /* Turn off LDO3 and LDO4 */
        plan.push(PmicStep::Update { reg: 0x12, keep: !((1u8 << 6u8) | (1u8 << 3u8)), set: 0 });
        assert(plan@ =~= power_plan());
        plan
    }

    /// Start the sleep test: start the timer and announce the wait; returns the time to sleep
    /// in milliseconds. `timer_test_poll` watches the tick count and ends the test.
    pub fn timer_test(&mut self, prog: &mut Vec<RegOp>) -> (r: u32)
        ensures
            *final(self) == *old(self),
            r == 2000,
            final(prog)@ == old(prog)@ + timer_on_program(24_000) + tx_ops(
                old(self).console.base_spec(),
                format_text("\r\nWaiting for % msec..."@, seq![FormatArg::U32(2000)]),
            ),
    {
        let sleep_msec: u32 = 2 * 1000;
        timer_on(prog, 24_000);
        let args: [FormatArg; 1] = [FormatArg::U32(sleep_msec)];
        assert(args@ =~= seq![FormatArg::U32(2000)]);
        proof { lemma_format_ok_u32("\r\nWaiting for % msec..."@, 2000); }
        self.console.printf(prog, "\r\nWaiting for % msec...", &args);
        sleep_msec
    }

    /// Whether a sleep of `msec` milliseconds begun at tick `start` still goes on at tick
    /// `now`.
    pub fn msleep(&self, start: u32, now: u32, msec: u32) -> (r: bool)
        requires
            start + msec <= u32::MAX,
        ensures
            r == (now < start + msec),
    {
        now < start + msec
    }

    /// One look at the tick count `now` during the sleep test begun at tick `start` for
    /// `msec` milliseconds: while `now < start + msec` the test goes on (`true`) and
    /// nothing is sent; once the time is up, `OK` and a line end are sent on the console and
    /// the test is over (`false`).
    pub fn timer_test_poll(&mut self, prog: &mut Vec<RegOp>, start: u32, now: u32, msec: u32) -> (r: bool)
        requires
            start + msec <= u32::MAX,
        ensures
            *final(self) == *old(self),
            r == (now < start + msec),
            final(prog)@ == old(prog)@ + if r {
                Seq::<RegOp>::empty()
            } else {
                message_ops(old(self).console.base_spec(), "OK\n\r")
            },
    {
        if self.msleep(start, now, msec) {
            assert(prog@ =~= prog@ + Seq::<RegOp>::empty());
            return true;
        }
        let no_args: [FormatArg; 0] = [];
        proof { lemma_format_ok_no_args("OK\n\r"@); }
        assert(no_args@ =~= seq![]);
        self.console.printf(prog, "OK\n\r", &no_args);
        false
    }
}

/// A format with a string and an unsigned argument is always accepted.
pub proof fn lemma_format_ok_str_u32(fmt: Seq<char>, s: &str, v: u32)
    ensures
        format_ok(fmt, seq![FormatArg::Str(s), FormatArg::U32(v)]),
{
    lemma_format_ok_no_i32_min(fmt, seq![FormatArg::Str(s), FormatArg::U32(v)]);
}

/// A format with one unsigned argument is always accepted.
pub proof fn lemma_format_ok_u32(fmt: Seq<char>, v: u32)
    ensures
        format_ok(fmt, seq![FormatArg::U32(v)]),
{
    lemma_format_ok_no_i32_min(fmt, seq![FormatArg::U32(v)]);
}

/// `printf` accepts any format when no argument is `i32::MIN`.
pub proof fn lemma_format_ok_no_i32_min(fmt: Seq<char>, args: Seq<FormatArg>)
    requires
        forall|i: int| 0 <= i < args.len() ==> !(#[trigger] args[i] matches FormatArg::I32(x) && x == i32::MIN),
    ensures
        format_ok(fmt, args),
    decreases fmt.len(),
{
    if fmt.len() == 0 {
    } else if fmt[0] == '%' {
        if fmt.len() > 1 && fmt[1] == '%' {
            lemma_format_ok_no_i32_min(fmt.skip(2), args);
        } else if args.len() > 0 {
            assert(forall|i: int| 0 <= i < args.skip(1).len() ==> args.skip(1)[i] == args[i + 1]);
            lemma_format_ok_no_i32_min(fmt.skip(1), args.skip(1));
        } else {
            lemma_format_ok_no_i32_min(fmt.skip(1), args);
        }
    } else {
        lemma_format_ok_no_i32_min(fmt.skip(1), args);
    }
}

/// Start timer 0 with `interval` and enable its interrupt.
pub fn timer_on(prog: &mut Vec<RegOp>, interval: u32)
    ensures
        final(prog)@ == old(prog)@ + timer_on_program(interval),
{
    let ghost start = prog@;
    io::write(prog, TIMER_BASE + 0x10, 4);

    /* wait a little */
    let mut i: u32 = 0;
    while i < 0xffff
        invariant
            i <= 0xffff,
            prog@ =~= start + seq![RegOp::Write { addr: (TIMER_BASE + 0x10) as u32, value: 4 }]
                + Seq::new(i as nat, |k: int| RegOp::Read { addr: (TIMER_BASE + 0x10) as u32 }),
        decreases 0xffff - i,
    {
        io::read(prog, TIMER_BASE + 0x10);
        i += 1;
    }

    io::write(prog, TIMER_BASE + 0x14, interval);
    io::write(prog, TIMER_BASE + 0x10, 7);

    irq_en(prog, TIMER0_IRQ);
    assert(prog@ =~= start + timer_on_program(interval));
}

/// Start timer 0 with a 1 ms interval and enable the timer block.
pub fn blinker(prog: &mut Vec<RegOp>)
    ensures
        final(prog)@ == old(prog)@ + timer_on_program(24_000) + seq![
            RegOp::Modify { addr: TIMER_BASE, clear: 0, set: 1 },
        ],
{
    timer_on(prog, 24_000);
    io::set_bits(prog, TIMER_BASE, 1);
}

/// Enable interrupt `no` in the distributor and target it at CPU interface 0.
pub fn irq_en(prog: &mut Vec<RegOp>, no: u32)
    requires
        GIC_DIST + 0x800 + no <= u32::MAX,
    ensures
        final(prog)@ == old(prog)@ + irq_en_program(no),
{
    let n = no >> 5u32;
    assert(n <= 0x0800_0000) by (bit_vector) requires n == no >> 5u32;
    let a = GIC_DIST + 0x0100 + 4 * n;
    assert(no & 0x1f < 32) by (bit_vector);
    io::set_bits(prog, a, 1u32 << (no & 0x1f));
    io::write8(prog, GIC_DIST + 0x0800 + no, 1);
    assert(prog@ =~= old(prog)@ + irq_en_program(no));
}

/// Load the timer's interrupt status (its value is what `timer_read` takes).
pub fn timer_status(prog: &mut Vec<RegOp>)
    ensures
        final(prog)@ == old(prog)@.push(RegOp::Read { addr: (TIMER_BASE + 4) as u32 }),
{
    io::read(prog, TIMER_BASE + 4);
}

/// Whether timer 0 had fired, from `status`, the value loaded from the interrupt status
/// register; if so the status register is re-loaded and written back with bit 1 set,
/// which acknowledges the pending interrupt.
pub fn timer_read(prog: &mut Vec<RegOp>, status: u32) -> (r: bool)
    ensures
        r == io::get_bit_spec(status, 0),
        final(prog)@ == old(prog)@ + if r {
            seq![RegOp::Modify { addr: (TIMER_BASE + 4) as u32, clear: 0, set: 2 }]
        } else {
            seq![]
        },
{
    if io::bit_is_set(status, 0) {
        io::set_bits(prog, TIMER_BASE + 4, 2);
        assert(prog@ =~= old(prog)@ + seq![RegOp::Modify { addr: (TIMER_BASE + 4) as u32, clear: 0, set: 2 }]);
        return true;
    }
    assert(prog@ =~= old(prog)@ + seq![]);
    false
}

/// Signal the end of interrupt `no`.
pub fn gic_eoi(prog: &mut Vec<RegOp>, no: u32)
    ensures
        final(prog)@ == old(prog)@.push(RegOp::Write { addr: GIC_EOI, value: no }),
{
    io::write(prog, GIC_EOI, no);
}

/// Acknowledge the pending interrupt (its number is the value loaded).
pub fn gic_getack(prog: &mut Vec<RegOp>)
    ensures
        final(prog)@ == old(prog)@.push(RegOp::Read { addr: GIC_ACK }),
{
    io::read(prog, GIC_ACK);
}

/// The tick count after one more timer interrupt, and whether the LED toggles on it
/// (every 500th tick).
pub fn tick(ticks: u32) -> (r: (u32, bool))
    requires
        ticks < u32::MAX,
    ensures
        r.0 == ticks + 1,
        r.1 == ((ticks + 1) % 500 == 0),
{
    let t = ticks + 1;
    (t, t % 500 == 0)
}

/// Toggle the LED of port `ph`, given `dat`, the value loaded from its data register.
pub fn toggle_led(prog: &mut Vec<RegOp>, ph: &mut GPIO, dat: u32)
    requires
        port_dat_spec(old(ph).port_spec()) <= u32::MAX,
    ensures
        *final(ph) == *old(ph),
        final(prog)@ == old(prog)@.push(
            if io::get_bit_spec(dat, LED_PIN) {
                RegOp::Modify { addr: port_dat_spec(old(ph).port_spec()) as u32, clear: io::bit_spec(LED_PIN), set: 0 }
            } else {
                RegOp::Modify { addr: port_dat_spec(old(ph).port_spec()) as u32, clear: 0, set: io::bit_spec(LED_PIN) }
            },
        ),
{
    if ph.is_high(LED_PIN, dat) {
        ph.set_low(prog, LED_PIN);
    } else {
        ph.set_high(prog, LED_PIN);
    }
}

/// The message of the software interrupt handler.
pub fn handle_swi(prog: &mut Vec<RegOp>)
    ensures
        final(prog)@ == old(prog)@ + tx_ops(crate::devices::uart::REG_BASE, "\r\nSWI".spec_bytes()),
{
    let mut uart = UART::get(0);
    uart.write_str(prog, "\r\nSWI");
}

/// A command of the shell.
#[derive(Debug, Clone, Copy, PartialEq, Eq, Structural)]
pub enum Command {
    LedOn,
    LedOff,
    Swi,
    Reg,
    Wait,
    Reclock,
    Blink,
    Power,
    Dram,
    Unknown,
}

/// The command that the line `line` names.
pub open spec fn command_of(line: Seq<char>) -> Command {
    if line == "led on"@ {
        Command::LedOn
    } else if line == "led off"@ {
        Command::LedOff
    } else if line == "swi"@ {
        Command::Swi
    } else if line == "reg"@ {
        Command::Reg
    } else if line == "wait"@ {
        Command::Wait
    } else if line == "reclock"@ {
        Command::Reclock
    } else if line == "blink"@ {
        Command::Blink
    } else if line == "power"@ {
        Command::Power
    } else if line == "dram"@ {
        Command::Dram
    } else {
        Command::Unknown
    }
}

/// Whether `a` and `b` are the same string.
pub fn str_eq(a: &str, b: &str) -> (r: bool)
    ensures
        r == (a@ == b@),
{
    let x = a.as_bytes();
    let y = b.as_bytes();
    if x.len() != y.len() {
        proof {
            if a@ == b@ {
                assert(x@ == y@);
            }
        }
        return false;
    }
    let mut i: usize = 0;
    while i < x.len()
        invariant
            x@.len() == y@.len(),
            x@ == a.spec_bytes(),
            y@ == b.spec_bytes(),
            i <= x@.len(),
            forall|k: int| 0 <= k < i ==> x@[k] == y@[k],
        decreases x.len() - i,
    {
        if x[i] != y[i] {
            proof {
                if a@ == b@ {
                    assert(x@ == y@);
                }
            }
            return false;
        }
        i += 1;
    }
    proof {
        assert(x@ =~= y@);
        broadcast use vstd::utf8::encode_utf8_decode_utf8;
        assert(vstd::utf8::decode_utf8(vstd::utf8::encode_utf8(a@)) == a@);
        assert(vstd::utf8::decode_utf8(vstd::utf8::encode_utf8(b@)) == b@);
    }
    true
}

/// The command that `line` names.
pub fn parse_cmd(line: &str) -> (r: Command)
    ensures
        r == command_of(line@),
{
    if str_eq(line, "led on") {
        Command::LedOn
    } else if str_eq(line, "led off") {
        Command::LedOff
    } else if str_eq(line, "swi") {
        Command::Swi
    } else if str_eq(line, "reg") {
        Command::Reg
    } else if str_eq(line, "wait") {
        Command::Wait
    } else if str_eq(line, "reclock") {
        Command::Reclock
    } else if str_eq(line, "blink") {
        Command::Blink
    } else if str_eq(line, "power") {
        Command::Power
    } else if str_eq(line, "dram") {
        Command::Dram
    } else {
        Command::Unknown
    }
}

/// The accesses that the shell makes at once for the command `cmd`, with the LED on port
/// `ph` and the console at `ub`: the LED on or off, the CPU clock switch, the timer started
/// for blinking, or the reply to an unknown command. The other commands need the board
/// runtime (assembly, or register values read back) and make no access here.
pub open spec fn cmd_program(cmd: Command, ph: u32, ub: u32) -> Seq<RegOp> {
    match cmd {
        Command::LedOn => seq![RegOp::Modify { addr: port_dat_spec(ph) as u32, clear: 0, set: io::bit_spec(LED_PIN) }],
        Command::LedOff => seq![RegOp::Modify { addr: port_dat_spec(ph) as u32, clear: io::bit_spec(LED_PIN), set: 0 }],
        Command::Reclock => crate::devices::ccu::cpu_1500mhz_program(),
        Command::Blink => timer_on_program(24_000) + seq![RegOp::Modify { addr: TIMER_BASE, clear: 0, set: 1 }],
        Command::Unknown => tx_ops(ub, "\n\runknown cmd".spec_bytes()),
        _ => seq![],
    }
}

impl Main {
    /// Take the shell command `line`: returns the command it names and adds the accesses
    /// made for it at once (see `cmd_program`).
    pub fn on_cmd(&mut self, prog: &mut Vec<RegOp>, line: &str) -> (r: Command)
        requires
            port_dat_spec(old(self).pio_ph.port_spec()) <= u32::MAX,
        ensures
            *final(self) == *old(self),
            r == command_of(line@),
            final(prog)@ == old(prog)@ + cmd_program(r, old(self).pio_ph.port_spec(), old(self).console.base_spec()),
    {
        let ghost start = prog@;
        let cmd = parse_cmd(line);
        match cmd {
            Command::LedOn => self.pio_ph.set_high(prog, LED_PIN),
            Command::LedOff => self.pio_ph.set_low(prog, LED_PIN),
            Command::Reclock => self.ccu.set_cpu_1500mhz(prog),
            Command::Blink => blinker(prog),
            Command::Unknown => self.console.write_str(prog, "\n\runknown cmd"),
            _ => {},
        }
        assert(prog@ =~= start + cmd_program(cmd, self.pio_ph.port_spec(), self.console.base_spec()));
        cmd
    }
}

} // verus!

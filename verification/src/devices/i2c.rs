//! TWI (I2C) master: bus reset and single-register reads and writes of a chip.
use vstd::prelude::*;
use crate::devices::io::RegOp;

verus! {

pub const TWI_BASE: u32 = 0x01C2AC00;

pub const TWI_SLAVE0: u32 = 0x00;
pub const TWI_SLAVE1: u32 = 0x04;
pub const TWI_DATA: u32 = 0x08;
pub const TWI_CTRL: u32 = 0x0c;
pub const TWI_STATUS: u32 = 0x10;
pub const TWI_BAUD: u32 = 0x14;
pub const TWI_RESET: u32 = 0x18;

pub const CTRL_BUS_EN: u32 = 0x00000040;
pub const CTRL_START: u32 = 0x00000020;
pub const CTRL_STOP: u32 = 0x00000010;
pub const CTRL_IFLAG: u32 = 0x00000008;
pub const CTRL_ACK: u32 = 0x00000004;

pub const STATUS_IDLE: u32 = 0xf8;
pub const STATUS_ADDR_W_ACK: u32 = 0x18;
pub const STATUS_DATA_W_ACK: u32 = 0x28;
pub const STATUS_ADDR_R_ACK: u32 = 0x40;
pub const STATUS_ADDR_R_NAK: u32 = 0x48;
pub const STATUS_DATA_R_ACK: u32 = 0x50;
pub const STATUS_DATA_R_NAK: u32 = 0x58;
pub const STATUS_REP_START: u32 = 0x10;
pub const STATUS_START: u32 = 0x08;

/// Address of the TWI register at offset `off`.
pub open spec fn twi_reg(off: u32) -> u32 {
    (TWI_BASE + off) as u32
}

/// Wait (at most 10000 rounds of 100 ticks) for the interrupt flag with status `expect`.
pub open spec fn wait_ops(expect: u32) -> Seq<RegOp> {
    seq![
        RegOp::AwaitFlagStatus {
            flag_addr: twi_reg(TWI_CTRL),
            flag: CTRL_IFLAG,
            status_addr: twi_reg(TWI_STATUS),
            expect,
            tries: 10000,
            ticks: 100,
        },
    ]
}

/// Send a start condition and wait for status `expect`.
pub open spec fn start_ops(expect: u32) -> Seq<RegOp> {
    seq![RegOp::Write { addr: twi_reg(TWI_CTRL), value: CTRL_BUS_EN | CTRL_START }] + wait_ops(expect)
}

/// Send a stop condition and wait (at most 10000 rounds of 10 ticks) for the idle status.
pub open spec fn stop_ops() -> Seq<RegOp> {
    seq![
        RegOp::Write { addr: twi_reg(TWI_CTRL), value: CTRL_BUS_EN | CTRL_STOP },
        RegOp::AwaitStatus { status_addr: twi_reg(TWI_STATUS), expect: STATUS_IDLE, tries: 10000, ticks: 10 },
    ]
}

/// Send the byte `data` and wait for status `expect`.
pub open spec fn send_ops(expect: u32, data: u8) -> Seq<RegOp> {
    seq![
        RegOp::Write { addr: twi_reg(TWI_DATA), value: data as u32 },
        RegOp::Write { addr: twi_reg(TWI_CTRL), value: CTRL_BUS_EN },
    ] + wait_ops(expect)
}

/// Receive a byte, acknowledging it when `ack`, and load the data register.
pub open spec fn recv_ops(ack: bool) -> Seq<RegOp> {
    seq![RegOp::Write { addr: twi_reg(TWI_CTRL), value: CTRL_BUS_EN | (if ack { CTRL_ACK } else { 0 }) }]
        + wait_ops(if ack { STATUS_DATA_R_ACK } else { STATUS_DATA_R_NAK })
        + seq![RegOp::Read { addr: twi_reg(TWI_DATA) }]
}

/// Start (expecting `expect`) and send the address byte `addr`, expecting the read or write
/// address acknowledgement that its low bit selects.
pub open spec fn begin_ops(expect: u32, addr: u8) -> Seq<RegOp> {
    start_ops(expect) + send_ops(if addr & 1 > 0 { STATUS_ADDR_R_ACK } else { STATUS_ADDR_W_ACK }, addr)
}

/// Controller reset, 100 kHz clock, own address, then a stop condition.
pub open spec fn init_program() -> Seq<RegOp> {
    seq![
        RegOp::Write { addr: twi_reg(TWI_RESET), value: 1 },
        RegOp::Delay { ticks: 1000 },
        RegOp::Write { addr: twi_reg(TWI_RESET), value: 0 },
        RegOp::Delay { ticks: 1000 },
        RegOp::Write { addr: twi_reg(TWI_BAUD), value: 0x44 },
        RegOp::Delay { ticks: 1000 },
        RegOp::Write { addr: twi_reg(TWI_SLAVE0), value: 0x7f },
        RegOp::Delay { ticks: 1000 },
        RegOp::Write { addr: twi_reg(TWI_SLAVE1), value: 0 },
    ] + stop_ops()
}

/// Read register `reg` of chip `chip`: write the register number, then a repeated start
/// for reading, one byte received without acknowledgement, stop.
pub open spec fn read_program(chip: u8, reg: u8) -> Seq<RegOp> {
    begin_ops(STATUS_START, chip << 1u8) + send_ops(STATUS_DATA_W_ACK, reg)
        + begin_ops(STATUS_REP_START, (chip << 1u8) | 1u8) + recv_ops(false) + stop_ops()
}

/// Write `data` to register `reg` of chip `chip`.
pub open spec fn write_program(chip: u8, reg: u8, data: u8) -> Seq<RegOp> {
    begin_ops(STATUS_START, chip << 1u8) + send_ops(STATUS_DATA_W_ACK, reg)
        + send_ops(STATUS_DATA_W_ACK, data) + stop_ops()
}

fn twi_wait(prog: &mut Vec<RegOp>, expect: u32)
    ensures
        final(prog)@ == old(prog)@ + wait_ops(expect),
{
    prog.push(
        RegOp::AwaitFlagStatus {
            flag_addr: TWI_BASE + TWI_CTRL,
            flag: CTRL_IFLAG,
            status_addr: TWI_BASE + TWI_STATUS,
            expect,
            tries: 10000,
            ticks: 100,
        },
    );
    assert(prog@ =~= old(prog)@ + wait_ops(expect));
}

fn twi_start(prog: &mut Vec<RegOp>, expect: u32)
    ensures
        final(prog)@ == old(prog)@ + start_ops(expect),
{
    prog.push(RegOp::Write { addr: TWI_BASE + TWI_CTRL, value: CTRL_BUS_EN | CTRL_START });
    twi_wait(prog, expect);
    assert(prog@ =~= old(prog)@ + start_ops(expect));
}

fn twi_stop(prog: &mut Vec<RegOp>)
    ensures
        final(prog)@ == old(prog)@ + stop_ops(),
{
    prog.push(RegOp::Write { addr: TWI_BASE + TWI_CTRL, value: CTRL_BUS_EN | CTRL_STOP });
    prog.push(RegOp::AwaitStatus { status_addr: TWI_BASE + TWI_STATUS, expect: STATUS_IDLE, tries: 10000, ticks: 10 });
    assert(prog@ =~= old(prog)@ + stop_ops());
}

fn twi_send(prog: &mut Vec<RegOp>, expect: u32, data: u8)
    ensures
        final(prog)@ == old(prog)@ + send_ops(expect, data),
{
    prog.push(RegOp::Write { addr: TWI_BASE + TWI_DATA, value: data as u32 });
    prog.push(RegOp::Write { addr: TWI_BASE + TWI_CTRL, value: CTRL_BUS_EN });
    twi_wait(prog, expect);
    assert(prog@ =~= old(prog)@ + send_ops(expect, data));
}

fn twi_recv(prog: &mut Vec<RegOp>, ack: bool)
    ensures
        final(prog)@ == old(prog)@ + recv_ops(ack),
{
    prog.push(RegOp::Write { addr: TWI_BASE + TWI_CTRL, value: CTRL_BUS_EN | if ack { CTRL_ACK } else { 0 } });
    twi_wait(prog, if ack { STATUS_DATA_R_ACK } else { STATUS_DATA_R_NAK });
    prog.push(RegOp::Read { addr: TWI_BASE + TWI_DATA });
    assert(prog@ =~= old(prog)@ + recv_ops(ack));
}

fn twi_begin(prog: &mut Vec<RegOp>, expect: u32, addr: u8)
    ensures
        final(prog)@ == old(prog)@ + begin_ops(expect, addr),
{
    twi_start(prog, expect);
    let st = if addr & 1 > 0 { STATUS_ADDR_R_ACK } else { STATUS_ADDR_W_ACK };
    twi_send(prog, st, addr);
    assert(prog@ =~= old(prog)@ + begin_ops(expect, addr));
}

/// Reset the TWI controller and set its clock and own address.
pub fn twi_init(prog: &mut Vec<RegOp>)
    ensures
        final(prog)@ == old(prog)@ + init_program(),
{
    let ghost start = prog@;
    prog.push(RegOp::Write { addr: TWI_BASE + TWI_RESET, value: 1 });
    prog.push(RegOp::Delay { ticks: 1000 });
    prog.push(RegOp::Write { addr: TWI_BASE + TWI_RESET, value: 0 });
    prog.push(RegOp::Delay { ticks: 1000 });

    prog.push(RegOp::Write { addr: TWI_BASE + TWI_BAUD, value: 0x44 });
    prog.push(RegOp::Delay { ticks: 1000 });
    prog.push(RegOp::Write { addr: TWI_BASE + TWI_SLAVE0, value: 0x7f });
    prog.push(RegOp::Delay { ticks: 1000 });
    prog.push(RegOp::Write { addr: TWI_BASE + TWI_SLAVE1, value: 0 });

    twi_stop(prog);
    assert(prog@ =~= start + init_program());
}

/// Read register `reg` of chip `chip`; the byte read is the last load of the program
/// (see `twi_data`).
pub fn twi_read(prog: &mut Vec<RegOp>, chip: u8, reg: u8)
    ensures
        final(prog)@ == old(prog)@ + read_program(chip, reg),
{
    let ghost start = prog@;
    twi_begin(prog, STATUS_START, chip << 1u8);
    twi_send(prog, STATUS_DATA_W_ACK, reg);

    twi_begin(prog, STATUS_REP_START, (chip << 1u8) | 1);
    twi_recv(prog, false);
    twi_stop(prog);
    assert(prog@ =~= start + read_program(chip, reg));
}

/// The byte that `twi_read` returns, from `raw`, the value loaded from the data register.
pub fn twi_data(raw: u32) -> (r: u8)
    ensures
        r == raw as u8,
{
    raw as u8
}

/// Write `data` to register `reg` of chip `chip`.
pub fn twi_write(prog: &mut Vec<RegOp>, chip: u8, reg: u8, data: u8)
    ensures
        final(prog)@ == old(prog)@ + write_program(chip, reg, data),
{
    let ghost start = prog@;
    twi_begin(prog, STATUS_START, chip << 1u8);
    twi_send(prog, STATUS_DATA_W_ACK, reg);
    twi_send(prog, STATUS_DATA_W_ACK, data);
    twi_stop(prog);
    assert(prog@ =~= start + write_program(chip, reg, data));
}

/// The value a register read-modify-write over the bus stores over the byte `v` it read.
pub open spec fn update8(v: u8, keep: u8, set: u8) -> u8 {
    (v & keep) | set
}

/// Write back register `reg` of chip `chip` after a read gave `v`: keep the bits of `keep`,
/// then set those of `set`.
pub fn twi_update(prog: &mut Vec<RegOp>, chip: u8, reg: u8, v: u8, keep: u8, set: u8)
    ensures
        final(prog)@ == old(prog)@ + write_program(chip, reg, update8(v, keep, set)),
{
    twi_write(prog, chip, reg, (v & keep) | set);
}

/// The byte, if any, that one access puts on the bus: a store to the TWI data register.
pub open spec fn op_bytes(op: RegOp) -> Seq<u32> {
    match op {
        RegOp::Write { addr, value } => if addr == twi_reg(TWI_DATA) { seq![value] } else { seq![] },
        _ => seq![],
    }
}

/// The bytes a program puts on the bus: the values it stores in the TWI data register, in
/// order.
pub open spec fn data_bytes(ops: Seq<RegOp>) -> Seq<u32>
    decreases ops.len(),
{
    if ops.len() == 0 {
        seq![]
    } else {
        data_bytes(ops.drop_last()) + op_bytes(ops.last())
    }
}

proof fn lemma_data_bytes_one(op: RegOp)
    ensures
        data_bytes(seq![op]) == op_bytes(op),
{
    let s = seq![op];
    assert(s.drop_last() =~= Seq::<RegOp>::empty());
    assert(data_bytes(Seq::<RegOp>::empty()) == Seq::<u32>::empty());
    assert(data_bytes(s) =~= op_bytes(op));
}

proof fn lemma_data_bytes_concat(a: Seq<RegOp>, b: Seq<RegOp>)
    ensures
        data_bytes(a + b) == data_bytes(a) + data_bytes(b),
    decreases b.len(),
{
    if b.len() == 0 {
        assert(a + b =~= a);
        assert(data_bytes(a) + data_bytes(b) =~= data_bytes(a));
    } else {
        assert((a + b).drop_last() =~= a + b.drop_last());
        lemma_data_bytes_concat(a, b.drop_last());
        assert(data_bytes(a + b) =~= data_bytes(a) + data_bytes(b));
    }
}

proof fn lemma_data_bytes_parts(expect: u32, data: u8, ack: bool)
    ensures
        data_bytes(wait_ops(expect)) == Seq::<u32>::empty(),
        data_bytes(start_ops(expect)) == Seq::<u32>::empty(),
        data_bytes(stop_ops()) == Seq::<u32>::empty(),
        data_bytes(send_ops(expect, data)) == seq![data as u32],
        data_bytes(recv_ops(ack)) == Seq::<u32>::empty(),
{
    let w = wait_ops(expect);
    lemma_data_bytes_one(w[0]);
    assert(w =~= seq![w[0]]);
    let st = seq![RegOp::Write { addr: twi_reg(TWI_CTRL), value: CTRL_BUS_EN | CTRL_START }];
    lemma_data_bytes_one(st[0]);
    lemma_data_bytes_concat(st, w);
    assert(data_bytes(start_ops(expect)) =~= Seq::<u32>::empty());
    let sp = stop_ops();
    let sp0 = seq![sp[0]];
    let sp1 = seq![sp[1]];
    lemma_data_bytes_one(sp[0]);
    lemma_data_bytes_one(sp[1]);
    lemma_data_bytes_concat(sp0, sp1);
    assert(sp =~= sp0 + sp1);
    assert(data_bytes(sp) =~= Seq::<u32>::empty());
    let d0 = seq![RegOp::Write { addr: twi_reg(TWI_DATA), value: data as u32 }];
    let d1 = seq![RegOp::Write { addr: twi_reg(TWI_CTRL), value: CTRL_BUS_EN }];
    lemma_data_bytes_one(d0[0]);
    lemma_data_bytes_one(d1[0]);
    assert(twi_reg(TWI_CTRL) != twi_reg(TWI_DATA));
    lemma_data_bytes_concat(d0, d1);
    lemma_data_bytes_concat(d0 + d1, w);
    assert(send_ops(expect, data) =~= d0 + d1 + w);
    assert(data_bytes(send_ops(expect, data)) =~= seq![data as u32]);
    let rc = seq![RegOp::Write { addr: twi_reg(TWI_CTRL), value: CTRL_BUS_EN | (if ack { CTRL_ACK } else { 0 }) }];
    lemma_data_bytes_one(rc[0]);
    let rd = seq![RegOp::Read { addr: twi_reg(TWI_DATA) }];
    lemma_data_bytes_one(rd[0]);
    let w2 = wait_ops(if ack { STATUS_DATA_R_ACK } else { STATUS_DATA_R_NAK });
    lemma_data_bytes_one(w2[0]);
    assert(w2 =~= seq![w2[0]]);
    lemma_data_bytes_concat(rc, w2);
    lemma_data_bytes_concat(rc + w2, rd);
    assert(data_bytes(recv_ops(ack)) =~= Seq::<u32>::empty());
}

/// The bytes a register write puts on the bus: the chip's write address (`chip << 1`), the
/// register number, then the data byte, in that order and nothing else.
pub proof fn lemma_write_program_bytes(chip: u8, reg: u8, data: u8)
    ensures
        data_bytes(write_program(chip, reg, data)) == seq![(chip << 1u8) as u32, reg as u32, data as u32],
{
    let a = chip << 1u8;
    let st = if a & 1 > 0 { STATUS_ADDR_R_ACK } else { STATUS_ADDR_W_ACK };
    lemma_data_bytes_parts(STATUS_START, a, false);
    lemma_data_bytes_parts(st, a, false);
    lemma_data_bytes_parts(STATUS_DATA_W_ACK, reg, false);
    lemma_data_bytes_parts(STATUS_DATA_W_ACK, data, false);
    lemma_data_bytes_concat(start_ops(STATUS_START), send_ops(st, a));
    let b = begin_ops(STATUS_START, a);
    let s1 = send_ops(STATUS_DATA_W_ACK, reg);
    let s2 = send_ops(STATUS_DATA_W_ACK, data);
    lemma_data_bytes_concat(b, s1);
    lemma_data_bytes_concat(b + s1, s2);
    lemma_data_bytes_concat(b + s1 + s2, stop_ops());
    assert(data_bytes(write_program(chip, reg, data)) =~= seq![a as u32, reg as u32, data as u32]);
}

/// The bytes a register read puts on the bus: the chip's write address (`chip << 1`), the
/// register number, then the chip's read address (`chip << 1 | 1`), and nothing else.
pub proof fn lemma_read_program_bytes(chip: u8, reg: u8)
    ensures
        data_bytes(read_program(chip, reg)) == seq![(chip << 1u8) as u32, reg as u32, ((chip << 1u8) | 1u8) as u32],
{
    let a = chip << 1u8;
    let ra = (chip << 1u8) | 1u8;
    let st = if a & 1 > 0 { STATUS_ADDR_R_ACK } else { STATUS_ADDR_W_ACK };
    let rst = if ra & 1 > 0 { STATUS_ADDR_R_ACK } else { STATUS_ADDR_W_ACK };
    lemma_data_bytes_parts(STATUS_START, a, false);
    lemma_data_bytes_parts(st, a, false);
    lemma_data_bytes_parts(STATUS_REP_START, ra, false);
    lemma_data_bytes_parts(rst, ra, false);
    lemma_data_bytes_parts(STATUS_DATA_W_ACK, reg, false);
    lemma_data_bytes_concat(start_ops(STATUS_START), send_ops(st, a));
    lemma_data_bytes_concat(start_ops(STATUS_REP_START), send_ops(rst, ra));
    let b1 = begin_ops(STATUS_START, a);
    let s1 = send_ops(STATUS_DATA_W_ACK, reg);
    let b2 = begin_ops(STATUS_REP_START, ra);
    lemma_data_bytes_concat(b1, s1);
    lemma_data_bytes_concat(b1 + s1, b2);
    lemma_data_bytes_concat(b1 + s1 + b2, recv_ops(false));
    lemma_data_bytes_concat(b1 + s1 + b2 + recv_ops(false), stop_ops());
    assert(data_bytes(read_program(chip, reg)) =~= seq![a as u32, reg as u32, ra as u32]);
}

} // verus!

//! Memory-mapped register access.
//!
//! A device routine does not touch the bus itself: it appends the accesses it
//! performs, in order, to a program (`Vec<RegOp>`) that the board runtime runs.
use vstd::prelude::*;

verus! {

/// One access to the memory-mapped bus, as the board runtime performs it.
#[derive(Debug, Clone, Copy, PartialEq, Eq, Structural)]
pub enum RegOp {
    /// Volatile 32-bit store of `value` at `addr`.
    Write { addr: u32, value: u32 },
    /// Volatile 8-bit store of `value` at `addr`.
    Write8 { addr: u32, value: u8 },
    /// Volatile 32-bit load from `addr`; the result of a program is the value of its last
    /// `Read` (or `Read8`).
    Read { addr: u32 },
    /// Volatile 8-bit load from `addr`; as a program's result it counts as a `Read`
    /// (zero-extended).
    Read8 { addr: u32 },
    /// Read-modify-write: load `v` from `addr`, store `(v & !clear) | set` back.
    Modify { addr: u32, clear: u32, set: u32 },
    /// Busy-wait of `ticks` delay-loop iterations.
    Delay { ticks: u32 },
    /// Load `addr` repeatedly until `value & mask != 0`.
    WaitSet { addr: u32, mask: u32 },
    /// Load `addr` repeatedly until `value & mask == 0`.
    WaitClear { addr: u32, mask: u32 },
    /// Up to `tries` rounds: if the load of `flag_addr` has a bit of `flag` set and the load of
    /// `status_addr` equals `expect`, stop; otherwise delay `ticks` and go on.
    AwaitFlagStatus { flag_addr: u32, flag: u32, status_addr: u32, expect: u32, tries: u32, ticks: u32 },
    /// Up to `tries` rounds: if the load of `status_addr` equals `expect`, stop; otherwise delay
    /// `ticks` and go on.
    AwaitStatus { status_addr: u32, expect: u32, tries: u32, ticks: u32 },
}

/// The value that a read-modify-write with `clear` and `set` stores over `v`.
pub open spec fn clrset_spec(v: u32, clear: u32, set: u32) -> u32 {
    (v & !clear) | set
}

/// Bit `i` as a mask.
pub open spec fn bit_spec(i: u32) -> u32 {
    (1u32 << i) as u32
}

/// Whether bit `i` of `v` is set.
pub open spec fn get_bit_spec(v: u32, i: u32) -> bool {
    v & bit_spec(i) != 0
}

/// The word registers (the value at each address) after `op`: a store replaces the
/// register, a read-modify-write replaces it by the modified value; loads, waits and
/// delays leave them as they are, and byte stores go to memory, which this model does not hold.
pub open spec fn apply(regs: spec_fn(u32) -> u32, op: RegOp) -> spec_fn(u32) -> u32 {
    match op {
        RegOp::Write { addr, value } => |a: u32| if a == addr { value } else { regs(a) },
        RegOp::Modify { addr, clear, set } => |a: u32|
            if a == addr {
                clrset_spec(regs(addr), clear, set)
            } else {
                regs(a)
            },
        _ => regs,
    }
}

/// The value a read-modify-write with `clear` and `set` stores over `v`.
pub fn clrset_value(v: u32, clear: u32, set: u32) -> (r: u32)
    ensures
        r == clrset_spec(v, clear, set),
{
    (v & !clear) | set
}

/// Whether bit `i` of the loaded value `v` is set (the test that `get_bit` makes).
pub fn bit_is_set(v: u32, i: u32) -> (r: bool)
    requires
        i < 32,
    ensures
        r == get_bit_spec(v, i),
{
    (v & (1u32 << i)) != 0
}

/// Store `value` at `reg`.
pub fn write(prog: &mut Vec<RegOp>, reg: u32, value: u32)
    ensures
        final(prog)@ == old(prog)@.push(RegOp::Write { addr: reg, value }),
{
    prog.push(RegOp::Write { addr: reg, value });
}

/// Load from `reg`.
pub fn read(prog: &mut Vec<RegOp>, reg: u32)
    ensures
        final(prog)@ == old(prog)@.push(RegOp::Read { addr: reg }),
{
    prog.push(RegOp::Read { addr: reg });
}

/// Load the byte at `reg`.
pub fn read8(prog: &mut Vec<RegOp>, reg: u32)
    ensures
        final(prog)@ == old(prog)@.push(RegOp::Read8 { addr: reg }),
{
    prog.push(RegOp::Read8 { addr: reg });
}

/// Set the bits of `v` in `reg`, keeping the others.
pub fn set_bits(prog: &mut Vec<RegOp>, reg: u32, v: u32)
    ensures
        final(prog)@ == old(prog)@.push(RegOp::Modify { addr: reg, clear: 0, set: v }),
{
    prog.push(RegOp::Modify { addr: reg, clear: 0, set: v });
}

/// Clear the bits of `clear` in `reg`, then set those of `set`.
pub fn clrset_bits(prog: &mut Vec<RegOp>, reg: u32, clear: u32, set: u32)
    ensures
        final(prog)@ == old(prog)@.push(RegOp::Modify { addr: reg, clear, set }),
{
    prog.push(RegOp::Modify { addr: reg, clear, set });
}

/// Store the byte `value` at `reg`.
pub fn write8(prog: &mut Vec<RegOp>, reg: u32, value: u8)
    ensures
        final(prog)@ == old(prog)@.push(RegOp::Write8 { addr: reg, value }),
{
    prog.push(RegOp::Write8 { addr: reg, value });
}

/// Set (`v`) or clear (`!v`) bit `i` of `reg`, keeping the others.
pub fn set_bit(prog: &mut Vec<RegOp>, reg: u32, i: u32, v: bool)
    requires
        i < 32,
    ensures
        final(prog)@ == old(prog)@.push(
            if v {
                RegOp::Modify { addr: reg, clear: 0, set: bit_spec(i) }
            } else {
                RegOp::Modify { addr: reg, clear: bit_spec(i), set: 0 }
            },
        ),
{
    if v {
        prog.push(RegOp::Modify { addr: reg, clear: 0, set: 1u32 << i });
    } else {
        prog.push(RegOp::Modify { addr: reg, clear: 1u32 << i, set: 0 });
    }
}

/// Setting or clearing one bit changes that bit to `v` and no other bit.
pub proof fn lemma_set_bit_reads_back(val: u32, i: u32, j: u32, v: bool)
    requires
        i < 32,
        j < 32,
    ensures
        ({
            let r = if v {
                clrset_spec(val, 0, bit_spec(i))
            } else {
                clrset_spec(val, bit_spec(i), 0)
            };
            &&& get_bit_spec(r, i) == v
            &&& j != i ==> get_bit_spec(r, j) == get_bit_spec(val, j)
        }),
{
    assert(((val & !0u32) | (1u32 << i)) & (1u32 << i) != 0) by (bit_vector)
        requires i < 32;
    assert(((val & !(1u32 << i)) | 0u32) & (1u32 << i) == 0) by (bit_vector)
        requires i < 32;
    assert(j != i ==> ((((val & !0u32) | (1u32 << i)) & (1u32 << j) != 0) == (val & (1u32 << j) != 0))) by (bit_vector)
        requires i < 32, j < 32;
    assert(j != i ==> ((((val & !(1u32 << i)) | 0u32) & (1u32 << j) != 0) == (val & (1u32 << j) != 0))) by (bit_vector)
        requires i < 32, j < 32;
}

/// What `op` leaves in the word register at `a` when it held `x`: a store to `a` leaves the
/// stored value, a read-modify-write of `a` the modified value; every other access leaves
/// `x` (the same model as `apply`, for one register).
pub open spec fn op_effect(x: u32, a: u32, op: RegOp) -> u32 {
    match op {
        RegOp::Write { addr, value } => if addr == a { value } else { x },
        RegOp::Modify { addr, clear, set } => if addr == a { clrset_spec(x, clear, set) } else { x },
        _ => x,
    }
}

/// The value of the word register at `a` after the first `n` accesses of `ops`, when it
/// held `v` before them.
pub open spec fn reg_after(v: u32, a: u32, ops: Seq<RegOp>, n: nat) -> u32
    decreases n,
{
    if n == 0 { v } else { op_effect(reg_after(v, a, ops, (n - 1) as nat), a, ops[n - 1]) }
}

/// Whether `op` can change the word register at `a`.
pub open spec fn touches(op: RegOp, a: u32) -> bool {
    match op {
        RegOp::Write { addr, .. } => addr == a,
        RegOp::Modify { addr, .. } => addr == a,
        _ => false,
    }
}

/// `op_effect` is what `apply` does to that register.
pub proof fn lemma_op_effect_apply(regs: spec_fn(u32) -> u32, a: u32, op: RegOp)
    ensures
        apply(regs, op)(a) == op_effect(regs(a), a, op),
{
}

/// Accesses that do not touch `a` leave it as it was: if none of the accesses `m..n` of
/// `ops` touches `a`, the register holds after `n` what it held after `m`.
pub proof fn lemma_reg_after_untouched(v: u32, a: u32, ops: Seq<RegOp>, m: nat, n: nat)
    requires
        m <= n <= ops.len(),
        forall|i: int| m <= i < n ==> !touches(#[trigger] ops[i], a),
    ensures
        reg_after(v, a, ops, n) == reg_after(v, a, ops, m),
    decreases n,
{
    if n > m {
        lemma_reg_after_untouched(v, a, ops, m, (n - 1) as nat);
        assert(!touches(ops[n - 1], a));
    }
}

/// The register after a prefix `s1` and then more accesses `s2` is the register after `s1`
/// carried through `s2`.
pub proof fn lemma_reg_after_concat(v: u32, a: u32, s1: Seq<RegOp>, s2: Seq<RegOp>, n: nat)
    requires
        n <= s2.len(),
    ensures
        reg_after(v, a, s1 + s2, s1.len() + n) == reg_after(reg_after(v, a, s1, s1.len()), a, s2, n),
    decreases n,
{
    if n == 0 {
        lemma_reg_after_prefix(v, a, s1, s2, s1.len());
    } else {
        lemma_reg_after_concat(v, a, s1, s2, (n - 1) as nat);
        assert((s1 + s2)[s1.len() + n - 1] == s2[n - 1]);
    }
}

/// Accesses after the first `n` do not affect the register after the first `n`.
pub proof fn lemma_reg_after_prefix(v: u32, a: u32, s1: Seq<RegOp>, s2: Seq<RegOp>, n: nat)
    requires
        n <= s1.len(),
    ensures
        reg_after(v, a, s1 + s2, n) == reg_after(v, a, s1, n),
    decreases n,
{
    if n > 0 {
        lemma_reg_after_prefix(v, a, s1, s2, (n - 1) as nat);
        assert((s1 + s2)[n - 1] == s1[n - 1]);
    }
}

} // verus!

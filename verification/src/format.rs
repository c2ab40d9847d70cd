//! The wire shape of an unwind table: the header of the shared file and
//! the packed fixed-shape instructions the probe consumes.
//!
//! The value-level records here are what the surrounding application writes
//! into and reads out of the memory-mapped table file; packing a lowered
//! instruction and re-reading it gives the instruction back.

use crate::ehframe::{Instruction, Op as RuleOp, Reg};
use vstd::prelude::*;

verus! {

/// Marks a table file as one of ours.
pub const MAGIC_NUMBER: u64 = 0xd7_4c_90_35_f0_61_ef_7f;

/// The machine registers a table row may carry, by their register codes:
/// instruction pointer, stack pointer, base pointer, callee-saved base.
pub const X86_64_REGS: [u8; 4] = [16, 15, 10, 11];

/// How many bytes the serialised header occupies.
pub const HEADER_BYTES: usize = 41;

/// How many register columns the file reserves.
pub const HEADER_REG_SLOTS: usize = 24;

/// The table file's header: its magic, the row count, and which register
/// each instruction column belongs to.
#[derive(Clone, Copy, Debug, Eq, PartialEq)]
pub struct Header {
    pub magic: u64,
    pub len: u64,
    pub width: u8,
    pub regs: [u8; 24],
}

impl Header {
    /// A header for `len` rows carrying the given register columns.
    pub fn new(len: usize, registers: &[u8]) -> (r: Header)
        requires
            registers@.len() <= HEADER_REG_SLOTS,
        ensures
            r.magic == MAGIC_NUMBER,
            r.len == len as u64,
            r.width == HEADER_REG_SLOTS as u8,
            forall|i: int| 0 <= i < registers@.len() ==> r.regs@[i] == registers@[i],
            forall|i: int| registers@.len() <= i < HEADER_REG_SLOTS ==> r.regs@[i] == 0,
    {
        let mut regs: [u8; 24] = [0; 24];
        let mut i: usize = 0;
        while i < registers.len()
            invariant
                i <= registers@.len() <= HEADER_REG_SLOTS,
                regs@.len() == HEADER_REG_SLOTS,
                forall|q: int| 0 <= q < i ==> regs@[q] == registers@[q],
                forall|q: int| i <= q < HEADER_REG_SLOTS ==> regs@[q] == 0,
            decreases registers@.len() - i,
        {
            regs[i] = registers[i];
            i += 1;
        }
        Header { magic: MAGIC_NUMBER, len: len as u64, width: HEADER_REG_SLOTS as u8, regs }
    }

    pub fn magic(&self) -> (r: u64)
        ensures
            r == self.magic,
    {
        self.magic
    }

    /// Number of rows in the table.
    pub fn len(&self) -> (r: usize)
        requires
            self.len <= usize::MAX,
        ensures
            r == self.len,
    {
        self.len as usize
    }

    /// Number of register columns.
    pub fn width(&self) -> (r: usize)
        ensures
            r == self.width as usize,
    {
        self.width as usize
    }

    /// Bytes per column: eight per row.
    pub fn row_size(&self) -> (r: usize)
        requires
            self.len <= usize::MAX,
            self.len * 8 <= usize::MAX,
        ensures
            r == self.len * 8,
    {
        (self.len as usize) * 8
    }

    /// The column index a register code is stored at, if any: the first
    /// slot holding that code.
    pub fn register(&self, reg: u8) -> (r: Option<usize>)
        requires
            self.width as int <= HEADER_REG_SLOTS,
        ensures
            match r {
                Some(i) => i < self.width && self.regs@[i as int] == reg && forall|q: int|
                    0 <= q < i ==> self.regs@[q] != reg,
                None => forall|q: int| 0 <= q < self.width ==> self.regs@[q] != reg,
            },
    {
        let w = self.width as usize;
        let mut i: usize = 0;
        while i < w
            invariant
                i <= w,
                w == self.width as usize,
                w <= 24,
                forall|q: int| 0 <= q < i ==> self.regs@[q] != reg,
            decreases w - i,
        {
            if self.regs[i] == reg {
                return Some(i);
            }
            i += 1;
        }
        None
    }

    /// Total bytes of the file: the header, then one address column and
    /// `width` instruction columns.
    pub fn size(&self) -> (r: Option<usize>)
        requires
            self.len <= usize::MAX,
        ensures
            HEADER_BYTES + (self.width + 1) * (self.len * 8) <= usize::MAX ==> r == Some(
                (HEADER_BYTES + (self.width + 1) * (self.len * 8)) as usize,
            ),
            HEADER_BYTES + (self.width + 1) * (self.len * 8) > usize::MAX ==> r is None,
    {
        let rows = match (self.len as usize).checked_mul(8) {
            Some(v) => v,
            None => {
                proof {
                    assert((self.width + 1) * (self.len * 8) >= 1 * (self.len * 8))
                        by (nonlinear_arith)
                        requires
                            self.len * 8 >= 0,
                            self.width + 1 >= 1,
                    ;
                }
                return None;
            }
        };
        proof {
            assert((self.width + 1) * (self.len * 8) == (self.len * 8) * (self.width as int + 1))
                by (nonlinear_arith);
        }
        let cols = match rows.checked_mul(self.width as usize + 1) {
            Some(v) => v,
            None => {
                return None;
            }
        };
        match cols.checked_add(HEADER_BYTES) {
            Some(v) => Some(v),
            None => None,
        }
    }
}

/// The packed operation codes of a wire instruction.
#[derive(Clone, Copy, Debug, Eq, PartialEq, Structural)]
pub enum Op {
    /// This kind of rule is not supported.
    Unimplemented,
    /// The register has no value at this address.
    Undefined,
    /// The value is the word stored at `CFA + offset`.
    CfaOffset,
    /// The value is a machine register plus an offset.
    Register,
    /// The value is the standard procedure-linkage-table expression.
    PltExpr,
}

/// One packed instruction of the shared unwind map: an operation code, a
/// register code, and an offset the probe adds.
#[derive(Clone, Copy, Debug, Eq, PartialEq, Structural)]
pub struct PackedInstruction {
    pub op: u8,
    pub reg: u8,
    pub offset: i64,
}

/// How a lowered instruction packs: the four-variant rule becomes an
/// operation code, the register its code, a missing offset zero.
pub open spec fn spec_pack(ins: Instruction) -> PackedInstruction {
    PackedInstruction {
        op: match ins.op {
            RuleOp::Unimplemented => 0,
            RuleOp::Undefined => 1,
            RuleOp::CfaOffset => 2,
            RuleOp::Register => 3,
        },
        reg: match ins.reg {
            Some(Reg::Rip) => 1,
            Some(Reg::Rsp) => 2,
            None => 0,
        },
        offset: match ins.offset {
            Some(k) => k,
            None => 0,
        },
    }
}

/// How a packed instruction reads back as a lowered instruction.
pub open spec fn spec_unpack(p: PackedInstruction) -> Instruction {
    if p.op == 2 {
        Instruction::spec_cfa_offset(p.offset)
    } else if p.op == 3 {
        if p.reg == 1 {
            Instruction::spec_reg_offset(Reg::Rip, p.offset)
        } else if p.reg == 2 {
            Instruction::spec_reg_offset(Reg::Rsp, p.offset)
        } else {
            Instruction::spec_unimpl()
        }
    } else if p.op == 1 {
        Instruction::spec_undef()
    } else {
        Instruction::spec_unimpl()
    }
}

/// Packs one lowered instruction for the shared map.
pub fn pack_instruction(ins: &Instruction) -> (r: PackedInstruction)
    ensures
        r == spec_pack(*ins),
{
    PackedInstruction {
        op: match ins.op {
            RuleOp::Unimplemented => 0,
            RuleOp::Undefined => 1,
            RuleOp::CfaOffset => 2,
            RuleOp::Register => 3,
        },
        reg: match ins.reg {
            Some(Reg::Rip) => 1,
            Some(Reg::Rsp) => 2,
            None => 0,
        },
        offset: match ins.offset {
            Some(k) => k,
            None => 0,
        },
    }
}

/// Reads one packed instruction back.
pub fn unpack_instruction(p: &PackedInstruction) -> (r: Instruction)
    ensures
        r == spec_unpack(*p),
{
    if p.op == 2 {
        Instruction::cfa_offset(p.offset)
    } else if p.op == 3 {
        if p.reg == 1 {
            Instruction::reg_offset(Reg::Rip, p.offset)
        } else if p.reg == 2 {
            Instruction::reg_offset(Reg::Rsp, p.offset)
        } else {
            Instruction::unimpl()
        }
    } else if p.op == 1 {
        Instruction::undef()
    } else {
        Instruction::unimpl()
    }
}

/// Unwind-op round trip: every executable instruction - a CFA read or a
/// register plus offset - survives packing and re-reading unchanged, with
/// the same operation, register and offset.
pub proof fn lemma_pack_round_trip(ins: Instruction)
    requires
        ins.op == RuleOp::CfaOffset ==> ins.reg is None && ins.offset is Some,
        ins.op == RuleOp::Register ==> ins.reg is Some && ins.offset is Some,
        ins.op == RuleOp::Undefined ==> ins.reg is None && ins.offset is None,
        ins.op != RuleOp::Unimplemented,
    ensures
        spec_unpack(spec_pack(ins)) == ins,
{
}

} // verus!

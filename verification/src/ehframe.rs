//! Lowering of DWARF call-frame rules into the fixed-shape unwind
//! instructions that the in-probe stack walker can execute.
//!
//! A frame-description entry yields one rule row per program-counter range.
//! Each rule is reduced to a four-variant [`Instruction`]: anything richer
//! than "register plus offset" or "word stored at an offset from the CFA"
//! becomes [`Op::Unimplemented`], which makes the walker stop at that frame.

use vstd::prelude::*;

verus! {

/// DWARF register number of the return address on x86-64.
pub const DWARF_REG_RA: u16 = 16;

/// DWARF register number of the stack pointer on x86-64.
pub const DWARF_REG_SP: u16 = 7;

/// Operation of a lowered unwind instruction.
#[derive(Clone, Copy, Debug, Eq, Hash, PartialEq, Structural)]
pub enum Op {
    /// This kind of rule is not supported; the walker must stop here.
    Unimplemented,
    /// The register has no value at this address; the walker reads it as zero.
    Undefined,
    /// The value is the machine word stored at `CFA + offset`.
    CfaOffset,
    /// The value is a machine register plus an offset, with no memory read.
    Register,
}

/// Machine register that a lowered rule may name.
#[derive(Clone, Copy, Debug, Eq, Hash, PartialEq, Structural)]
pub enum Reg {
    Rip,
    Rsp,
}

impl Reg {
    /// Which lowered register a DWARF register number stands for.
    pub open spec fn spec_from_dwarf(reg: u16) -> Option<Reg> {
        if reg == DWARF_REG_RA {
            Some(Reg::Rip)
        } else if reg == DWARF_REG_SP {
            Some(Reg::Rsp)
        } else {
            None
        }
    }

    /// Maps a DWARF register number to the lowered register set.
    pub fn from_dwarf(reg: u16) -> (r: Option<Reg>)
        ensures
            r == Reg::spec_from_dwarf(reg),
    {
        if reg == DWARF_REG_RA {
            Some(Reg::Rip)
        } else if reg == DWARF_REG_SP {
            Some(Reg::Rsp)
        } else {
            None
        }
    }
}

/// Fixed-shape unwind instruction: an operation, an optional register and an
/// optional offset.
#[derive(Clone, Copy, Debug, Eq, Hash, PartialEq)]
pub struct Instruction {
    pub op: Op,
    pub reg: Option<Reg>,
    pub offset: Option<i64>,
}

impl Instruction {
    pub open spec fn spec_unimpl() -> Instruction {
        Instruction { op: Op::Unimplemented, reg: None, offset: None }
    }

    pub open spec fn spec_undef() -> Instruction {
        Instruction { op: Op::Undefined, reg: None, offset: None }
    }

    pub open spec fn spec_cfa_offset(offset: i64) -> Instruction {
        Instruction { op: Op::CfaOffset, reg: None, offset: Some(offset) }
    }

    pub open spec fn spec_reg_offset(reg: Reg, offset: i64) -> Instruction {
        Instruction { op: Op::Register, reg: Some(reg), offset: Some(offset) }
    }

    /// The instruction that marks a rule the walker cannot execute.
    pub fn unimpl() -> (r: Self)
        ensures
            r == Self::spec_unimpl(),
    {
        Self { op: Op::Unimplemented, reg: None, offset: None }
    }

    /// The instruction for a register whose value is lost at this address.
    pub fn undef() -> (r: Self)
        ensures
            r == Self::spec_undef(),
    {
        Self { op: Op::Undefined, reg: None, offset: None }
    }

    /// The instruction that reads the word stored at `CFA + offset`.
    pub fn cfa_offset(offset: i64) -> (r: Self)
        ensures
            r == Self::spec_cfa_offset(offset),
    {
        Self { op: Op::CfaOffset, reg: None, offset: Some(offset) }
    }

    /// The instruction that computes `reg + offset` without a memory read.
    pub fn reg_offset(reg: Reg, offset: i64) -> (r: Self)
        ensures
            r == Self::spec_reg_offset(reg, offset),
    {
        Self { op: Op::Register, reg: Some(reg), offset: Some(offset) }
    }

    pub fn op(&self) -> (r: Op)
        ensures
            r == self.op,
    {
        self.op
    }

    pub fn reg(&self) -> (r: Option<Reg>)
        ensures
            r == self.reg,
    {
        self.reg
    }

    pub fn offset(&self) -> (r: Option<i64>)
        ensures
            r == self.offset,
    {
        self.offset
    }

    /// Whether the walker can make any use of this instruction.
    pub fn is_implemented(&self) -> (r: bool)
        ensures
            r == (self.op != Op::Unimplemented),
    {
        !matches!(self.op, Op::Unimplemented)
    }

    /// Whether this instruction yields a value rather than zero or a stop.
    pub fn is_defined(&self) -> (r: bool)
        ensures
            r == (self.op != Op::Unimplemented && self.op != Op::Undefined),
    {
        !matches!(self.op, Op::Unimplemented | Op::Undefined)
    }
}

/// A canonical-frame-address rule as a frame-description entry states it.
#[derive(Clone, Copy, Debug, Eq, Hash, PartialEq, Structural)]
pub enum CfaRule {
    /// The CFA is a machine register plus an offset.
    RegisterAndOffset { register: u16, offset: i64 },
    /// Any richer rule, such as a general DWARF expression.
    Unsupported,
}

/// A register-recovery rule as a frame-description entry states it.
#[derive(Clone, Copy, Debug, Eq, Hash, PartialEq, Structural)]
pub enum RegisterRule {
    /// The register has no recorded value at this address.
    Undefined,
    /// The value is the word stored at `CFA + offset`.
    Offset(i64),
    /// Any richer rule.
    Unsupported,
}

/// One evaluated rule row of a frame-description entry, before lowering.
#[derive(Clone, Copy, Debug, Eq, Hash, PartialEq, Structural)]
pub struct FrameRow {
    /// Instruction pointer start of the range (inclusive).
    pub start_address: usize,
    /// Instruction pointer end of the range (exclusive).
    pub end_address: usize,
    /// Rule that recovers the return address.
    pub ra: RegisterRule,
    /// Rule that computes the canonical frame address.
    pub cfa: CfaRule,
}

/// How a return-address rule lowers to a fixed-shape instruction.
pub open spec fn spec_lower_ra(rule: RegisterRule) -> Instruction {
    match rule {
        RegisterRule::Undefined => Instruction::spec_undef(),
        RegisterRule::Offset(k) => Instruction::spec_cfa_offset(k),
        RegisterRule::Unsupported => Instruction::spec_unimpl(),
    }
}

/// How a CFA rule lowers to a fixed-shape instruction.
pub open spec fn spec_lower_cfa(rule: CfaRule) -> Instruction {
    match rule {
        CfaRule::RegisterAndOffset { register, offset } => match Reg::spec_from_dwarf(register) {
            Some(r) => Instruction::spec_reg_offset(r, offset),
            None => Instruction::spec_unimpl(),
        },
        CfaRule::Unsupported => Instruction::spec_unimpl(),
    }
}

/// How a whole rule row lowers.
pub open spec fn spec_lower_row(row: FrameRow) -> UnwindTableRow {
    UnwindTableRow {
        start_address: row.start_address,
        end_address: row.end_address,
        rip: spec_lower_ra(row.ra),
        rsp: spec_lower_cfa(row.cfa),
    }
}

/// Row of an unwind table: a program-counter range and the lowered
/// instructions that recover the return address and the CFA there.
#[derive(Clone, Copy, Debug, Eq, Hash, PartialEq)]
pub struct UnwindTableRow {
    /// Instruction pointer start of the range (inclusive).
    pub start_address: usize,
    /// Instruction pointer end of the range (exclusive).
    pub end_address: usize,
    /// Instruction that recovers the `rip` register.
    pub rip: Instruction,
    /// Instruction that recovers the `rsp` register (the CFA).
    pub rsp: Instruction,
}

impl UnwindTableRow {
    /// Lowers one evaluated rule row: `undefined` and `offset` rules for the
    /// return address survive, a register-plus-offset rule for the CFA
    /// survives, and every other rule becomes [`Op::Unimplemented`].
    pub fn parse(row: &FrameRow) -> (r: Self)
        ensures
            r == spec_lower_row(*row),
    {
        Self {
            start_address: row.start_address,
            end_address: row.end_address,
            rip: match row.ra {
                RegisterRule::Undefined => Instruction::undef(),
                RegisterRule::Offset(offset) => Instruction::cfa_offset(offset),
                RegisterRule::Unsupported => Instruction::unimpl(),
            },
            rsp: match row.cfa {
                CfaRule::RegisterAndOffset { register, offset } => {
                    match Reg::from_dwarf(register) {
                        Some(reg) => Instruction::reg_offset(reg, offset),
                        None => Instruction::unimpl(),
                    }
                }
                CfaRule::Unsupported => Instruction::unimpl(),
            },
        }
    }
}

/// Whether a row sequence is strictly sorted by start address.
pub open spec fn rows_sorted(s: Seq<UnwindTableRow>) -> bool {
    forall|i: int, j: int|
        #![trigger s[i], s[j]]
        0 <= i < j < s.len() ==> s[i].start_address < s[j].start_address
}

/// Inserts a row into a sorted row sequence, keeping the sequence sorted;
/// a row whose start address is already present is dropped.
pub open spec fn spec_sorted_insert(s: Seq<UnwindTableRow>, r: UnwindTableRow) -> Seq<
    UnwindTableRow,
>
    decreases s.len(),
{
    if s.len() == 0 {
        seq![r]
    } else if s[0].start_address < r.start_address {
        seq![s[0]] + spec_sorted_insert(s.drop_first(), r)
    } else if s[0].start_address == r.start_address {
        s
    } else {
        seq![r] + s
    }
}

/// The table built from a sequence of rule rows: each row is lowered and
/// inserted in start-address order, earlier rows winning a shared start.
pub open spec fn spec_table_rows(rows: Seq<FrameRow>) -> Seq<UnwindTableRow>
    decreases rows.len(),
{
    if rows.len() == 0 {
        Seq::empty()
    } else {
        spec_sorted_insert(spec_table_rows(rows.drop_last()), spec_lower_row(rows.last()))
    }
}

/// Sorted insertion keeps a sorted sequence sorted, keeps every row that was
/// there, adds nothing but the new row, and makes the new row's start
/// address present.
pub proof fn lemma_sorted_insert(s: Seq<UnwindTableRow>, r: UnwindTableRow)
    requires
        rows_sorted(s),
    ensures
        rows_sorted(spec_sorted_insert(s, r)),
        forall|x: UnwindTableRow| #[trigger]
            spec_sorted_insert(s, r).contains(x) ==> x == r || s.contains(x),
        forall|x: UnwindTableRow| #[trigger] s.contains(x) ==> spec_sorted_insert(s, r).contains(x),
        exists|i: int|
            0 <= i < spec_sorted_insert(s, r).len() && (#[trigger] spec_sorted_insert(s, r)[i])
                .start_address == r.start_address,
    decreases s.len(),
{
    let out = spec_sorted_insert(s, r);
    if s.len() == 0 {
        assert(out[0] == r);
        assert(out.contains(r));
    } else if s[0].start_address < r.start_address {
        let rest = s.drop_first();
        assert(rows_sorted(rest));
        lemma_sorted_insert(rest, r);
        let rec = spec_sorted_insert(rest, r);
        assert(out == seq![s[0]] + rec);
        assert forall|i: int, j: int|
            #![trigger out[i], out[j]]
            0 <= i < j < out.len() implies out[i].start_address < out[j].start_address by {
            if i == 0 {
                assert(out[j] == rec[j - 1]);
                assert(rec.contains(rec[j - 1]));
                if rec[j - 1] == r {
                    assert(s[0].start_address < r.start_address);
                } else {
                    assert(rest.contains(rec[j - 1]));
                    let w = choose|w: int| 0 <= w < rest.len() && rest[w] == rec[j - 1];
                    assert(s[w + 1] == rest[w]);
                }
            } else {
                assert(out[i] == rec[i - 1]);
                assert(out[j] == rec[j - 1]);
            }
        }
        assert forall|x: UnwindTableRow| #[trigger] out.contains(x) implies x == r || s.contains(
            x,
        ) by {
            let w = choose|w: int| 0 <= w < out.len() && out[w] == x;
            if w == 0 {
                assert(s.contains(s[0]));
            } else {
                assert(rec[w - 1] == x);
                assert(rec.contains(x));
                if x != r {
                    assert(rest.contains(x));
                    let w2 = choose|w2: int| 0 <= w2 < rest.len() && rest[w2] == x;
                    assert(s[w2 + 1] == x);
                    assert(s.contains(x));
                }
            }
        }
        assert forall|x: UnwindTableRow| #[trigger] s.contains(x) implies out.contains(x) by {
            let w = choose|w: int| 0 <= w < s.len() && s[w] == x;
            if w == 0 {
                assert(out[0] == x);
            } else {
                assert(rest[w - 1] == x);
                assert(rest.contains(x));
                assert(rec.contains(x));
                let w2 = choose|w2: int| 0 <= w2 < rec.len() && rec[w2] == x;
                assert(out[w2 + 1] == x);
            }
        }
        let wr = choose|wr: int|
            0 <= wr < rec.len() && (#[trigger] rec[wr]).start_address == r.start_address;
        assert(out[wr + 1].start_address == r.start_address);
    } else if s[0].start_address == r.start_address {
        assert(out == s);
        assert(out[0].start_address == r.start_address);
    } else {
        assert(out == seq![r] + s);
        assert forall|i: int, j: int|
            #![trigger out[i], out[j]]
            0 <= i < j < out.len() implies out[i].start_address < out[j].start_address by {
            if i == 0 {
                assert(out[j] == s[j - 1]);
            } else {
                assert(out[i] == s[i - 1]);
                assert(out[j] == s[j - 1]);
            }
        }
        assert forall|x: UnwindTableRow| #[trigger] out.contains(x) implies x == r || s.contains(
            x,
        ) by {
            let w = choose|w: int| 0 <= w < out.len() && out[w] == x;
            if w > 0 {
                assert(s[w - 1] == x);
                assert(s.contains(x));
            }
        }
        assert forall|x: UnwindTableRow| #[trigger] s.contains(x) implies out.contains(x) by {
            let w = choose|w: int| 0 <= w < s.len() && s[w] == x;
            assert(out[w + 1] == x);
        }
        assert(out[0].start_address == r.start_address);
    }
}

/// Row ordering: every table built from rule rows is strictly sorted by
/// start address, so no two of its rows share a start address.
pub proof fn lemma_table_rows_sorted(rows: Seq<FrameRow>)
    ensures
        rows_sorted(spec_table_rows(rows)),
    decreases rows.len(),
{
    if rows.len() > 0 {
        lemma_table_rows_sorted(rows.drop_last());
        lemma_sorted_insert(spec_table_rows(rows.drop_last()), spec_lower_row(rows.last()));
    }
}

/// Exactly where in a sorted sequence the insertion lands: before index
/// `pos` every start address is below the new row's, at `pos` it is at or
/// above it.
proof fn lemma_sorted_insert_at(s: Seq<UnwindTableRow>, r: UnwindTableRow, pos: int)
    requires
        rows_sorted(s),
        0 <= pos <= s.len(),
        forall|q: int| 0 <= q < pos ==> (#[trigger] s[q]).start_address < r.start_address,
        pos < s.len() ==> s[pos].start_address >= r.start_address,
    ensures
        spec_sorted_insert(s, r) == if pos < s.len() && s[pos].start_address == r.start_address {
            s
        } else {
            s.insert(pos, r)
        },
    decreases s.len(),
{
    let out = spec_sorted_insert(s, r);
    if s.len() == 0 {
        assert(out =~= s.insert(0, r));
    } else if pos == 0 {
        if s[0].start_address == r.start_address {
            assert(out == s);
        } else {
            assert(s[0].start_address > r.start_address);
            assert(out =~= s.insert(0, r));
        }
    } else {
        assert(s[0].start_address < r.start_address);
        let rest = s.drop_first();
        assert(rows_sorted(rest));
        assert forall|q: int| 0 <= q < pos - 1 implies (#[trigger] rest[q]).start_address
            < r.start_address by {
            assert(rest[q] == s[q + 1]);
        }
        assert(pos - 1 < rest.len() ==> rest[pos - 1] == s[pos as int]);
        lemma_sorted_insert_at(rest, r, pos - 1);
        if pos < s.len() && s[pos].start_address == r.start_address {
            assert(spec_sorted_insert(rest, r) == rest);
            assert(out =~= s);
        } else {
            assert(spec_sorted_insert(rest, r) == rest.insert(pos - 1, r));
            assert(out =~= s.insert(pos, r));
        }
    }
}

/// Address-sorted unwind table of one mapped image.
#[derive(Clone, Debug, Eq, Hash, PartialEq)]
pub struct UnwindTable {
    pub rows: Vec<UnwindTableRow>,
}

impl UnwindTable {
    /// Rows are strictly sorted by start address: no two rows share one.
    pub open spec fn wf(self) -> bool {
        rows_sorted(self.rows@)
    }

    /// Lowers the evaluated rule rows of one image into a sorted table.
    ///
    /// The result is exactly [`spec_table_rows`]: every row lowered and
    /// inserted in start-address order, the first row met winning a shared
    /// start address. Two builds of the same input yield the same table.
    pub fn parse(rows: &Vec<FrameRow>) -> (t: UnwindTable)
        ensures
            t.rows@ == spec_table_rows(rows@),
            t.wf(),
    {
        let mut t = UnwindTable { rows: Vec::new() };
        let mut k: usize = 0;
        proof {
            assert(rows@.subrange(0, 0) =~= Seq::<FrameRow>::empty());
        }
        while k < rows.len()
            invariant
                k <= rows@.len(),
                t.rows@ == spec_table_rows(rows@.subrange(0, k as int)),
                rows_sorted(t.rows@),
            decreases rows@.len() - k,
        {
            let row = UnwindTableRow::parse(&rows[k]);
            let mut pos: usize = 0;
            while pos < t.rows.len() && t.rows[pos].start_address < row.start_address
                invariant
                    pos <= t.rows@.len(),
                    forall|q: int|
                        0 <= q < pos ==> (#[trigger] t.rows@[q]).start_address
                            < row.start_address,
                decreases t.rows@.len() - pos,
            {
                pos += 1;
            }
            let ghost prev = t.rows@;
            let ghost part = rows@.subrange(0, k as int);
            proof {
                lemma_sorted_insert_at(prev, row, pos as int);
                lemma_sorted_insert(prev, row);
                assert(rows@.subrange(0, k + 1).drop_last() =~= part);
                assert(rows@.subrange(0, k + 1).last() == rows@[k as int]);
            }
            if pos < t.rows.len() && t.rows[pos].start_address == row.start_address {
                // A row with this start address is already in place; the
                // first one met is kept.
            } else {
                t.rows.insert(pos, row);
            }
            k += 1;
        }
        proof {
            assert(rows@.subrange(0, rows@.len() as int) =~= rows@);
        }
        t
    }
}

} // verus!

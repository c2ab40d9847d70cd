//! The in-probe stack walker.
//!
//! A probe fire hands the walker a register snapshot and read-only access to
//! the flattened unwind table (one start address and two instructions per
//! row). The walker records up to [`MAX_STACK_DEPTH`] return addresses,
//! locating each row with a binary search of a fixed iteration count and
//! executing at most one memory read per frame. User memory is modelled by
//! [`Memory`]: a read either returns the word at an address or fails, which
//! the walker treats as end of stack.

use crate::ehframe::{Instruction, Op, Reg, UnwindTable, UnwindTableRow};
use crate::pid::PidTgid;
use vstd::prelude::*;
use vstd::wrapping::u64_specs;

verus! {

/// Greatest stack depth one sample records.
pub const MAX_STACK_DEPTH: usize = 24;

/// Fixed iteration count of the bounded binary search: one more than the
/// base-two logarithm of [`EHFRAME_ENTRIES`], so the final one-row gap also
/// closes.
pub const MAX_BIN_SEARCH_DEPTH: usize = 17;

/// Greatest number of unwind-table rows the shared maps can carry.
pub const EHFRAME_ENTRIES: usize = 0xffff;

/// The registers the walker reads and rewrites while unwinding.
#[derive(Clone, Copy, Debug, Eq, Hash, PartialEq, Structural)]
pub struct Registers {
    pub rip: u64,
    pub rsp: u64,
}

/// User memory as the walker sees it: a word per address, reads of any
/// other address fail.
#[derive(Clone, Debug, Eq, PartialEq)]
pub struct Memory {
    pub words: Vec<(u64, u64)>,
}

/// First word recorded for `addr`, scanning from the front.
pub open spec fn spec_lookup_word(s: Seq<(u64, u64)>, addr: u64) -> Option<u64>
    decreases s.len(),
{
    if s.len() == 0 {
        None
    } else if s[0].0 == addr {
        Some(s[0].1)
    } else {
        spec_lookup_word(s.drop_first(), addr)
    }
}

impl Memory {
    /// The word this memory holds at `addr`, if any.
    pub open spec fn spec_read(self, addr: u64) -> Option<u64> {
        spec_lookup_word(self.words@, addr)
    }

    pub fn new() -> (r: Memory)
        ensures
            forall|a: u64| r.spec_read(a) is None,
    {
        Memory { words: Vec::new() }
    }

    /// Records a word, shadowing any earlier word at the same address.
    pub fn insert_word(&mut self, addr: u64, value: u64)
        ensures
            forall|a: u64|
                final(self).spec_read(a) == if a == addr {
                    Some(value)
                } else {
                    old(self).spec_read(a)
                },
    {
        self.words.insert(0, (addr, value));
        proof {
            assert(self.words@ =~= seq![(addr, value)] + old(self).words@);
            assert forall|a: u64|
                self.spec_read(a) == (if a == addr {
                    Some(value)
                } else {
                    old(self).spec_read(a)
                }) by {
                assert(self.words@[0] == (addr, value));
                assert(self.words@.drop_first() =~= old(self).words@);
            }
        }
    }

    /// Reads the 8-byte word at `addr`; `None` stands for a failed read.
    pub fn read_u64(&self, addr: u64) -> (r: Option<u64>)
        ensures
            r == self.spec_read(addr),
    {
        let mut i: usize = 0;
        proof {
            assert(self.words@.skip(0) =~= self.words@);
        }
        while i < self.words.len()
            invariant
                i <= self.words@.len(),
                spec_lookup_word(self.words@.skip(i as int), addr) == self.spec_read(addr),
            decreases self.words@.len() - i,
        {
            let (a, v) = self.words[i];
            proof {
                assert(self.words@.skip(i as int)[0] == self.words@[i as int]);
                assert(self.words@.skip(i as int).drop_first() =~= self.words@.skip(i + 1));
            }
            if a == addr {
                return Some(v);
            }
            i += 1;
        }
        proof {
            assert(self.words@.skip(i as int) =~= Seq::<(u64, u64)>::empty());
        }
        None
    }
}

/// Whether a start-address sequence is strictly increasing.
pub open spec fn pc_sorted(s: Seq<u64>) -> bool {
    forall|i: int, j: int| #![trigger s[i], s[j]] 0 <= i < j < s.len() ==> s[i] < s[j]
}

/// The flattened unwind table the probe consumes: `pc[i]` is the load-shifted
/// start address of row `i`, `rip[i]` and `rsp[i]` its two instructions.
#[derive(Clone, Debug, Eq, PartialEq)]
pub struct UnwindMap {
    pub pc: Vec<u64>,
    pub rip: Vec<Instruction>,
    pub rsp: Vec<Instruction>,
}

/// The start addresses of a table's rows, shifted by the image's load
/// address.
pub open spec fn spec_shifted_pcs(load: u64, rows: Seq<UnwindTableRow>) -> Seq<u64> {
    Seq::new(rows.len(), |i: int| (load + rows[i].start_address) as u64)
}

/// The return-address column of a table's rows.
pub open spec fn spec_rip_column(rows: Seq<UnwindTableRow>) -> Seq<Instruction> {
    Seq::new(rows.len(), |i: int| rows[i].rip)
}

/// The CFA column of a table's rows.
pub open spec fn spec_rsp_column(rows: Seq<UnwindTableRow>) -> Seq<Instruction> {
    Seq::new(rows.len(), |i: int| rows[i].rsp)
}

impl UnwindMap {
    /// The three columns agree in length, fit the shared-map cap, and the
    /// start addresses are strictly sorted.
    pub open spec fn wf(self) -> bool {
        &&& self.rip@.len() == self.pc@.len()
        &&& self.rsp@.len() == self.pc@.len()
        &&& self.pc@.len() <= EHFRAME_ENTRIES
        &&& pc_sorted(self.pc@)
    }

    /// Whether an image's table can be appended: the total stays under the
    /// shared-map cap, every shifted start fits in 64 bits, and the new
    /// starts lie strictly above everything already present.
    pub open spec fn spec_can_append(self, load: u64, t: UnwindTable) -> bool {
        &&& self.pc@.len() + t.rows@.len() <= EHFRAME_ENTRIES
        &&& forall|r: int|
            0 <= r < t.rows@.len() ==> load + (#[trigger] t.rows@[r]).start_address <= u64::MAX
        &&& (self.pc@.len() > 0 && t.rows@.len() > 0 ==> self.pc@.last() < load
            + t.rows@[0].start_address)
    }

    /// An empty map, before any image's table is written.
    pub fn new() -> (r: UnwindMap)
        ensures
            r.wf(),
            r.pc@.len() == 0,
    {
        UnwindMap { pc: Vec::new(), rip: Vec::new(), rsp: Vec::new() }
    }

    /// Tests whether an image's table can be appended, so a caller can turn
    /// a refusal into its size-exceeded error before writing anything.
    pub fn can_append(&self, load: u64, t: &UnwindTable) -> (r: bool)
        requires
            self.wf(),
            t.wf(),
        ensures
            r == self.spec_can_append(load, *t),
    {
        if t.rows.len() > EHFRAME_ENTRIES - self.pc.len() {
            return false;
        }
        if t.rows.len() == 0 {
            return true;
        }
        let last_start = t.rows[t.rows.len() - 1].start_address as u64;
        if last_start > u64::MAX - load {
            proof {
                assert(load + t.rows@[t.rows@.len() - 1].start_address > u64::MAX);
            }
            return false;
        }
        proof {
            assert forall|r: int|
                0 <= r < t.rows@.len() implies load + (#[trigger] t.rows@[r]).start_address
                <= u64::MAX by {
                assert(t.rows@[r].start_address <= t.rows@[t.rows@.len() - 1].start_address);
            }
        }
        if self.pc.len() > 0 {
            if self.pc[self.pc.len() - 1] >= load.wrapping_add(t.rows[0].start_address as u64) {
                proof {
                    assert(load + t.rows@[0].start_address <= u64::MAX);
                }
                return false;
            }
        }
        true
    }

    /// Appends one image's rows: the shifted start addresses and the two
    /// instruction columns, in row order.
    pub fn push_table(&mut self, load: u64, t: &UnwindTable)
        requires
            old(self).wf(),
            t.wf(),
            old(self).spec_can_append(load, *t),
        ensures
            final(self).wf(),
            final(self).pc@ == old(self).pc@ + spec_shifted_pcs(load, t.rows@),
            final(self).rip@ == old(self).rip@ + spec_rip_column(t.rows@),
            final(self).rsp@ == old(self).rsp@ + spec_rsp_column(t.rows@),
    {
        let ghost base_pc = self.pc@;
        let ghost base_rip = self.rip@;
        let ghost base_rsp = self.rsp@;
        let mut r: usize = 0;
        proof {
            assert(base_pc + spec_shifted_pcs(load, t.rows@.subrange(0, 0)) =~= base_pc);
            assert(base_rip + spec_rip_column(t.rows@.subrange(0, 0)) =~= base_rip);
            assert(base_rsp + spec_rsp_column(t.rows@.subrange(0, 0)) =~= base_rsp);
        }
        while r < t.rows.len()
            invariant
                r <= t.rows@.len(),
                t.wf(),
                base_pc.len() + t.rows@.len() <= EHFRAME_ENTRIES,
                forall|q: int|
                    0 <= q < t.rows@.len() ==> load + (#[trigger] t.rows@[q]).start_address
                        <= u64::MAX,
                base_pc.len() > 0 && t.rows@.len() > 0 ==> base_pc.last() < load
                    + t.rows@[0].start_address,
                pc_sorted(base_pc),
                self.pc@ == base_pc + spec_shifted_pcs(load, t.rows@.subrange(0, r as int)),
                self.rip@ == base_rip + spec_rip_column(t.rows@.subrange(0, r as int)),
                self.rsp@ == base_rsp + spec_rsp_column(t.rows@.subrange(0, r as int)),
                pc_sorted(self.pc@),
            decreases t.rows@.len() - r,
        {
            let row = t.rows[r];
            let ghost prev_pc = self.pc@;
            self.pc.push(load.wrapping_add(row.start_address as u64));
            self.rip.push(row.rip);
            self.rsp.push(row.rsp);
            proof {
                assert(load + row.start_address <= u64::MAX);
                assert(self.pc@.last() == (load + row.start_address) as u64);
                assert(self.pc@ =~= base_pc + spec_shifted_pcs(
                    load,
                    t.rows@.subrange(0, r + 1),
                ));
                assert(self.rip@ =~= base_rip + spec_rip_column(t.rows@.subrange(0, r + 1)));
                assert(self.rsp@ =~= base_rsp + spec_rsp_column(t.rows@.subrange(0, r + 1)));
                assert forall|i: int, j: int|
                    #![trigger self.pc@[i], self.pc@[j]]
                    0 <= i < j < self.pc@.len() implies self.pc@[i] < self.pc@[j] by {
                    if j == self.pc@.len() - 1 {
                        assert(self.pc@[j] == (load + row.start_address) as u64);
                        if i < base_pc.len() {
                            assert(self.pc@[i] == base_pc[i]);
                            assert(base_pc[i] <= base_pc.last() || i == base_pc.len() - 1);
                            assert(base_pc.last() < load + t.rows@[0].start_address);
                            assert(t.rows@[0].start_address <= row.start_address);
                        } else {
                            let q = i - base_pc.len();
                            assert(self.pc@[i] == (load + t.rows@[q].start_address) as u64);
                            assert(t.rows@[q].start_address < row.start_address);
                        }
                    } else {
                        assert(self.pc@[i] == prev_pc[i]);
                        assert(self.pc@[j] == prev_pc[j]);
                    }
                }
            }
            r += 1;
        }
        proof {
            assert(t.rows@.subrange(0, t.rows@.len() as int) =~= t.rows@);
        }
    }

    /// Number of rows the map holds.
    pub fn len(&self) -> (r: usize)
        ensures
            r == self.pc@.len(),
    {
        self.pc.len()
    }

    /// The row the bounded search locates for `ip`.
    pub fn binary_search(&self, ip: u64) -> (i: usize)
        requires
            self.wf(),
            self.pc@.len() >= 1,
        ensures
            i as int == spec_search(self.pc@, ip),
            i < self.pc@.len(),
    {
        binary_search(&self.pc, ip)
    }
}

/// The index the search is meant to find: the largest index whose start
/// address is at or below `ip`, and index zero when every start is above it.
pub open spec fn spec_search(s: Seq<u64>, ip: u64) -> int
    decreases s.len(),
{
    if s.len() <= 1 {
        0
    } else if s.last() <= ip {
        s.len() - 1
    } else {
        spec_search(s.drop_last(), ip)
    }
}

/// Binary-search correctness: on a sorted table the located index names the
/// row whose range contains `ip`, or the closest predecessor row when `ip`
/// falls in a gap; below the first row it names row zero.
pub proof fn lemma_search_locates(s: Seq<u64>, ip: u64)
    requires
        pc_sorted(s),
        s.len() >= 1,
    ensures
        0 <= spec_search(s, ip) < s.len(),
        s[0] <= ip ==> s[spec_search(s, ip)] <= ip,
        s[0] <= ip ==> forall|j: int| spec_search(s, ip) < j < s.len() ==> s[j] > ip,
        s[0] > ip ==> spec_search(s, ip) == 0,
    decreases s.len(),
{
    if s.len() <= 1 {
    } else if s.last() <= ip {
        assert(s[0] <= s[s.len() - 1]);
    } else {
        let t = s.drop_last();
        assert forall|i: int, j: int|
            #![trigger t[i], t[j]]
            0 <= i < j < t.len() implies t[i] < t[j] by {
            assert(t[i] == s[i]);
            assert(t[j] == s[j]);
        }
        lemma_search_locates(t, ip);
        let r = spec_search(t, ip);
        assert(t[0] == s[0]);
        if s[0] <= ip {
            assert(t[r] == s[r]);
            assert forall|j: int| r < j < s.len() implies s[j] > ip by {
                if j < s.len() - 1 {
                    assert(t[j] == s[j]);
                }
            }
        }
    }
}

/// Two raised to the `k`.
pub open spec fn pow2(k: nat) -> nat
    decreases k,
{
    if k == 0 {
        1nat
    } else {
        2 * pow2((k - 1) as nat)
    }
}

/// Locates the largest index whose start address is at or below `ip`, with a
/// fixed iteration count and no early exit, as the in-probe sandbox demands.
pub fn binary_search(pc: &Vec<u64>, ip: u64) -> (i: usize)
    requires
        pc_sorted(pc@),
        1 <= pc@.len() <= EHFRAME_ENTRIES,
    ensures
        i as int == spec_search(pc@, ip),
        i < pc@.len(),
{
    let mut left: usize = 0;
    let mut right: usize = pc.len() - 1;
    let mut step: usize = 0;
    proof {
        reveal_with_fuel(pow2, 18);
        assert(pow2(16) == 65536);
    }
    while step < MAX_BIN_SEARCH_DEPTH
        invariant
            pc_sorted(pc@),
            1 <= pc@.len() <= EHFRAME_ENTRIES,
            step <= MAX_BIN_SEARCH_DEPTH,
            left <= right < pc@.len(),
            pc@[0] <= ip ==> pc@[left as int] <= ip,
            pc@[0] > ip ==> left == 0,
            forall|j: int| right < j < pc@.len() ==> pc@[j] > ip,
            step <= 16 ==> right - left <= pow2((16 - step) as nat),
            step > 16 ==> right == left,
        decreases MAX_BIN_SEARCH_DEPTH - step,
    {
        let ghost g = right - left;
        if left + 1 < right {
            let mid = left + (right - left) / 2;
            if pc[mid] <= ip {
                left = mid;
            } else {
                right = mid;
                proof {
                    assert forall|j: int| right < j < pc@.len() implies pc@[j] > ip by {
                        if j < pc@.len() {
                            assert(pc@[mid as int] < pc@[j] || j == mid);
                        }
                    }
                }
            }
        } else if right == left + 1 {
            if pc[right] <= ip {
                left = right;
            } else {
                right = left;
            }
        }
        step += 1;
        proof {
            if step <= 16 {
                let m = (16 - (step - 1)) as nat;
                assert(pow2(m) == 2 * pow2((m - 1) as nat));
                assert(right - left <= pow2((16 - step) as nat));
            }
        }
    }
    proof {
        lemma_search_locates(pc@, ip);
        let r = spec_search(pc@, ip);
        if pc@[0] <= ip {
            if left < r {
                assert(pc@[r] > ip);
            }
            if r < left {
                assert(pc@[left as int] > ip);
            }
        }
    }
    left
}

/// What executing one instruction yields: a value, or nothing when the rule
/// is missing, a register is unknown, or the memory read fails. Arithmetic
/// wraps as signed 64-bit addition.
pub open spec fn spec_execute(ins: Instruction, regs: Registers, cfa: u64, mem: Memory) -> Option<
    u64,
> {
    match ins.op {
        Op::Unimplemented => None,
        Op::Undefined => None,
        Op::CfaOffset => match ins.offset {
            Some(k) => mem.spec_read(u64_specs::wrapping_add_signed(cfa, k)),
            None => None,
        },
        Op::Register => match (ins.reg, ins.offset) {
            (Some(Reg::Rip), Some(k)) => Some(u64_specs::wrapping_add_signed(regs.rip, k)),
            (Some(Reg::Rsp), Some(k)) => Some(u64_specs::wrapping_add_signed(regs.rsp, k)),
            _ => None,
        },
    }
}

/// Executes one lowered instruction against the current registers, the CFA
/// computed so far, and user memory.
pub fn execute_instruction(ins: &Instruction, regs: &Registers, cfa: u64, mem: &Memory) -> (r:
    Option<u64>)
    ensures
        r == spec_execute(*ins, *regs, cfa, *mem),
{
    match ins.op {
        Op::CfaOffset => match ins.offset {
            Some(k) => mem.read_u64(cfa.wrapping_add_signed(k)),
            None => None,
        },
        Op::Register => match (ins.reg, ins.offset) {
            (Some(Reg::Rip), Some(k)) => Some(regs.rip.wrapping_add_signed(k)),
            (Some(Reg::Rsp), Some(k)) => Some(regs.rsp.wrapping_add_signed(k)),
            _ => None,
        },
        _ => None,
    }
}

/// The addresses one walk records, newest frame first, before zero padding.
///
/// Each step records the instruction pointer, then stops on a zero pointer,
/// an empty table, a CFA rule that yields nothing, or a recovered pointer
/// equal to the current one; otherwise it installs the recovered pointer and
/// CFA and walks on.
pub open spec fn spec_walk(map: UnwindMap, mem: Memory, regs: Registers, fuel: nat) -> Seq<u64>
    decreases fuel,
{
    if fuel == 0 {
        Seq::empty()
    } else {
        let rest = if regs.rip == 0 {
            Seq::<u64>::empty()
        } else if map.pc@.len() == 0 {
            Seq::<u64>::empty()
        } else {
            let i = spec_search(map.pc@, regs.rip);
            match spec_execute(map.rsp@[i], regs, 0, mem) {
                None => Seq::<u64>::empty(),
                Some(cfa) => {
                    let next = match spec_execute(map.rip@[i], regs, cfa, mem) {
                        Some(v) => v,
                        None => 0u64,
                    };
                    if next == regs.rip {
                        Seq::<u64>::empty()
                    } else {
                        spec_walk(map, mem, Registers { rip: next, rsp: cfa }, (fuel - 1) as nat)
                    }
                }
            }
        };
        seq![regs.rip] + rest
    }
}

/// A walk records at most `fuel` addresses.
pub proof fn lemma_walk_len(map: UnwindMap, mem: Memory, regs: Registers, fuel: nat)
    ensures
        spec_walk(map, mem, regs, fuel).len() <= fuel,
    decreases fuel,
{
    if fuel > 0 {
        let i = spec_search(map.pc@, regs.rip);
        if regs.rip != 0 && map.pc@.len() > 0 {
            match spec_execute(map.rsp@[i], regs, 0, mem) {
                None => {}
                Some(cfa) => {
                    let next = match spec_execute(map.rip@[i], regs, cfa, mem) {
                        Some(v) => v,
                        None => 0u64,
                    };
                    if next != regs.rip {
                        lemma_walk_len(
                            map,
                            mem,
                            Registers { rip: next, rsp: cfa },
                            (fuel - 1) as nat,
                        );
                    }
                }
            }
        }
    }
}

/// Every recorded address but the last is non-zero.
pub proof fn lemma_walk_nonzero_prefix(map: UnwindMap, mem: Memory, regs: Registers, fuel: nat)
    ensures
        forall|i: int|
            0 <= i < spec_walk(map, mem, regs, fuel).len() - 1 ==> spec_walk(
                map,
                mem,
                regs,
                fuel,
            )[i] != 0,
    decreases fuel,
{
    if fuel > 0 {
        let w = spec_walk(map, mem, regs, fuel);
        let i = spec_search(map.pc@, regs.rip);
        if regs.rip != 0 && map.pc@.len() > 0 {
            match spec_execute(map.rsp@[i], regs, 0, mem) {
                None => {}
                Some(cfa) => {
                    let next = match spec_execute(map.rip@[i], regs, cfa, mem) {
                        Some(v) => v,
                        None => 0u64,
                    };
                    if next != regs.rip {
                        let regs2 = Registers { rip: next, rsp: cfa };
                        lemma_walk_nonzero_prefix(map, mem, regs2, (fuel - 1) as nat);
                        let rest = spec_walk(map, mem, regs2, (fuel - 1) as nat);
                        assert forall|q: int| 0 <= q < w.len() - 1 implies w[q] != 0 by {
                            if q > 0 {
                                assert(w[q] == rest[q - 1]);
                            }
                        }
                    }
                }
            }
        }
    }
}

/// `s` followed by zeros up to length `n`.
pub open spec fn zero_pad(s: Seq<u64>, n: nat) -> Seq<u64>
    recommends
        s.len() <= n,
{
    s + Seq::new((n - s.len()) as nat, |i: int| 0u64)
}

/// The sample one probe fire records for this register snapshot.
pub open spec fn spec_sample(map: UnwindMap, mem: Memory, regs: Registers) -> Seq<u64> {
    zero_pad(spec_walk(map, mem, regs, MAX_STACK_DEPTH as nat), MAX_STACK_DEPTH as nat)
}

/// Stack terminator: a recorded sample is one non-zero prefix and then
/// zeros; once a zero appears, every following entry is zero.
pub proof fn lemma_stack_terminator(map: UnwindMap, mem: Memory, regs: Registers)
    ensures
        ({
            let sample = spec_sample(map, mem, regs);
            forall|i: int, j: int|
                #![trigger sample[i], sample[j]]
                0 <= i < j < sample.len() && sample[i] == 0 ==> sample[j] == 0
        }),
{
    let w = spec_walk(map, mem, regs, MAX_STACK_DEPTH as nat);
    let sample = spec_sample(map, mem, regs);
    lemma_walk_len(map, mem, regs, MAX_STACK_DEPTH as nat);
    lemma_walk_nonzero_prefix(map, mem, regs, MAX_STACK_DEPTH as nat);
    assert forall|i: int, j: int|
        #![trigger sample[i], sample[j]]
        0 <= i < j < sample.len() && sample[i] == 0 implies sample[j] == 0 by {
        if i < w.len() {
            assert(sample[i] == w[i]);
            assert(i == w.len() - 1);
        }
        if j < w.len() {
            assert(sample[j] == w[j]);
        }
    }
}

/// Walks the frozen stack: records up to [`MAX_STACK_DEPTH`] instruction
/// pointers and pads the rest of the sample with zeros.
pub fn backtrace(regs: &Registers, map: &UnwindMap, mem: &Memory) -> (stack: Vec<u64>)
    requires
        map.wf(),
    ensures
        stack@ == spec_sample(*map, *mem, *regs),
        stack@.len() == MAX_STACK_DEPTH,
{
    let mut stack: Vec<u64> = Vec::new();
    let mut now = *regs;
    loop
        invariant_except_break
            map.wf(),
            stack@.len() <= MAX_STACK_DEPTH,
            spec_walk(*map, *mem, *regs, MAX_STACK_DEPTH as nat) == stack@ + spec_walk(
                *map,
                *mem,
                now,
                (MAX_STACK_DEPTH - stack@.len()) as nat,
            ),
        ensures
            stack@.len() <= MAX_STACK_DEPTH,
            spec_walk(*map, *mem, *regs, MAX_STACK_DEPTH as nat) == stack@,
        decreases MAX_STACK_DEPTH - stack@.len(),
    {
        proof {
            assert(stack@ + Seq::<u64>::empty() =~= stack@);
        }
        if stack.len() == MAX_STACK_DEPTH {
            break ;
        }
        let ghost fuel = (MAX_STACK_DEPTH - stack@.len()) as nat;
        let ghost before = stack@;
        stack.push(now.rip);
        proof {
            assert(before + (seq![now.rip] + spec_walk(*map, *mem, now, fuel).drop_first())
                =~= stack@ + spec_walk(*map, *mem, now, fuel).drop_first());
        }
        if now.rip == 0 {
            proof {
                assert(spec_walk(*map, *mem, now, fuel) =~= seq![now.rip]);
                assert(before + spec_walk(*map, *mem, now, fuel) =~= stack@);
            }
            break ;
        }
        if map.pc.len() == 0 {
            proof {
                assert(spec_walk(*map, *mem, now, fuel) =~= seq![now.rip]);
                assert(before + spec_walk(*map, *mem, now, fuel) =~= stack@);
            }
            break ;
        }
        let i = binary_search(&map.pc, now.rip);
        let irsp = map.rsp[i];
        let irip = map.rip[i];
        match execute_instruction(&irsp, &now, 0, mem) {
            None => {
                proof {
                    assert(spec_walk(*map, *mem, now, fuel) =~= seq![now.rip]);
                    assert(before + spec_walk(*map, *mem, now, fuel) =~= stack@);
                }
                break ;
            }
            Some(cfa) => {
                let next = match execute_instruction(&irip, &now, cfa, mem) {
                    Some(v) => v,
                    None => 0,
                };
                if next == now.rip {
                    proof {
                        assert(spec_walk(*map, *mem, now, fuel) =~= seq![now.rip]);
                        assert(before + spec_walk(*map, *mem, now, fuel) =~= stack@);
                    }
                    break ;
                }
                let ghost old_now = now;
                now = Registers { rip: next, rsp: cfa };
                proof {
                    assert(spec_walk(*map, *mem, old_now, fuel) == seq![old_now.rip] + spec_walk(
                        *map,
                        *mem,
                        now,
                        (fuel - 1) as nat,
                    ));
                    assert(before + (seq![old_now.rip] + spec_walk(
                        *map,
                        *mem,
                        now,
                        (fuel - 1) as nat,
                    )) =~= stack@ + spec_walk(*map, *mem, now, (fuel - 1) as nat));
                }
            }
        }
    }
    proof {
        lemma_walk_len(*map, *mem, *regs, MAX_STACK_DEPTH as nat);
    }
    let ghost walked = stack@;
    while stack.len() < MAX_STACK_DEPTH
        invariant
            walked.len() <= stack@.len() <= MAX_STACK_DEPTH,
            stack@ == walked + Seq::new((stack@.len() - walked.len()) as nat, |i: int| 0u64),
        decreases MAX_STACK_DEPTH - stack@.len(),
    {
        let ghost before = stack@;
        stack.push(0);
        proof {
            assert(stack@ =~= walked + Seq::new((stack@.len() - walked.len()) as nat, |i: int| 0u64));
        }
    }
    proof {
        assert(stack@ =~= zero_pad(walked, MAX_STACK_DEPTH as nat));
    }
    stack
}

/// First count recorded for the sample `k`, scanning from the front.
pub open spec fn spec_lookup_count(s: Seq<(Vec<u64>, u32)>, k: Seq<u64>) -> Option<u32>
    decreases s.len(),
{
    if s.len() == 0 {
        None
    } else if s[0].0@ == k {
        Some(s[0].1)
    } else {
        spec_lookup_count(s.drop_first(), k)
    }
}

/// A count raised by one, saturating at the 32-bit cap; an absent count
/// reads as zero.
pub open spec fn bumped(c: Option<u32>) -> u32 {
    match c {
        None => 1,
        Some(n) => if n < u32::MAX {
            (n + 1) as u32
        } else {
            n
        },
    }
}

/// When no entry holds the key, the lookup yields nothing.
proof fn lemma_lookup_count_absent(s: Seq<(Vec<u64>, u32)>, k: Seq<u64>)
    requires
        forall|q: int| 0 <= q < s.len() ==> (#[trigger] s[q]).0@ != k,
    ensures
        spec_lookup_count(s, k) is None,
    decreases s.len(),
{
    if s.len() > 0 {
        lemma_lookup_count_absent(s.drop_first(), k);
    }
}

/// When the first entry holding the key sits at `i`, the lookup yields its
/// count.
proof fn lemma_lookup_count_found(s: Seq<(Vec<u64>, u32)>, i: int, k: Seq<u64>)
    requires
        0 <= i < s.len(),
        s[i].0@ == k,
        forall|q: int| 0 <= q < i ==> (#[trigger] s[q]).0@ != k,
    ensures
        spec_lookup_count(s, k) == Some(s[i].1),
    decreases i,
{
    if i > 0 {
        lemma_lookup_count_found(s.drop_first(), i - 1, k);
    }
}

/// Replacing the count of the first entry holding a key changes that key's
/// lookup alone.
proof fn lemma_lookup_count_update(s: Seq<(Vec<u64>, u32)>, i: int, c: u32, k2: Seq<u64>)
    requires
        0 <= i < s.len(),
        forall|q: int| 0 <= q < i ==> (#[trigger] s[q]).0@ != s[i].0@,
    ensures
        spec_lookup_count(s.update(i, (s[i].0, c)), k2) == if k2 == s[i].0@ {
            Some(c)
        } else {
            spec_lookup_count(s, k2)
        },
    decreases i,
{
    let t = s.update(i, (s[i].0, c));
    if i == 0 {
        assert(t[0].0@ == s[0].0@);
        assert(t.drop_first() =~= s.drop_first());
    } else {
        assert(t[0] == s[0]);
        assert(t.drop_first() =~= s.drop_first().update(i - 1, (s[i].0, c)));
        assert(s.drop_first()[i - 1] == s[i]);
        lemma_lookup_count_update(s.drop_first(), i - 1, c, k2);
    }
}

/// The shared map from stack sample to how often it was recorded.
#[derive(Clone, Debug, Eq, PartialEq)]
pub struct SampleMap {
    pub entries: Vec<(Vec<u64>, u32)>,
}

impl SampleMap {
    /// No two entries hold the same sample.
    pub open spec fn wf(self) -> bool {
        forall|i: int, j: int|
            #![trigger self.entries@[i], self.entries@[j]]
            0 <= i < j < self.entries@.len() ==> self.entries@[i].0@ != self.entries@[j].0@
    }

    /// The count recorded for sample `k`, if any.
    pub open spec fn spec_get(self, k: Seq<u64>) -> Option<u32> {
        spec_lookup_count(self.entries@, k)
    }

    pub fn new() -> (r: SampleMap)
        ensures
            r.wf(),
            forall|k: Seq<u64>| r.spec_get(k) is None,
            r.entries@.len() == 0,
    {
        SampleMap { entries: Vec::new() }
    }

    /// How many entries the map holds.
    pub fn len(&self) -> (r: usize)
        ensures
            r == self.entries@.len(),
    {
        self.entries.len()
    }

    /// The position of the first entry holding `stack`, if any.
    fn find_key(&self, stack: &Vec<u64>) -> (r: Option<usize>)
        ensures
            match r {
                Some(i) => i < self.entries@.len() && self.entries@[i as int].0@ == stack@
                    && forall|q: int|
                    0 <= q < i ==> (#[trigger] self.entries@[q]).0@ != stack@,
                None => forall|q: int|
                    0 <= q < self.entries@.len() ==> (#[trigger] self.entries@[q]).0@ != stack@,
            },
    {
        let mut i: usize = 0;
        while i < self.entries.len()
            invariant
                i <= self.entries@.len(),
                forall|q: int| 0 <= q < i ==> (#[trigger] self.entries@[q]).0@ != stack@,
            decreases self.entries@.len() - i,
        {
            if keys_equal(&self.entries[i].0, stack) {
                return Some(i);
            }
            i += 1;
        }
        None
    }

    /// Reads the count for one sample. Reading borrows the map immutably:
    /// it cannot change any count, and rereading returns the same value.
    pub fn get(&self, stack: &Vec<u64>) -> (r: Option<u32>)
        ensures
            r == self.spec_get(stack@),
    {
        match self.find_key(stack) {
            Some(i) => {
                proof {
                    lemma_lookup_count_found(self.entries@, i as int, stack@);
                }
                Some(self.entries[i].1)
            }
            None => {
                proof {
                    lemma_lookup_count_absent(self.entries@, stack@);
                }
                None
            }
        }
    }

    /// The recorded entries. Every listed pair is live: its sample looks up
    /// to exactly its listed count.
    pub fn entries(&self) -> (r: &Vec<(Vec<u64>, u32)>)
        requires
            self.wf(),
        ensures
            r@ == self.entries@,
            forall|i: int|
                0 <= i < r@.len() ==> self.spec_get((#[trigger] r@[i]).0@) == Some(r@[i].1),
    {
        proof {
            assert forall|i: int|
                0 <= i < self.entries@.len() implies self.spec_get(
                (#[trigger] self.entries@[i]).0@,
            ) == Some(self.entries@[i].1) by {
                lemma_lookup_count_found(self.entries@, i, self.entries@[i].0@);
            }
        }
        &self.entries
    }

    /// Raises the count recorded for `stack` by one, starting a fresh sample
    /// at one; no other sample's count moves.
    pub fn increment(&mut self, stack: &Vec<u64>)
        requires
            old(self).wf(),
        ensures
            final(self).wf(),
            final(self).spec_get(stack@) == Some(bumped(old(self).spec_get(stack@))),
            forall|k: Seq<u64>|
                k != stack@ ==> #[trigger] final(self).spec_get(k) == old(self).spec_get(k),
    {
        let ghost before = self.entries@;
        match self.find_key(stack) {
            Some(i) => {
                proof {
                    lemma_lookup_count_found(before, i as int, stack@);
                }
                let (key, count) = self.entries.remove(i);
                let count2 = if count < u32::MAX {
                    count + 1
                } else {
                    count
                };
                self.entries.insert(i, (key, count2));
                proof {
                    assert(self.entries@ =~= before.update(i as int, (before[i as int].0, count2)));
                    lemma_lookup_count_update(before, i as int, count2, stack@);
                    assert forall|k: Seq<u64>| k != stack@ implies #[trigger] self.spec_get(k)
                        == old(self).spec_get(k) by {
                        lemma_lookup_count_update(before, i as int, count2, k);
                    }
                    assert forall|a: int, b: int|
                        #![trigger self.entries@[a], self.entries@[b]]
                        0 <= a < b < self.entries@.len() implies self.entries@[a].0@
                        != self.entries@[b].0@ by {
                        assert(self.entries@[a].0@ == before[a].0@);
                        assert(self.entries@[b].0@ == before[b].0@);
                    }
                }
            }
            None => {
                proof {
                    lemma_lookup_count_absent(before, stack@);
                }
                let key = copy_stack(stack);
                self.entries.insert(0, (key, 1));
                proof {
                    assert(self.entries@[0].1 == 1u32);
                    assert(self.entries@[0].0@ == stack@);
                    assert(self.entries@.drop_first() =~= before);
                    assert forall|k: Seq<u64>| k != stack@ implies #[trigger] self.spec_get(k)
                        == old(self).spec_get(k) by {
                        assert(self.entries@[0].0@ != k);
                    }
                    assert forall|a: int, b: int|
                        #![trigger self.entries@[a], self.entries@[b]]
                        0 <= a < b < self.entries@.len() implies self.entries@[a].0@
                        != self.entries@[b].0@ by {
                        if a == 0 {
                            assert(self.entries@[b] == before[b - 1]);
                        } else {
                            assert(self.entries@[a] == before[a - 1]);
                            assert(self.entries@[b] == before[b - 1]);
                        }
                    }
                }
            }
        }
    }
}

/// Whether two samples hold the same addresses.
fn keys_equal(a: &Vec<u64>, b: &Vec<u64>) -> (r: bool)
    ensures
        r == (a@ == b@),
{
    if a.len() != b.len() {
        return false;
    }
    let mut i: usize = 0;
    while i < a.len()
        invariant
            i <= a@.len(),
            a@.len() == b@.len(),
            forall|q: int| 0 <= q < i ==> a@[q] == b@[q],
        decreases a@.len() - i,
    {
        if a[i] != b[i] {
            return false;
        }
        i += 1;
    }
    proof {
        assert(a@ =~= b@);
    }
    true
}

/// A fresh vector holding the same addresses.
fn copy_stack(v: &Vec<u64>) -> (r: Vec<u64>)
    ensures
        r@ == v@,
{
    let mut r: Vec<u64> = Vec::new();
    let mut i: usize = 0;
    while i < v.len()
        invariant
            i <= v@.len(),
            r@ == v@.subrange(0, i as int),
        decreases v@.len() - i,
    {
        r.push(v[i]);
        proof {
            assert(r@ =~= v@.subrange(0, i + 1));
        }
        i += 1;
    }
    proof {
        assert(v@.subrange(0, v@.len() as int) =~= v@);
    }
    r
}

/// One probe fire: when the observed process is the traced one, walk its
/// stack and raise the recorded sample's count by one; otherwise record
/// nothing.
pub fn increment_stack_counter(
    current: PidTgid,
    regs: &Registers,
    map: &UnwindMap,
    mem: &Memory,
    pid: u32,
    samples: &mut SampleMap,
)
    requires
        map.wf(),
        old(samples).wf(),
    ensures
        final(samples).wf(),
        current.spec_pid() != pid ==> *final(samples) == *old(samples),
        current.spec_pid() == pid ==> final(samples).spec_get(spec_sample(*map, *mem, *regs))
            == Some(bumped(old(samples).spec_get(spec_sample(*map, *mem, *regs)))),
        current.spec_pid() == pid ==> forall|k: Seq<u64>|
            k != spec_sample(*map, *mem, *regs) ==> #[trigger] final(samples).spec_get(k) == old(
                samples,
            ).spec_get(k),
{
    if current.pid() == pid {
        let stack = backtrace(regs, map, mem);
        samples.increment(&stack);
    }
}

/// Aggregation idempotence: a count read is a pure function of the map, and
/// reading borrows the map immutably, so rereading an unchanged map yields
/// the identical count.
pub proof fn lemma_reads_agree(m: SampleMap, k: Seq<u64>, first: Option<u32>, second: Option<u32>)
    requires
        first == m.spec_get(k),
        second == m.spec_get(k),
    ensures
        first == second,
{
}

/// Entry point for a sampling event: the registers are the interrupted
/// user context.
pub fn perf_event(
    current: PidTgid,
    regs: &Registers,
    map: &UnwindMap,
    mem: &Memory,
    pid: u32,
    samples: &mut SampleMap,
)
    requires
        map.wf(),
        old(samples).wf(),
    ensures
        final(samples).wf(),
        current.spec_pid() != pid ==> *final(samples) == *old(samples),
        current.spec_pid() == pid ==> final(samples).spec_get(spec_sample(*map, *mem, *regs))
            == Some(bumped(old(samples).spec_get(spec_sample(*map, *mem, *regs)))),
{
    increment_stack_counter(current, regs, map, mem, pid, samples);
}

/// Entry point for a kernel-probe event: the registers are the probed
/// context.
pub fn kprobe(
    current: PidTgid,
    regs: &Registers,
    map: &UnwindMap,
    mem: &Memory,
    pid: u32,
    samples: &mut SampleMap,
)
    requires
        map.wf(),
        old(samples).wf(),
    ensures
        final(samples).wf(),
        current.spec_pid() != pid ==> *final(samples) == *old(samples),
        current.spec_pid() == pid ==> final(samples).spec_get(spec_sample(*map, *mem, *regs))
            == Some(bumped(old(samples).spec_get(spec_sample(*map, *mem, *regs)))),
{
    increment_stack_counter(current, regs, map, mem, pid, samples);
}

} // verus!

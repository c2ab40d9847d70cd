//! The in-probe walker: row location, instruction execution, full walks
//! and sample aggregation.

use cargo_trace::ehframe::{Instruction, Reg};
use cargo_trace::pid::PidTgid;
use cargo_trace::unwinder::{
    backtrace, binary_search, execute_instruction, increment_stack_counter, Memory, Registers,
    SampleMap, UnwindMap, MAX_STACK_DEPTH,
};

fn map_with_rows(rows: &[(u64, Instruction, Instruction)]) -> UnwindMap {
    let mut m = UnwindMap::new();
    for (pc, rip, rsp) in rows.iter() {
        m.pc.push(*pc);
        m.rip.push(*rip);
        m.rsp.push(*rsp);
    }
    m
}

#[test]
fn search_locates_predecessor() {
    let pc: Vec<u64> = vec![0x1000, 0x1010, 0x1040, 0x2000];
    assert_eq!(binary_search(&pc, 0x1000), 0);
    assert_eq!(binary_search(&pc, 0x100f), 0);
    assert_eq!(binary_search(&pc, 0x1010), 1);
    // An address in the gap between two rows lands on the predecessor.
    assert_eq!(binary_search(&pc, 0x1080), 2);
    assert_eq!(binary_search(&pc, 0x2000), 3);
    assert_eq!(binary_search(&pc, 0xffff_ffff), 3);
    // Below the first row the search names row zero.
    assert_eq!(binary_search(&pc, 0x10), 0);
}

#[test]
fn search_single_row() {
    let pc: Vec<u64> = vec![0x400];
    assert_eq!(binary_search(&pc, 0x0), 0);
    assert_eq!(binary_search(&pc, 0x400), 0);
    assert_eq!(binary_search(&pc, 0x500), 0);
}

#[test]
fn execute_register_and_memory_rules() {
    let mut mem = Memory::new();
    mem.insert_word(0x7f00, 0x4242);
    let regs = Registers {
        rip: 0x1000,
        rsp: 0x7ef8,
    };
    // rsp + 8 computes the CFA without a memory read.
    let cfa = execute_instruction(&Instruction::reg_offset(Reg::Rsp, 8), &regs, 0, &mem);
    assert_eq!(cfa, Some(0x7f00));
    // The return address is the word stored at CFA - 8.
    let rip = execute_instruction(&Instruction::cfa_offset(-8), &regs, 0x7f08, &mem);
    assert_eq!(rip, Some(0x4242));
    // A failed read yields nothing.
    let rip = execute_instruction(&Instruction::cfa_offset(-8), &regs, 0x9999, &mem);
    assert_eq!(rip, None);
    assert_eq!(
        execute_instruction(&Instruction::undef(), &regs, 0, &mem),
        None
    );
    assert_eq!(
        execute_instruction(&Instruction::unimpl(), &regs, 0, &mem),
        None
    );
    // Wrapping signed addition, as the sandbox computes it.
    let low = Registers { rip: 4, rsp: 4 };
    assert_eq!(
        execute_instruction(&Instruction::reg_offset(Reg::Rip, -8), &low, 0, &mem),
        Some(u64::MAX - 3)
    );
}

#[test]
fn walk_records_two_frames_and_zero_pads() {
    // One row covers everything: CFA = rsp + 8, return address at CFA - 8.
    let map = map_with_rows(&[(
        0x1000,
        Instruction::cfa_offset(-8),
        Instruction::reg_offset(Reg::Rsp, 8),
    )]);
    let mut mem = Memory::new();
    // Frame one: rsp 0x6ff8, so the CFA is 0x7000 and the return address
    // is read at 0x6ff8. Frame two's read at 0x7000 fails: end of stack.
    mem.insert_word(0x6ff8, 0x1020);
    let regs = Registers {
        rip: 0x1010,
        rsp: 0x6ff8,
    };
    let stack = backtrace(&regs, &map, &mem);
    assert_eq!(stack.len(), MAX_STACK_DEPTH);
    assert_eq!(stack[0], 0x1010);
    assert_eq!(stack[1], 0x1020);
    assert_eq!(stack[2], 0);
    // Stack terminator: once zero appears, everything after is zero.
    let first_zero = stack.iter().position(|v| *v == 0).unwrap();
    assert!(stack[first_zero..].iter().all(|v| *v == 0));
}

#[test]
fn walk_stops_on_unimplemented_rule() {
    let map = map_with_rows(&[(
        0x1000,
        Instruction::cfa_offset(-8),
        Instruction::unimpl(),
    )]);
    let mem = Memory::new();
    let regs = Registers {
        rip: 0x1004,
        rsp: 0x7000,
    };
    let stack = backtrace(&regs, &map, &mem);
    assert_eq!(stack[0], 0x1004);
    assert!(stack[1..].iter().all(|v| *v == 0));
}

#[test]
fn walk_stops_when_pointer_repeats() {
    // The recovered return address equals the current one: stop rather
    // than loop.
    let map = map_with_rows(&[(
        0x1000,
        Instruction::reg_offset(Reg::Rip, 0),
        Instruction::reg_offset(Reg::Rsp, 0),
    )]);
    let mem = Memory::new();
    let regs = Registers {
        rip: 0x1004,
        rsp: 0x7000,
    };
    let stack = backtrace(&regs, &map, &mem);
    assert_eq!(stack[0], 0x1004);
    assert!(stack[1..].iter().all(|v| *v == 0));
}

#[test]
fn sample_counts_aggregate() {
    let mut samples = SampleMap::new();
    let a: Vec<u64> = vec![1, 2, 3];
    let b: Vec<u64> = vec![4, 5, 6];
    samples.increment(&a);
    samples.increment(&b);
    samples.increment(&a);
    assert_eq!(samples.get(&a), Some(2));
    assert_eq!(samples.get(&b), Some(1));
    assert_eq!(samples.get(&vec![7]), None);
    assert_eq!(samples.len(), 2);
}

#[test]
fn three_reads() {
    // Aggregation idempotence: reading does not mutate, rereading agrees.
    let mut samples = SampleMap::new();
    let key: Vec<u64> = vec![10, 20, 0];
    samples.increment(&key);
    let first = samples.get(&key);
    let second = samples.get(&key);
    let third = samples.get(&key);
    assert_eq!(first, Some(1));
    assert_eq!(first, second);
    assert_eq!(second, third);
    assert_eq!(samples.entries().len(), 1);
    assert_eq!(samples.entries().len(), 1);
}

#[test]
fn counter_honours_pid_filter() {
    let map = map_with_rows(&[(
        0x1000,
        Instruction::cfa_offset(-8),
        Instruction::reg_offset(Reg::Rsp, 8),
    )]);
    let mem = Memory::new();
    let regs = Registers {
        rip: 0x1004,
        rsp: 0x7000,
    };
    let mut samples = SampleMap::new();
    let current = PidTgid(55u64 << 32);
    assert_eq!(current.pid(), 55);
    increment_stack_counter(current, &regs, &map, &mem, 99, &mut samples);
    assert_eq!(samples.len(), 0);
    increment_stack_counter(current, &regs, &map, &mem, 55, &mut samples);
    assert_eq!(samples.len(), 1);
    let mut expected = vec![0u64; MAX_STACK_DEPTH];
    expected[0] = 0x1004;
    assert_eq!(samples.get(&expected), Some(1));
}

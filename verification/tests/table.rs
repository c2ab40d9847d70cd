//! Building unwind tables from rule rows, flattening them into the shared
//! map, and the wire round trip of packed instructions.

use cargo_trace::ehframe::{
    CfaRule, FrameRow, Instruction, Op, Reg, RegisterRule, UnwindTable, UnwindTableRow,
};
use cargo_trace::format::{pack_instruction, unpack_instruction, Header, MAGIC_NUMBER};
use cargo_trace::unwinder::UnwindMap;

fn row(start: usize, end: usize, ra: RegisterRule, cfa: CfaRule) -> FrameRow {
    FrameRow { start_address: start, end_address: end, ra, cfa }
}

#[test]
fn lowering_keeps_offset_rules() {
    let r = UnwindTableRow::parse(&row(
        0x10,
        0x20,
        RegisterRule::Offset(-8),
        CfaRule::RegisterAndOffset { register: 7, offset: 16 },
    ));
    assert_eq!(r.start_address, 0x10);
    assert_eq!(r.end_address, 0x20);
    assert_eq!(r.rip, Instruction::cfa_offset(-8));
    assert_eq!(r.rsp, Instruction::reg_offset(Reg::Rsp, 16));
    assert!(r.rip.is_defined());
    assert!(r.rsp.is_implemented());
}

#[test]
fn lowering_drops_rich_rules() {
    let r = UnwindTableRow::parse(&row(
        0,
        8,
        RegisterRule::Unsupported,
        CfaRule::RegisterAndOffset { register: 3, offset: 0 },
    ));
    // An unknown register and an unsupported rule both lower to the stop
    // instruction.
    assert_eq!(r.rip, Instruction::unimpl());
    assert_eq!(r.rsp, Instruction::unimpl());
    let r = UnwindTableRow::parse(&row(0, 8, RegisterRule::Undefined, CfaRule::Unsupported));
    assert_eq!(r.rip, Instruction::undef());
    assert!(!r.rip.is_defined());
    assert!(r.rip.is_implemented());
    assert_eq!(r.rsp, Instruction::unimpl());
}

#[test]
fn table_rows_sort_and_deduplicate() {
    let ra = RegisterRule::Offset(-8);
    let cfa = CfaRule::RegisterAndOffset { register: 7, offset: 8 };
    let rows = vec![
        row(0x30, 0x40, ra, cfa),
        row(0x10, 0x20, ra, cfa),
        row(0x20, 0x30, ra, cfa),
        // A second row sharing a start address: the first one met stays.
        row(0x10, 0x18, RegisterRule::Undefined, cfa),
    ];
    let t = UnwindTable::parse(&rows);
    assert_eq!(t.rows.len(), 3);
    assert_eq!(t.rows[0].start_address, 0x10);
    assert_eq!(t.rows[1].start_address, 0x20);
    assert_eq!(t.rows[2].start_address, 0x30);
    // Row ordering: strictly increasing start addresses.
    for w in t.rows.windows(2) {
        assert!(w[0].start_address < w[1].start_address);
    }
    // The duplicate that came later lost.
    assert_eq!(t.rows[0].end_address, 0x20);
}

#[test]
fn tables_flatten_into_the_shared_map() {
    let ra = RegisterRule::Offset(-8);
    let cfa = CfaRule::RegisterAndOffset { register: 7, offset: 8 };
    let t1 = UnwindTable::parse(&vec![row(0x10, 0x20, ra, cfa), row(0x20, 0x30, ra, cfa)]);
    let t2 = UnwindTable::parse(&vec![row(0x0, 0x8, ra, cfa)]);
    let mut m = UnwindMap::new();
    assert!(m.can_append(0x1000, &t1));
    m.push_table(0x1000, &t1);
    // A table whose shifted rows would not stay above the present ones is
    // refused before anything is written.
    assert!(!m.can_append(0x500, &t2));
    assert!(m.can_append(0x8000, &t2));
    m.push_table(0x8000, &t2);
    assert_eq!(m.len(), 3);
    assert_eq!(m.pc, vec![0x1010, 0x1020, 0x8000]);
    assert_eq!(m.binary_search(0x1015), 0);
    assert_eq!(m.binary_search(0x9000), 2);
}

#[test]
fn packed_instruction_round_trip() {
    // A synthetic register-plus-offset rule survives the wire shape with
    // the same operation, register and offset.
    let ins = Instruction::reg_offset(Reg::Rsp, 8);
    let packed = pack_instruction(&ins);
    assert_eq!(packed.op, 3);
    assert_eq!(packed.reg, 2);
    assert_eq!(packed.offset, 8);
    let back = unpack_instruction(&packed);
    assert_eq!(back, ins);
    assert_eq!(back.op(), Op::Register);
    assert_eq!(back.reg(), Some(Reg::Rsp));
    assert_eq!(back.offset(), Some(8));

    let ins = Instruction::cfa_offset(-16);
    assert_eq!(unpack_instruction(&pack_instruction(&ins)), ins);
    let ins = Instruction::undef();
    assert_eq!(unpack_instruction(&pack_instruction(&ins)), ins);
}

#[test]
fn header_layout() {
    let regs: [u8; 2] = [16, 15];
    let h = Header::new(4, &regs);
    assert_eq!(h.magic(), MAGIC_NUMBER);
    assert_eq!(h.len(), 4);
    assert_eq!(h.width(), 24);
    assert_eq!(h.row_size(), 32);
    assert_eq!(h.register(16), Some(0));
    assert_eq!(h.register(15), Some(1));
    // Every unused slot holds zero, so a zero code lands on the first one.
    assert_eq!(h.register(0), Some(2));
    assert_eq!(h.register(77), None);
    // Header, one address column, and twenty-four instruction columns.
    assert_eq!(h.size(), Some(41 + 25 * 32));
}

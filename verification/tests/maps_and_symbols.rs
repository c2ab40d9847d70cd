//! The process address map and symbol resolution.

use cargo_trace::elf::{BuildId, SymbolEntry, SymbolTable};
use cargo_trace::kallsyms::{parse_kallsyms_line, KernelSymbol, KernelSymbolTable};
use cargo_trace::maps::{parse_maps_line, AddressEntry, AddressMap};

fn region(path: &str, start: usize, end: usize) -> AddressEntry {
    AddressEntry { path: path.into(), start_addr: start, end_addr: end }
}

#[test]
fn test_maps() {
    let lines = [
        "555555554000-555555558000 r--p 00000000 08:05 131 /bin/target",
        "555555558000-55555555c000 r-xp 00004000 08:05 131 /bin/target",
        "7ffff7dc0000-7ffff7de0000 r-xp 00000000 08:05 7 /lib/libc.so",
        "7ffffffde000-7ffffffff000 rw-p 00000000 00:00 0 ",
    ];
    let mut regions = Vec::new();
    for line in lines.iter() {
        if let Some((start, end, path)) = parse_maps_line(line) {
            if !path.is_empty() {
                regions.push(AddressEntry { path, start_addr: start, end_addr: end });
            }
        }
    }
    let maps = AddressMap::load(&regions);
    for entry in maps.iter() {
        println!("{:x}-{:x} {}", entry.start_addr, entry.end_addr, entry.path);
    }
}

#[test]
fn maps_lines_parse_or_skip() {
    assert_eq!(
        parse_maps_line("1000-2000 r--p 0 08:05 1 /bin/a"),
        Some((0x1000, 0x2000, "/bin/a".into()))
    );
    assert_eq!(parse_maps_line("nodash here"), None);
    assert_eq!(parse_maps_line("nospace"), None);
    assert_eq!(parse_maps_line("10zz-2000 x /p"), None);
}

#[test]
fn contiguous_regions_consolidate() {
    let regions = vec![
        region("/bin/a", 0x1000, 0x2000),
        region("/bin/a", 0x2000, 0x3000),
        region("/lib/b", 0x5000, 0x6000),
        region("/lib/b", 0x6000, 0x7000),
        region("/bin/a", 0x9000, 0xa000),
    ];
    let maps = AddressMap::load(&regions);
    let entries = maps.iter();
    assert_eq!(entries.len(), 3);
    assert_eq!(entries[0], region("/bin/a", 0x1000, 0x3000));
    assert_eq!(entries[1], region("/lib/b", 0x5000, 0x7000));
    assert_eq!(entries[2], region("/bin/a", 0x9000, 0xa000));
    // Address-map exclusivity: no two entries overlap.
    for w in entries.windows(2) {
        assert!(w[0].end_addr <= w[1].start_addr);
    }
}

#[test]
fn entry_lookup_picks_the_containing_range() {
    let maps = AddressMap::load(&vec![
        region("/bin/a", 0x1000, 0x2000),
        region("/lib/b", 0x5000, 0x6000),
    ]);
    assert_eq!(maps.entry(0x1800).unwrap().path, "/bin/a");
    assert_eq!(maps.entry(0x5000).unwrap().path, "/lib/b");
    assert!(maps.entry(0x4000).is_none());
    assert!(maps.entry(0x7000).is_none());
    assert!(maps.entry(0x10).is_none());
}

#[test]
fn symbols_resolve_by_name_and_address() {
    let table = SymbolTable {
        symbols: vec![
            SymbolEntry { name: "main".into(), address: 0x1000, size: 0x100 },
            SymbolEntry { name: "helper".into(), address: 0x1040, size: 0x20 },
        ],
    };
    assert_eq!(table.resolve_symbol("main", 0), Ok(Some(0x1000)));
    assert_eq!(table.resolve_symbol("main", 0x20), Ok(Some(0x1020)));
    assert_eq!(table.resolve_symbol("absent", 0), Ok(None));
    // An offset at or past the symbol's size is out of range.
    let fault = table.resolve_symbol("helper", 0x20).unwrap_err();
    assert_eq!(fault.0, "helper");
    assert_eq!(fault.1, 0x20);
    // The innermost covering symbol wins.
    assert_eq!(table.resolve_address(0x1050).unwrap().as_str(), "helper");
    assert_eq!(table.resolve_address(0x1004).unwrap().as_str(), "main");
    assert!(table.resolve_address(0x2000).is_none());
}

#[test]
fn build_id_prints_lowercase_hex() {
    let bytes: [u8; 20] = [
        0x00, 0x01, 0x0a, 0x10, 0xff, 0xde, 0xad, 0xbe, 0xef, 0x42, 0x00, 0x00, 0x00, 0x00,
        0x00, 0x00, 0x00, 0x00, 0x00, 0x01,
    ];
    let id = BuildId::new(&bytes);
    assert_eq!(id.to_hex(), "00010a10ffdeadbeef4200000000000000000001");
}

#[test]
fn kernel_symbols_resolve_with_offset() {
    let table = KernelSymbolTable {
        symbols: vec![
            KernelSymbol { symbol: "_text".into(), address: 0x1000 },
            KernelSymbol { symbol: "do_sys_open".into(), address: 0x2000 },
            KernelSymbol { symbol: "vfs_read".into(), address: 0x3000 },
        ],
    };
    let (name, offset) = table.symbol(0x2010);
    assert_eq!(name.as_str(), "do_sys_open");
    assert_eq!(offset, 0x10);
    let (name, offset) = table.symbol(0x1000);
    assert_eq!(name.as_str(), "_text");
    assert_eq!(offset, 0);
    let (name, _) = table.symbol(0x9999);
    assert_eq!(name.as_str(), "vfs_read");
}

#[test]
fn kallsyms_lines_parse() {
    assert_eq!(
        parse_kallsyms_line("ffffffff81000000 T startup_64"),
        Some((0xffffffff81000000usize, "startup_64".into()))
    );
    assert_eq!(
        parse_kallsyms_line("ffffffff81234560 t helper [module]"),
        Some((0xffffffff81234560usize, "helper".into()))
    );
    assert_eq!(parse_kallsyms_line("zz T broken"), None);
    assert_eq!(parse_kallsyms_line("ffffffff81000000"), None);
}

//! Symbol resolution over an image's static symbol table, and build ids.
//!
//! The surrounding application extracts each image's symbols once; the
//! lookups by name and by address, with their range checks, live here.

use crate::text::{hex_char, hex_digit_str};
use vstd::prelude::*;

verus! {

/// A symbol lookup asked for an offset beyond the symbol's recorded size.
#[derive(Clone, Debug, Eq, Hash, PartialEq)]
pub struct OffsetOutOfRange(pub String, pub usize);

/// A build identifier: twenty opaque bytes.
#[derive(Clone, Copy, Debug, Eq, Hash, PartialEq)]
pub struct BuildId(pub [u8; 20]);

/// The lower-case, two-digits-per-byte rendering of a byte string.
pub open spec fn spec_bytes_hex(s: Seq<u8>) -> Seq<char>
    decreases s.len(),
{
    if s.len() == 0 {
        Seq::empty()
    } else {
        spec_bytes_hex(s.drop_last()) + seq![
            hex_char((s.last() / 16) as nat),
            hex_char((s.last() % 16) as nat),
        ]
    }
}

impl BuildId {
    /// Wraps the twenty identifier bytes.
    pub fn new(build_id: &[u8]) -> (r: BuildId)
        requires
            build_id@.len() == 20,
        ensures
            r.0@ == build_id@,
    {
        let mut array: [u8; 20] = [0; 20];
        let mut i: usize = 0;
        while i < 20
            invariant
                i <= 20,
                build_id@.len() == 20,
                array@.len() == 20,
                forall|q: int| 0 <= q < i ==> array@[q] == build_id@[q],
            decreases 20 - i,
        {
            array[i] = build_id[i];
            i += 1;
        }
        proof {
            assert(array@ =~= build_id@);
        }
        BuildId(array)
    }

    /// The identifier as lower-case hexadecimal, two digits per byte.
    pub fn to_hex(&self) -> (r: String)
        ensures
            r@ == spec_bytes_hex(self.0@),
    {
        let mut s = String::new();
        let mut i: usize = 0;
        proof {
            assert(self.0@.subrange(0, 0) =~= Seq::<u8>::empty());
        }
        while i < 20
            invariant
                i <= 20,
                self.0@.len() == 20,
                s@ == spec_bytes_hex(self.0@.subrange(0, i as int)),
            decreases 20 - i,
        {
            let b = self.0[i];
            s.append(hex_digit_str((b / 16) as u64));
            s.append(hex_digit_str((b % 16) as u64));
            proof {
                let part = self.0@.subrange(0, i + 1);
                assert(part.drop_last() =~= self.0@.subrange(0, i as int));
                assert(part.last() == self.0@[i as int]);
                assert(s@ =~= spec_bytes_hex(part));
            }
            i += 1;
        }
        proof {
            assert(self.0@.subrange(0, 20) =~= self.0@);
        }
        s
    }
}

/// One entry of an image's static symbol table.
#[derive(Clone, Debug, Eq, Hash, PartialEq)]
pub struct SymbolEntry {
    pub name: String,
    pub address: usize,
    pub size: usize,
}

/// The static symbol table of one image.
#[derive(Clone, Debug, Eq, PartialEq)]
pub struct SymbolTable {
    pub symbols: Vec<SymbolEntry>,
}

/// The first table entry named `name`, scanning in table order.
pub open spec fn spec_find_symbol(s: Seq<SymbolEntry>, name: Seq<char>) -> Option<SymbolEntry>
    decreases s.len(),
{
    if s.len() == 0 {
        None
    } else if s[0].name@ == name {
        Some(s[0])
    } else {
        spec_find_symbol(s.drop_first(), name)
    }
}

/// Whether a symbol's half-open address range holds `address`.
pub open spec fn symbol_covers(e: SymbolEntry, address: usize) -> bool {
    e.address <= address < e.address + e.size
}

/// Of two symbols covering an address, the one starting later is the
/// innermost; at an equal start the smaller one wins.
pub open spec fn symbol_inner(a: SymbolEntry, b: SymbolEntry) -> bool {
    a.address > b.address || (a.address == b.address && a.size < b.size)
}

/// The innermost table entry covering `address`: a fold over the table
/// keeping the better candidate.
pub open spec fn spec_resolve_address(s: Seq<SymbolEntry>, address: usize) -> Option<SymbolEntry>
    decreases s.len(),
{
    if s.len() == 0 {
        None
    } else {
        let rest = spec_resolve_address(s.drop_last(), address);
        let cur = s.last();
        if symbol_covers(cur, address) {
            match rest {
                None => Some(cur),
                Some(best) => if symbol_inner(cur, best) {
                    Some(cur)
                } else {
                    Some(best)
                },
            }
        } else {
            rest
        }
    }
}

impl SymbolTable {
    /// Every symbol's range stays within the address space.
    pub open spec fn wf(self) -> bool {
        forall|i: int|
            0 <= i < self.symbols@.len() ==> (#[trigger] self.symbols@[i]).address
                + self.symbols@[i].size <= usize::MAX
    }

    /// Resolves a symbol name plus offset to an address. The offset must
    /// fall inside the symbol's recorded size; past it the lookup fails
    /// with [`OffsetOutOfRange`]. An unknown name resolves to nothing.
    pub fn resolve_symbol(&self, symbol: &str, offset: usize) -> (r: Result<
        Option<usize>,
        OffsetOutOfRange,
    >)
        requires
            self.wf(),
        ensures
            match r {
                Ok(Some(address)) => exists|e: SymbolEntry|
                    spec_find_symbol(self.symbols@, symbol@) == Some(e) && offset < e.size
                        && address == e.address + offset,
                Ok(None) => spec_find_symbol(self.symbols@, symbol@) is None,
                Err(fault) => exists|e: SymbolEntry|
                    spec_find_symbol(self.symbols@, symbol@) == Some(e) && offset >= e.size
                        && fault.0@ == symbol@ && fault.1 == offset,
            },
    {
        let mut i: usize = 0;
        proof {
            assert(self.symbols@.skip(0) =~= self.symbols@);
        }
        while i < self.symbols.len()
            invariant
                i <= self.symbols@.len(),
                self.wf(),
                spec_find_symbol(self.symbols@.skip(i as int), symbol@) == spec_find_symbol(
                    self.symbols@,
                    symbol@,
                ),
            decreases self.symbols@.len() - i,
        {
            proof {
                assert(self.symbols@.skip(i as int)[0] == self.symbols@[i as int]);
                assert(self.symbols@.skip(i as int).drop_first() =~= self.symbols@.skip(i + 1));
            }
            if crate::text::str_eq(self.symbols[i].name.as_str(), symbol) {
                if offset < self.symbols[i].size {
                    return Ok(Some(self.symbols[i].address + offset));
                } else {
                    return Err(OffsetOutOfRange(symbol.to_owned(), offset));
                }
            }
            i += 1;
        }
        proof {
            assert(self.symbols@.skip(i as int) =~= Seq::<SymbolEntry>::empty());
        }
        Ok(None)
    }

    /// Resolves an address to the name of the innermost symbol whose range
    /// holds it.
    pub fn resolve_address(&self, address: usize) -> (r: Option<&String>)
        requires
            self.wf(),
        ensures
            match r {
                Some(nm) => exists|e: SymbolEntry|
                    spec_resolve_address(self.symbols@, address) == Some(e) && nm@ == e.name@,
                None => spec_resolve_address(self.symbols@, address) is None,
            },
    {
        let mut best: Option<usize> = None;
        let mut i: usize = 0;
        proof {
            assert(self.symbols@.subrange(0, 0) =~= Seq::<SymbolEntry>::empty());
        }
        while i < self.symbols.len()
            invariant
                i <= self.symbols@.len(),
                self.wf(),
                match best {
                    Some(b) => b < i && spec_resolve_address(
                        self.symbols@.subrange(0, i as int),
                        address,
                    ) == Some(self.symbols@[b as int]),
                    None => spec_resolve_address(self.symbols@.subrange(0, i as int), address)
                        is None,
                },
            decreases self.symbols@.len() - i,
        {
            let e = &self.symbols[i];
            proof {
                let part = self.symbols@.subrange(0, i + 1);
                assert(part.drop_last() =~= self.symbols@.subrange(0, i as int));
                assert(part.last() == self.symbols@[i as int]);
            }
            let covers = e.address <= address && address - e.address < e.size;
            if covers {
                match best {
                    None => {
                        best = Some(i);
                    }
                    Some(b) => {
                        let bb = &self.symbols[b];
                        if e.address > bb.address || (e.address == bb.address && e.size
                            < bb.size) {
                            best = Some(i);
                        }
                    }
                }
            }
            i += 1;
        }
        proof {
            assert(self.symbols@.subrange(0, self.symbols@.len() as int) =~= self.symbols@);
        }
        match best {
            Some(b) => {
                proof {
                    let w = self.symbols@[b as int];
                    assert(spec_resolve_address(self.symbols@, address) == Some(w));
                    assert(self.symbols@[b as int].name@ == w.name@);
                }
                Some(&self.symbols[b].name)
            }
            None => None,
        }
    }
}

} // verus!

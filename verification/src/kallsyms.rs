//! The kernel's symbol table: address-sorted names, looked up by the
//! closest symbol at or below an address.

use crate::text::{find_char, parse_hex_usize, spec_find, spec_parse_hex_usize};
use vstd::prelude::*;

verus! {

/// One kernel symbol: a name and the address it starts at.
#[derive(Clone, Debug, Eq, Hash, PartialEq)]
pub struct KernelSymbol {
    pub symbol: String,
    pub address: usize,
}

/// The address-sorted kernel symbol table.
#[derive(Clone, Debug, Eq, PartialEq)]
pub struct KernelSymbolTable {
    pub symbols: Vec<KernelSymbol>,
}

/// What one kernel symbol line parses to: a hexadecimal address, a type
/// field, and the name after it, up to the next space if any.
pub open spec fn spec_parse_kallsyms_line(s: Seq<char>) -> Option<(usize, Seq<char>)> {
    let sp1 = spec_find(s, ' ');
    if sp1 < 0 {
        None
    } else {
        match spec_parse_hex_usize(s.subrange(0, sp1)) {
            None => None,
            Some(address) => {
                let rest = s.subrange(sp1 + 1, s.len() as int);
                let sp2 = spec_find(rest, ' ');
                if sp2 < 0 {
                    None
                } else {
                    let tail = rest.subrange(sp2 + 1, rest.len() as int);
                    let sp3 = spec_find(tail, ' ');
                    let name = if sp3 < 0 {
                        tail
                    } else {
                        tail.subrange(0, sp3)
                    };
                    Some((address, name))
                }
            }
        }
    }
}

/// Parses one kernel symbol line, exactly as [`spec_parse_kallsyms_line`]
/// says. The line is expected without its trailing newline.
pub fn parse_kallsyms_line(line: &str) -> (r: Option<(usize, String)>)
    ensures
        match r {
            Some(p) => spec_parse_kallsyms_line(line@) == Some((p.0, p.1@)),
            None => spec_parse_kallsyms_line(line@) is None,
        },
{
    let len = line.unicode_len();
    let sp1 = match find_char(line, ' ') {
        Some(i) => i,
        None => {
            return None;
        }
    };
    let address = match parse_hex_usize(line.substring_char(0, sp1)) {
        Some(a) => a,
        None => {
            return None;
        }
    };
    let rest = line.substring_char(sp1 + 1, len);
    let rest_len = rest.unicode_len();
    let sp2 = match find_char(rest, ' ') {
        Some(i) => i,
        None => {
            return None;
        }
    };
    let tail = rest.substring_char(sp2 + 1, rest_len);
    let tail_len = tail.unicode_len();
    let name = match find_char(tail, ' ') {
        Some(sp3) => tail.substring_char(0, sp3),
        None => tail,
    };
    Some((address, name.to_owned()))
}

impl KernelSymbolTable {
    /// Symbols are strictly sorted by address.
    pub open spec fn wf(self) -> bool {
        forall|i: int, j: int|
            #![trigger self.symbols@[i], self.symbols@[j]]
            0 <= i < j < self.symbols@.len() ==> self.symbols@[i].address
                < self.symbols@[j].address
    }

    /// The symbol an address falls in: the closest symbol starting at or
    /// below it, and how far into it the address lies.
    pub fn symbol(&self, address: usize) -> (r: (&String, usize))
        requires
            self.wf(),
            self.symbols@.len() > 0,
            self.symbols@[0].address <= address,
        ensures
            exists|i: int|
                0 <= i < self.symbols@.len() && (#[trigger] self.symbols@[i]).address <= address
                    && r.0@ == self.symbols@[i].symbol@ && r.1 == address
                    - self.symbols@[i].address && forall|j: int|
                    i < j < self.symbols@.len() ==> (#[trigger] self.symbols@[j]).address
                        > address,
    {
        let mut lo: usize = 0;
        let mut hi: usize = self.symbols.len();
        while lo + 1 < hi
            invariant
                0 <= lo < hi <= self.symbols@.len(),
                self.wf(),
                self.symbols@.len() > 0,
                self.symbols@[lo as int].address <= address,
                forall|q: int|
                    hi <= q < self.symbols@.len() ==> (#[trigger] self.symbols@[q]).address
                        > address,
            decreases hi - lo,
        {
            let mid = lo + (hi - lo) / 2;
            if self.symbols[mid].address <= address {
                lo = mid;
            } else {
                hi = mid;
                proof {
                    assert forall|q: int|
                        hi <= q < self.symbols@.len() implies (
                    #[trigger] self.symbols@[q]).address > address by {
                        if q > mid {
                            assert(self.symbols@[mid as int].address < self.symbols@[q].address);
                        }
                    }
                }
            }
        }
        proof {
            assert forall|j: int|
                lo < j < self.symbols@.len() implies (#[trigger] self.symbols@[j]).address
                > address by {
                assert(j >= hi || j == lo + 1);
            }
        }
        let ksym = &self.symbols[lo];
        (&ksym.symbol, address - ksym.address)
    }
}

} // verus!

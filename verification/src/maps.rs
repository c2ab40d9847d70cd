//! The process address map: one entry per mapped image, consolidated from
//! the kernel's per-process region list.
//!
//! Each text line of the region list gives a half-open address range and a
//! backing path. Contiguous regions of the same file merge into one
//! [`AddressEntry`]; the entries end up sorted by start address and
//! mutually exclusive: no two ranges overlap.

use crate::text::{
    find_char, parse_hex_usize, rfind_char, spec_find, spec_parse_hex_usize, spec_rfind, str_eq,
};
use vstd::prelude::*;

verus! {

/// One contiguous range of a mapped image.
#[derive(Clone, Debug, Eq, Hash, PartialEq)]
pub struct AddressEntry {
    pub path: String,
    pub start_addr: usize,
    pub end_addr: usize,
}

/// The consolidated, address-sorted map of a process.
#[derive(Clone, Debug, Eq, PartialEq)]
pub struct AddressMap {
    pub map: Vec<AddressEntry>,
}

/// What one region-list line parses to: the two hexadecimal bounds of its
/// leading `start-end` field and the text after its last space. A line
/// without a space, without a dash in its first field, or with unreadable
/// bounds yields nothing and is skipped.
pub open spec fn spec_parse_maps_line(s: Seq<char>) -> Option<(usize, usize, Seq<char>)> {
    let sp = spec_find(s, ' ');
    if sp < 0 {
        None
    } else {
        let addr = s.subrange(0, sp);
        let path = s.subrange(spec_rfind(s, ' ') + 1, s.len() as int);
        let d = spec_find(addr, '-');
        if d < 0 {
            None
        } else {
            match spec_parse_hex_usize(addr.subrange(0, d)) {
                None => None,
                Some(start) => match spec_parse_hex_usize(
                    addr.subrange(d + 1, addr.len() as int),
                ) {
                    None => None,
                    Some(end) => Some((start, end, path)),
                },
            }
        }
    }
}

/// Parses one region-list line, exactly as [`spec_parse_maps_line`] says.
pub fn parse_maps_line(line: &str) -> (r: Option<(usize, usize, String)>)
    ensures
        match r {
            Some(p) => spec_parse_maps_line(line@) == Some((p.0, p.1, p.2@)),
            None => spec_parse_maps_line(line@) is None,
        },
{
    let len = line.unicode_len();
    let sp = match find_char(line, ' ') {
        Some(sp) => sp,
        None => {
            return None;
        }
    };
    let last_sp = match rfind_char(line, ' ') {
        Some(p) => p,
        None => {
            proof {
                crate::text::lemma_find(line@, ' ');
                crate::text::lemma_rfind(line@, ' ');
                assert(line@[spec_find(line@, ' ')] == ' ');
            }
            return None;
        }
    };
    let addr = line.substring_char(0, sp);
    let path = line.substring_char(last_sp + 1, len);
    let d = match find_char(addr, '-') {
        Some(d) => d,
        None => {
            return None;
        }
    };
    let addr_len = addr.unicode_len();
    let start = match parse_hex_usize(addr.substring_char(0, d)) {
        Some(v) => v,
        None => {
            return None;
        }
    };
    let end = match parse_hex_usize(addr.substring_char(d + 1, addr_len)) {
        Some(v) => v,
        None => {
            return None;
        }
    };
    Some((start, end, path.to_owned()))
}

/// Whether an entry's range contains `address`, both bounds inclusive, as
/// the lookup treats ranges.
pub open spec fn entry_contains(e: AddressEntry, address: usize) -> bool {
    e.start_addr <= address <= e.end_addr
}

/// The consolidated map a region list folds into: each region either
/// extends the entry before it, when it is backed by the same file, or
/// starts a new entry.
pub open spec fn spec_consolidate(regions: Seq<AddressEntry>) -> Seq<AddressEntry>
    decreases regions.len(),
{
    if regions.len() == 0 {
        Seq::empty()
    } else {
        let rest = spec_consolidate(regions.drop_last());
        let cur = regions.last();
        if rest.len() > 0 && rest.last().path@ == cur.path@ {
            rest.update(
                rest.len() - 1,
                AddressEntry {
                    path: rest.last().path,
                    start_addr: rest.last().start_addr,
                    end_addr: cur.end_addr,
                },
            )
        } else {
            rest.push(cur)
        }
    }
}

/// An address-ordered region list: each region spans forward and ends at
/// or before the next one starts.
pub open spec fn spec_regions_ordered(regions: Seq<AddressEntry>) -> bool {
    &&& forall|q: int|
        0 <= q < regions.len() ==> (#[trigger] regions[q]).start_addr < regions[q].end_addr
    &&& forall|q: int|
        0 <= q < regions.len() - 1 ==> (#[trigger] regions[q]).end_addr <= regions[q
            + 1].start_addr
}

/// Tests whether a region list is address-ordered, so a caller can hold
/// the consolidation's precondition.
pub fn regions_ordered(regions: &Vec<AddressEntry>) -> (r: bool)
    ensures
        r == spec_regions_ordered(regions@),
{
    let mut q: usize = 0;
    while q < regions.len()
        invariant
            q <= regions@.len(),
            forall|p: int|
                0 <= p < q ==> (#[trigger] regions@[p]).start_addr < regions@[p].end_addr,
            forall|p: int|
                0 <= p < q && p + 1 < regions@.len() ==> (#[trigger] regions@[p]).end_addr
                    <= regions@[p + 1].start_addr,
        decreases regions@.len() - q,
    {
        if regions[q].start_addr >= regions[q].end_addr {
            return false;
        }
        if q + 1 < regions.len() {
            if regions[q].end_addr > regions[q + 1].start_addr {
                return false;
            }
        }
        q += 1;
    }
    true
}

/// Consolidating an ordered region list keeps the entries sorted, forward
/// and mutually exclusive, and the last entry ends where the last region
/// does.
proof fn lemma_consolidate_wf(regions: Seq<AddressEntry>)
    requires
        spec_regions_ordered(regions),
    ensures
        ({
            let m = spec_consolidate(regions);
            &&& forall|i: int| 0 <= i < m.len() ==> (#[trigger] m[i]).start_addr < m[i].end_addr
            &&& forall|i: int, j: int|
                #![trigger m[i], m[j]]
                0 <= i < j < m.len() ==> m[i].end_addr <= m[j].start_addr
            &&& m.len() > 0 <==> regions.len() > 0
            &&& m.len() > 0 ==> m.last().end_addr == regions.last().end_addr
        }),
    decreases regions.len(),
{
    if regions.len() > 0 {
        let front = regions.drop_last();
        assert(spec_regions_ordered(front)) by {
            assert forall|q: int|
                0 <= q < front.len() implies (#[trigger] front[q]).start_addr
                < front[q].end_addr by {
                assert(front[q] == regions[q]);
            }
            assert forall|q: int|
                0 <= q < front.len() - 1 implies (#[trigger] front[q]).end_addr <= front[q
                + 1].start_addr by {
                assert(front[q] == regions[q]);
                assert(front[q + 1] == regions[q + 1]);
            }
        }
        lemma_consolidate_wf(front);
        let rest = spec_consolidate(front);
        let cur = regions.last();
        let m = spec_consolidate(regions);
        if regions.len() >= 2 {
            assert(front.last() == regions[regions.len() - 2]);
            assert(regions[regions.len() - 2].end_addr <= cur.start_addr);
        }
        if rest.len() > 0 && rest.last().path@ == cur.path@ {
            let li = rest.len() - 1;
            assert(m == rest.update(li, AddressEntry {
                path: rest.last().path,
                start_addr: rest.last().start_addr,
                end_addr: cur.end_addr,
            }));
            assert(rest.last().end_addr == front.last().end_addr);
            assert(rest.last().start_addr < rest.last().end_addr);
            assert(rest.last().end_addr <= cur.start_addr < cur.end_addr);
            assert forall|i: int| 0 <= i < m.len() implies (#[trigger] m[i]).start_addr
                < m[i].end_addr by {
                if i < li {
                    assert(m[i] == rest[i]);
                }
            }
            assert forall|i: int, j: int|
                #![trigger m[i], m[j]]
                0 <= i < j < m.len() implies m[i].end_addr <= m[j].start_addr by {
                assert(m[i] == rest[i]);
                if j < li {
                    assert(m[j] == rest[j]);
                }
            }
        } else {
            assert(m == rest.push(cur));
            if rest.len() > 0 {
                assert(rest.last().end_addr <= cur.start_addr);
            }
            assert forall|i: int| 0 <= i < m.len() implies (#[trigger] m[i]).start_addr
                < m[i].end_addr by {
                if i < m.len() - 1 {
                    assert(m[i] == rest[i]);
                }
            }
            assert forall|i: int, j: int|
                #![trigger m[i], m[j]]
                0 <= i < j < m.len() implies m[i].end_addr <= m[j].start_addr by {
                assert(m[i] == rest[i]);
                if j < m.len() - 1 {
                    assert(m[j] == rest[j]);
                } else {
                    assert(rest[i].end_addr <= rest.last().start_addr || i == rest.len() - 1);
                    assert(rest[i].start_addr < rest[i].end_addr);
                }
            }
        }
    }
}

impl AddressMap {
    /// Entries are sorted by start address, each spans forward, and no two
    /// ranges overlap: every entry ends at or before the next one starts.
    pub open spec fn wf(self) -> bool {
        &&& forall|i: int|
            0 <= i < self.map@.len() ==> (#[trigger] self.map@[i]).start_addr
                < self.map@[i].end_addr
        &&& forall|i: int, j: int|
            #![trigger self.map@[i], self.map@[j]]
            0 <= i < j < self.map@.len() ==> self.map@[i].end_addr <= self.map@[j].start_addr
    }

    /// Consolidates an address-ordered region list: adjacent regions of the
    /// same file merge into one entry. The result is exactly
    /// [`spec_consolidate`], and it is well formed.
    pub fn load(regions: &Vec<AddressEntry>) -> (r: AddressMap)
        requires
            spec_regions_ordered(regions@),
        ensures
            r.map@ == spec_consolidate(regions@),
            r.wf(),
    {
        let mut r = AddressMap { map: Vec::new() };
        let mut j: usize = 0;
        proof {
            assert(regions@.subrange(0, 0) =~= Seq::<AddressEntry>::empty());
        }
        while j < regions.len()
            invariant
                j <= regions@.len(),
                r.map@ == spec_consolidate(regions@.subrange(0, j as int)),
            decreases regions@.len() - j,
        {
            let cur = &regions[j];
            let n = r.map.len();
            let ghost prev = r.map@;
            proof {
                assert(regions@.subrange(0, j + 1).drop_last() =~= regions@.subrange(0, j as int));
                assert(regions@.subrange(0, j + 1).last() == regions@[j as int]);
            }
            let mut merged = false;
            if n > 0 {
                if str_eq(r.map[n - 1].path.as_str(), cur.path.as_str()) {
                    merged = true;
                }
            }
            if merged {
                let mut last = match r.map.pop() {
                    Some(e) => e,
                    None => {
                        proof {
                            assert(false);
                        }
                        AddressEntry { path: String::new(), start_addr: 0, end_addr: 0 }
                    }
                };
                last.end_addr = cur.end_addr;
                r.map.push(last);
                proof {
                    assert(r.map@ =~= prev.update(
                        prev.len() - 1,
                        AddressEntry {
                            path: prev.last().path,
                            start_addr: prev.last().start_addr,
                            end_addr: cur.end_addr,
                        },
                    ));
                }
            } else {
                r.map.push(
                    AddressEntry {
                        path: cur.path.clone(),
                        start_addr: cur.start_addr,
                        end_addr: cur.end_addr,
                    },
                );
                proof {
                    assert(r.map@ =~= prev.push(*cur));
                }
            }
            j += 1;
        }
        proof {
            assert(regions@.subrange(0, regions@.len() as int) =~= regions@);
            lemma_consolidate_wf(regions@);
        }
        r
    }

    /// The consolidated entries, in start-address order.
    pub fn iter(&self) -> (r: &Vec<AddressEntry>)
        ensures
            r@ == self.map@,
    {
        &self.map
    }

    /// The entry whose range contains `address`: a binary search picks the
    /// closest entry at or below it, and the address must fall inside.
    pub fn entry(&self, address: usize) -> (r: Option<&AddressEntry>)
        requires
            self.wf(),
        ensures
            match r {
                Some(e) => exists|i: int|
                    0 <= i < self.map@.len() && *e == self.map@[i] && entry_contains(*e, address),
                None => forall|i: int|
                    0 <= i < self.map@.len() ==> !entry_contains(#[trigger] self.map@[i], address),
            },
    {
        if self.map.len() == 0 {
            return None;
        }
        let mut lo: usize = 0;
        let mut hi: usize = self.map.len();
        // After the search, `lo` names the last entry starting at or below
        // the address, or entry zero when every entry starts above it.
        while lo + 1 < hi
            invariant
                0 <= lo < hi <= self.map@.len(),
                self.wf(),
                self.map@.len() > 0,
                forall|q: int|
                    hi <= q < self.map@.len() ==> (#[trigger] self.map@[q]).start_addr > address,
                self.map@[lo as int].start_addr <= address || lo == 0,
            decreases hi - lo,
        {
            let mid = lo + (hi - lo) / 2;
            if self.map[mid].start_addr <= address {
                lo = mid;
            } else {
                hi = mid;
                proof {
                    assert forall|q: int|
                        hi <= q < self.map@.len() implies (#[trigger] self.map@[q]).start_addr
                        > address by {
                        if q > mid {
                            assert(self.map@[mid as int].end_addr <= self.map@[q].start_addr);
                            assert(self.map@[mid as int].start_addr
                                < self.map@[mid as int].end_addr);
                        }
                    }
                }
            }
        }
        let e = &self.map[lo];
        if address < e.start_addr || address > e.end_addr {
            proof {
                assert forall|i: int|
                    0 <= i < self.map@.len() implies !entry_contains(
                    #[trigger] self.map@[i],
                    address,
                ) by {
                    if i < lo {
                        assert(self.map@[i].end_addr <= self.map@[lo as int].start_addr);
                    }
                    if i > lo {
                        assert(self.map@[i].start_addr > address || i >= hi || i == lo + 1);
                        if i == lo + 1 && i < hi {
                            assert(false);
                        }
                    }
                }
            }
            None
        } else {
            Some(e)
        }
    }
}

/// Address-map exclusivity: in a well-formed map no two entries overlap:
/// the earlier of any two entries ends at or before the later one starts.
pub proof fn lemma_entries_exclusive(m: AddressMap, i: int, j: int)
    requires
        m.wf(),
        0 <= i < j < m.map@.len(),
    ensures
        m.map@[i].end_addr <= m.map@[j].start_addr,
{
}

} // verus!

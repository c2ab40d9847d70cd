//! Turning aggregated samples into text: collapsed flamegraph lines and
//! plain backtrace listings.

use crate::text::{spec_dec_digits, u64_to_dec, usize_to_dec};
use vstd::prelude::*;

verus! {

/// Deepest stack the kernel's own stack walker records.
pub const BPF_MAX_STACK_DEPTH: usize = 127;

/// A raw stack as the kernel records it: addresses with a zero tail.
#[derive(Clone, Copy, Debug, Eq, Hash, PartialEq)]
pub struct BpfStackFrames {
    pub ip: [u64; 127],
}

/// The leading non-zero addresses of a recorded stack.
pub open spec fn spec_nonzero_prefix(s: Seq<u64>) -> Seq<u64>
    decreases s.len(),
{
    if s.len() == 0 {
        Seq::empty()
    } else if s[0] == 0 {
        Seq::empty()
    } else {
        seq![s[0]] + spec_nonzero_prefix(s.drop_first())
    }
}

impl BpfStackFrames {
    /// The recorded addresses up to the zero terminator.
    pub fn iter(&self) -> (r: Vec<u64>)
        ensures
            r@ == spec_nonzero_prefix(self.ip@),
    {
        let mut r: Vec<u64> = Vec::new();
        let mut i: usize = 0;
        proof {
            assert(self.ip@.skip(0) =~= self.ip@);
            assert(r@ + spec_nonzero_prefix(self.ip@) =~= spec_nonzero_prefix(self.ip@));
        }
        while i < 127
            invariant
                i <= 127,
                self.ip@.len() == 127,
                spec_nonzero_prefix(self.ip@) == r@ + spec_nonzero_prefix(
                    self.ip@.skip(i as int),
                ),
                forall|q: int| 0 <= q < i ==> self.ip@[q] != 0,
            decreases 127 - i,
        {
            let v = self.ip[i];
            proof {
                assert(self.ip@.skip(i as int)[0] == self.ip@[i as int]);
                assert(self.ip@.skip(i as int).drop_first() =~= self.ip@.skip(i + 1));
            }
            if v == 0 {
                proof {
                    assert(spec_nonzero_prefix(self.ip@.skip(i as int)) =~= Seq::<u64>::empty());
                    assert(r@ + Seq::<u64>::empty() =~= r@);
                }
                return r;
            }
            let ghost before = r@;
            r.push(v);
            proof {
                assert(before + (seq![self.ip@[i as int]] + spec_nonzero_prefix(
                    self.ip@.skip(i + 1),
                )) =~= r@ + spec_nonzero_prefix(self.ip@.skip(i + 1)));
            }
            i += 1;
        }
        proof {
            assert(self.ip@.skip(127) =~= Seq::<u64>::empty());
            assert(r@ + Seq::<u64>::empty() =~= r@);
        }
        r
    }
}

/// The character sequences of a list of strings.
pub open spec fn views_of(s: Seq<String>) -> Seq<Seq<char>> {
    Seq::new(s.len(), |i: int| s[i]@)
}

/// Symbols joined by `;` from root to leaf: the last symbol handed in - the
/// outermost frame - comes first.
pub open spec fn spec_join_rev(syms: Seq<Seq<char>>) -> Seq<char>
    decreases syms.len(),
{
    if syms.len() == 0 {
        Seq::empty()
    } else if syms.len() == 1 {
        syms[0]
    } else {
        syms.last() + seq![';'] + spec_join_rev(syms.drop_last())
    }
}

/// One collapsed flamegraph line: the symbols root-first, a space, the
/// count.
pub open spec fn spec_collapsed_line(syms: Seq<Seq<char>>, count: u32) -> Seq<char> {
    spec_join_rev(syms) + seq![' '] + spec_dec_digits(count as nat)
}

/// Renders one collapsed flamegraph line for a stack's symbols - leaf
/// first, as the walker recorded them - and its sample count.
pub fn collapsed_line(symbols: &Vec<String>, count: u32) -> (r: String)
    ensures
        r@ == spec_collapsed_line(views_of(symbols@), count),
{
    proof {
        reveal_strlit(";");
        reveal_strlit(" ");
        assert(";"@ =~= seq![';']);
        assert(" "@ =~= seq![' ']);
    }
    let mut s = String::new();
    let mut k: usize = symbols.len();
    proof {
        assert(views_of(symbols@).subrange(0, k as int) =~= views_of(symbols@));
        assert(s@ + spec_join_rev(views_of(symbols@)) =~= spec_join_rev(views_of(symbols@)));
    }
    while k > 0
        invariant
            k <= symbols@.len(),
            spec_join_rev(views_of(symbols@)) == s@ + spec_join_rev(
                views_of(symbols@).subrange(0, k as int),
            ),
        decreases k,
    {
        let ghost part = views_of(symbols@).subrange(0, k as int);
        let ghost before = s@;
        s.append(symbols[k - 1].as_str());
        if k - 1 > 0 {
            s.append(";");
        }
        proof {
            reveal_strlit(";");
            assert(";"@ =~= seq![';']);
            assert(part.last() == symbols@[k - 1]@);
            let rest = views_of(symbols@).subrange(0, k - 1);
            if k > 1 {
                assert(part.drop_last() =~= rest);
                assert(spec_join_rev(part) == part.last() + seq![';'] + spec_join_rev(rest));
                assert(s@ =~= before + symbols@[k - 1]@ + ";"@);
                assert((before + symbols@[k - 1]@ + ";"@) + spec_join_rev(rest) =~= before + (
                symbols@[k - 1]@ + seq![';'] + spec_join_rev(rest)));
                assert(s@ + spec_join_rev(rest) == before + spec_join_rev(part));
            } else {
                assert(rest =~= Seq::<Seq<char>>::empty());
                assert(spec_join_rev(rest) =~= Seq::<char>::empty());
                assert(spec_join_rev(part) == part[0]);
                assert(s@ + spec_join_rev(rest) =~= before + spec_join_rev(part));
            }
        }
        k -= 1;
    }
    proof {
        assert(views_of(symbols@).subrange(0, 0) =~= Seq::<Seq<char>>::empty());
        assert(s@ =~= spec_join_rev(views_of(symbols@)));
    }
    s.append(" ");
    let d = u64_to_dec(count as u64);
    s.append(d.as_str());
    proof {
        assert(s@ =~= spec_collapsed_line(views_of(symbols@), count));
    }
    s
}

/// One heading line of a stack listing: the frame index, a colon, the
/// symbol.
pub open spec fn spec_frame_line(index: usize, symbol: Seq<char>) -> Seq<char> {
    spec_dec_digits(index as nat) + seq![':', ' '] + symbol
}

/// Renders one frame heading of a stack listing.
pub fn frame_line(index: usize, symbol: &str) -> (r: String)
    ensures
        r@ == spec_frame_line(index, symbol@),
{
    proof {
        reveal_strlit(": ");
    }
    let mut s = usize_to_dec(index);
    s.append(": ");
    s.append(symbol);
    proof {
        assert(s@ =~= spec_frame_line(index, symbol@));
    }
    s
}

/// The `at file:line:column` tail of a listed frame, with only the parts
/// that resolved.
pub open spec fn spec_location_line(
    file: Seq<char>,
    line: Option<u64>,
    column: Option<u64>,
) -> Seq<char> {
    "    at "@ + file + (match line {
        Some(l) => seq![':'] + spec_dec_digits(l as nat),
        None => Seq::<char>::empty(),
    }) + (match column {
        Some(c) => seq![':'] + spec_dec_digits(c as nat),
        None => Seq::<char>::empty(),
    })
}

/// Renders the location tail of a listed frame.
pub fn location_line(file: &str, line: Option<u64>, column: Option<u64>) -> (r: String)
    ensures
        r@ == spec_location_line(file@, line, column),
{
    proof {
        reveal_strlit("    at ");
        reveal_strlit(":");
    }
    let mut s = String::new();
    s.append("    at ");
    s.append(file);
    match line {
        Some(l) => {
            s.append(":");
            let d = u64_to_dec(l);
            s.append(d.as_str());
        }
        None => {}
    }
    match column {
        Some(c) => {
            s.append(":");
            let d = u64_to_dec(c);
            s.append(d.as_str());
        }
        None => {}
    }
    proof {
        assert(s@ =~= spec_location_line(file@, line, column));
    }
    s
}

} // verus!

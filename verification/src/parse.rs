//! Parsing of the colon-separated probe grammar.
//!
//! `Probe::parse_str` reads exactly the language that `Probe::to_text`
//! writes, and more: symbols may carry `+offset` suffixes, watchpoint
//! addresses may carry a `0x` prefix, and event names may be abbreviated by
//! their aliases. Parsing a printed probe always gives the probe back; the
//! lemmas at the end state that round trip precisely.

use crate::probe::{
    spec_hw_name, spec_print_count, spec_print_interval, spec_print_mode, spec_print_offset,
    spec_print_probe, spec_sw_name, HardwareEvent, Interval, Mode, Probe, ProbeView,
    SoftwareEvent,
};
use crate::text::{
    all_dec_digits, is_dec_digit, lemma_dec_digits, lemma_find, lemma_find_is, lemma_hex_digits,
    lemma_rfind, lemma_rfind_is, lemma_strip_of_hex_digits, parse_u64, parse_usize,
    parse_hex_usize, spec_dec_digits, spec_find, spec_hex_digits, spec_parse_hex_usize,
    spec_parse_u64, spec_parse_usize, spec_rfind, spec_strip_hex_prefix, strip_hex_prefix,
    find_char, rfind_char, str_eq,
};
use vstd::prelude::*;

verus! {

/// Why a probe text was rejected.
#[derive(Clone, Debug, Eq, Hash, PartialEq)]
pub enum ProbeParseError {
    /// A field is missing; the payload shows the expected shape.
    Expected(&'static str),
    /// The probe type is not one of the grammar.
    UnsupportedProbe(String),
    /// The unit or event name is not one of the grammar.
    UnsupportedUnit(String),
    /// A numeric field did not parse as a number.
    ParseInt,
}

/// The mathematical shape of a parse failure.
pub enum ParseFault {
    Expected(Seq<char>),
    UnsupportedProbe(Seq<char>),
    UnsupportedUnit(Seq<char>),
    ParseInt,
}

impl View for ProbeParseError {
    type V = ParseFault;

    open spec fn view(&self) -> ParseFault {
        match self {
            ProbeParseError::Expected(s) => ParseFault::Expected(s@),
            ProbeParseError::UnsupportedProbe(s) => ParseFault::UnsupportedProbe(s@),
            ProbeParseError::UnsupportedUnit(s) => ParseFault::UnsupportedUnit(s@),
            ProbeParseError::ParseInt => ParseFault::ParseInt,
        }
    }
}

/// Splits at the first `c`: the part before it and the part after it.
pub open spec fn spec_split_first(s: Seq<char>, c: char) -> Option<(Seq<char>, Seq<char>)> {
    let i = spec_find(s, c);
    if i < 0 {
        None
    } else {
        Some((s.subrange(0, i), s.subrange(i + 1, s.len() as int)))
    }
}

/// Splits at the last `c`: the part before it and the part after it.
pub open spec fn spec_split_last(s: Seq<char>, c: char) -> Option<(Seq<char>, Seq<char>)> {
    let i = spec_rfind(s, c);
    if i < 0 {
        None
    } else {
        Some((s.subrange(0, i), s.subrange(i + 1, s.len() as int)))
    }
}

/// What parsing `unit:value` yields.
pub open spec fn spec_parse_interval(s: Seq<char>) -> Result<Interval, ParseFault> {
    match spec_split_first(s, ':') {
        None => Err(ParseFault::Expected("unit:value"@)),
        Some((unit, value)) => match spec_parse_u64(value) {
            None => Err(ParseFault::ParseInt),
            Some(v) => if unit == "hz"@ {
                Ok(Interval::Hz(v))
            } else if unit == "s"@ {
                Ok(Interval::Seconds(v))
            } else if unit == "ms"@ {
                Ok(Interval::Millis(v))
            } else if unit == "us"@ {
                Ok(Interval::Micros(v))
            } else {
                Err(ParseFault::UnsupportedUnit(unit))
            },
        },
    }
}

/// One step of mode parsing: fold the next access letter into `m`.
pub open spec fn spec_parse_mode_from(s: Seq<char>, m: Mode) -> Result<Mode, ParseFault>
    decreases s.len(),
{
    if s.len() == 0 {
        Ok(m)
    } else if s[0] == 'r' {
        spec_parse_mode_from(s.drop_first(), Mode { read: true, ..m })
    } else if s[0] == 'w' {
        spec_parse_mode_from(s.drop_first(), Mode { write: true, ..m })
    } else if s[0] == 'x' {
        spec_parse_mode_from(s.drop_first(), Mode { execute: true, ..m })
    } else {
        Err(ParseFault::Expected("rwx"@))
    }
}

/// What parsing a watchpoint mode yields: any subset of `rwx`, letters in
/// any order, repeats allowed.
pub open spec fn spec_parse_mode(s: Seq<char>) -> Result<Mode, ParseFault> {
    spec_parse_mode_from(s, Mode { read: false, write: false, execute: false })
}

/// What parsing a software event name or alias yields.
pub open spec fn spec_parse_sw(s: Seq<char>) -> Option<SoftwareEvent> {
    if s == "alignment-faults"@ {
        Some(SoftwareEvent::AlignmentFaults)
    } else if s == "bpf-output"@ {
        Some(SoftwareEvent::BpfOutput)
    } else if s == "context-switches"@ || s == "cs"@ {
        Some(SoftwareEvent::ContextSwitches)
    } else if s == "cpu-clock"@ || s == "cpu"@ {
        Some(SoftwareEvent::CpuClock)
    } else if s == "cpu-migrations"@ {
        Some(SoftwareEvent::CpuMigrations)
    } else if s == "dummy"@ {
        Some(SoftwareEvent::Dummy)
    } else if s == "emulation-faults"@ {
        Some(SoftwareEvent::EmulationFaults)
    } else if s == "major-faults"@ {
        Some(SoftwareEvent::MajorFaults)
    } else if s == "minor-faults"@ {
        Some(SoftwareEvent::MinorFaults)
    } else if s == "page-faults"@ || s == "faults"@ {
        Some(SoftwareEvent::PageFaults)
    } else if s == "task-clock"@ {
        Some(SoftwareEvent::TaskClock)
    } else {
        None
    }
}

/// What parsing a hardware event name or alias yields.
pub open spec fn spec_parse_hw(s: Seq<char>) -> Option<HardwareEvent> {
    if s == "backend-stalls"@ {
        Some(HardwareEvent::BackendStalls)
    } else if s == "branch-instructions"@ || s == "branches"@ {
        Some(HardwareEvent::BranchInstructions)
    } else if s == "branch-misses"@ {
        Some(HardwareEvent::BranchMisses)
    } else if s == "bus-cycles"@ {
        Some(HardwareEvent::BusCycles)
    } else if s == "cache-misses"@ {
        Some(HardwareEvent::CacheMisses)
    } else if s == "cache-references"@ {
        Some(HardwareEvent::CacheReferences)
    } else if s == "cpu-cycles"@ || s == "cycles"@ {
        Some(HardwareEvent::CpuCycles)
    } else if s == "frontend-stalls"@ {
        Some(HardwareEvent::FrontendStalls)
    } else if s == "instructions"@ {
        Some(HardwareEvent::Instructions)
    } else if s == "ref-cycles"@ {
        Some(HardwareEvent::RefCycles)
    } else {
        None
    }
}

/// What parsing `symbol[+offset]` yields.
pub open spec fn spec_symbol_offset(args: Seq<char>) -> Result<(Seq<char>, usize), ParseFault> {
    match spec_split_first(args, '+') {
        None => Ok((args, 0usize)),
        Some((sym, off)) => match spec_parse_usize(off) {
            Some(o) => Ok((sym, o)),
            None => Err(ParseFault::ParseInt),
        },
    }
}

/// The optional count after an event: absent when the text is empty.
pub open spec fn spec_parse_count(s: Seq<char>) -> Result<Option<u64>, ParseFault> {
    if s.len() == 0 {
        Ok(None)
    } else {
        match spec_parse_u64(s) {
            Some(c) => Ok(Some(c)),
            None => Err(ParseFault::ParseInt),
        }
    }
}

/// What parsing a whole probe text yields: the probe, or the first fault
/// met, reading the fields in the order the grammar lists them.
pub open spec fn spec_parse_probe(s: Seq<char>) -> Result<ProbeView, ParseFault> {
    match spec_split_first(s, ':') {
        None => Err(ParseFault::Expected("probe_type:probe_args"@)),
        Some((ty, args)) => if ty == "kprobe"@ {
            match spec_symbol_offset(args) {
                Ok((sym, off)) => Ok(ProbeView::Kprobe { symbol: sym, offset: off }),
                Err(e) => Err(e),
            }
        } else if ty == "kretprobe"@ {
            Ok(ProbeView::Kretprobe { symbol: args })
        } else if ty == "uprobe"@ {
            match spec_split_last(args, ':') {
                None => Err(ParseFault::Expected("uprobe:path:symbol"@)),
                Some((path, symtext)) => match spec_symbol_offset(symtext) {
                    Ok((sym, off)) => Ok(
                        ProbeView::Uprobe { path: Some(path), symbol: sym, offset: off },
                    ),
                    Err(e) => Err(e),
                },
            }
        } else if ty == "uretprobe"@ {
            match spec_split_last(args, ':') {
                None => Err(ParseFault::Expected("uretprobe:path:symbol"@)),
                Some((path, sym)) => Ok(ProbeView::Uretprobe { path: Some(path), symbol: sym }),
            }
        } else if ty == "usdt"@ {
            match spec_split_last(args, ':') {
                None => Err(ParseFault::Expected("usdt:path:probe"@)),
                Some((path, probe)) => Ok(ProbeView::Usdt { path: Some(path), probe }),
            }
        } else if ty == "tracepoint"@ {
            match spec_split_first(args, ':') {
                None => Err(ParseFault::Expected("tracepoint:category:name"@)),
                Some((category, name)) => Ok(ProbeView::Tracepoint { category, name }),
            }
        } else if ty == "profile"@ {
            match spec_parse_interval(args) {
                Ok(iv) => Ok(ProbeView::Profile { interval: iv }),
                Err(e) => Err(e),
            }
        } else if ty == "interval"@ {
            match spec_parse_interval(args) {
                Ok(iv) => Ok(ProbeView::Interval { interval: iv }),
                Err(e) => Err(e),
            }
        } else if ty == "software"@ {
            match spec_split_first(args, ':') {
                None => Err(ParseFault::Expected("software:event:count"@)),
                Some((ev, cnt)) => match spec_parse_sw(ev) {
                    None => Err(ParseFault::UnsupportedUnit(ev)),
                    Some(e) => match spec_parse_count(cnt) {
                        Ok(count) => Ok(ProbeView::Software { event: e, count }),
                        Err(f) => Err(f),
                    },
                },
            }
        } else if ty == "hardware"@ {
            match spec_split_first(args, ':') {
                None => Err(ParseFault::Expected("hardware:event:count"@)),
                Some((ev, cnt)) => match spec_parse_hw(ev) {
                    None => Err(ParseFault::UnsupportedUnit(ev)),
                    Some(e) => match spec_parse_count(cnt) {
                        Ok(count) => Ok(ProbeView::Hardware { event: e, count }),
                        Err(f) => Err(f),
                    },
                },
            }
        } else if ty == "watchpoint"@ {
            match spec_split_first(args, ':') {
                None => Err(ParseFault::Expected("watchpoint:address:length:mode"@)),
                Some((addr_text, rest)) => match spec_split_first(rest, ':') {
                    None => Err(ParseFault::Expected("watchpoint:address:length:mode"@)),
                    Some((len_text, mode_text)) => match spec_parse_usize(len_text) {
                        None => Err(ParseFault::ParseInt),
                        Some(l) => match spec_parse_mode(mode_text) {
                            Err(f) => Err(f),
                            Ok(m) => match spec_parse_hex_usize(
                                spec_strip_hex_prefix(addr_text),
                            ) {
                                None => Err(ParseFault::ParseInt),
                                Some(a) => Ok(
                                    ProbeView::Watchpoint { address: a, length: l, mode: m },
                                ),
                            },
                        },
                    },
                },
            }
        } else if ty == "kfunc"@ {
            Ok(ProbeView::Kfunc { func: args })
        } else if ty == "kretfunc"@ {
            Ok(ProbeView::Kretfunc { func: args })
        } else {
            Err(ParseFault::UnsupportedProbe(ty))
        },
    }
}

impl Interval {
    /// Parses `unit:value`, exactly as [`spec_parse_interval`] says.
    pub fn parse_str(s: &str) -> (r: Result<Interval, ProbeParseError>)
        ensures
            r is Ok <==> spec_parse_interval(s@) is Ok,
            r is Ok ==> r->Ok_0 == spec_parse_interval(s@)->Ok_0,
            r is Err ==> (r->Err_0)@ == spec_parse_interval(s@)->Err_0,
    {
        let len = s.unicode_len();
        let i = match find_char(s, ':') {
            Some(i) => i,
            None => {
                return Err(ProbeParseError::Expected("unit:value"));
            }
        };
        let unit = s.substring_char(0, i);
        let value = s.substring_char(i + 1, len);
        let v = match parse_u64(value) {
            Some(v) => v,
            None => {
                return Err(ProbeParseError::ParseInt);
            }
        };
        if str_eq(unit, "hz") {
            Ok(Interval::Hz(v))
        } else if str_eq(unit, "s") {
            Ok(Interval::Seconds(v))
        } else if str_eq(unit, "ms") {
            Ok(Interval::Millis(v))
        } else if str_eq(unit, "us") {
            Ok(Interval::Micros(v))
        } else {
            Err(ProbeParseError::UnsupportedUnit(unit.to_owned()))
        }
    }
}

impl Mode {
    /// Parses a subset of `rwx`, exactly as [`spec_parse_mode`] says.
    pub fn parse_str(s: &str) -> (r: Result<Mode, ProbeParseError>)
        ensures
            r is Ok <==> spec_parse_mode(s@) is Ok,
            r is Ok ==> r->Ok_0 == spec_parse_mode(s@)->Ok_0,
            r is Err ==> (r->Err_0)@ == spec_parse_mode(s@)->Err_0,
    {
        let len = s.unicode_len();
        let mut m = Mode { read: false, write: false, execute: false };
        let mut i: usize = 0;
        proof {
            assert(s@.skip(0) =~= s@);
        }
        while i < len
            invariant
                len == s@.len(),
                0 <= i <= len,
                spec_parse_mode(s@) == spec_parse_mode_from(s@.skip(i as int), m),
            decreases len - i,
        {
            let c = s.get_char(i);
            proof {
                assert(s@.skip(i as int)[0] == s@[i as int]);
                assert(s@.skip(i as int).drop_first() =~= s@.skip(i + 1));
            }
            if c == 'r' {
                m = Mode { read: true, ..m };
            } else if c == 'w' {
                m = Mode { write: true, ..m };
            } else if c == 'x' {
                m = Mode { execute: true, ..m };
            } else {
                return Err(ProbeParseError::Expected("rwx"));
            }
            i += 1;
        }
        proof {
            assert(s@.skip(len as int) =~= Seq::<char>::empty());
        }
        Ok(m)
    }
}

/// Parses a software event name or alias, exactly as [`spec_parse_sw`] says.
fn parse_sw_event(s: &str) -> (r: Option<SoftwareEvent>)
    ensures
        r == spec_parse_sw(s@),
{
    if str_eq(s, "alignment-faults") {
        Some(SoftwareEvent::AlignmentFaults)
    } else if str_eq(s, "bpf-output") {
        Some(SoftwareEvent::BpfOutput)
    } else if str_eq(s, "context-switches") || str_eq(s, "cs") {
        Some(SoftwareEvent::ContextSwitches)
    } else if str_eq(s, "cpu-clock") || str_eq(s, "cpu") {
        Some(SoftwareEvent::CpuClock)
    } else if str_eq(s, "cpu-migrations") {
        Some(SoftwareEvent::CpuMigrations)
    } else if str_eq(s, "dummy") {
        Some(SoftwareEvent::Dummy)
    } else if str_eq(s, "emulation-faults") {
        Some(SoftwareEvent::EmulationFaults)
    } else if str_eq(s, "major-faults") {
        Some(SoftwareEvent::MajorFaults)
    } else if str_eq(s, "minor-faults") {
        Some(SoftwareEvent::MinorFaults)
    } else if str_eq(s, "page-faults") || str_eq(s, "faults") {
        Some(SoftwareEvent::PageFaults)
    } else if str_eq(s, "task-clock") {
        Some(SoftwareEvent::TaskClock)
    } else {
        None
    }
}

/// Parses a hardware event name or alias, exactly as [`spec_parse_hw`] says.
fn parse_hw_event(s: &str) -> (r: Option<HardwareEvent>)
    ensures
        r == spec_parse_hw(s@),
{
    if str_eq(s, "backend-stalls") {
        Some(HardwareEvent::BackendStalls)
    } else if str_eq(s, "branch-instructions") || str_eq(s, "branches") {
        Some(HardwareEvent::BranchInstructions)
    } else if str_eq(s, "branch-misses") {
        Some(HardwareEvent::BranchMisses)
    } else if str_eq(s, "bus-cycles") {
        Some(HardwareEvent::BusCycles)
    } else if str_eq(s, "cache-misses") {
        Some(HardwareEvent::CacheMisses)
    } else if str_eq(s, "cache-references") {
        Some(HardwareEvent::CacheReferences)
    } else if str_eq(s, "cpu-cycles") || str_eq(s, "cycles") {
        Some(HardwareEvent::CpuCycles)
    } else if str_eq(s, "frontend-stalls") {
        Some(HardwareEvent::FrontendStalls)
    } else if str_eq(s, "instructions") {
        Some(HardwareEvent::Instructions)
    } else if str_eq(s, "ref-cycles") {
        Some(HardwareEvent::RefCycles)
    } else {
        None
    }
}

/// Parses `symbol[+offset]`, exactly as [`spec_symbol_offset`] says.
fn parse_symbol_offset(args: &str) -> (r: Result<(String, usize), ProbeParseError>)
    ensures
        r is Ok <==> spec_symbol_offset(args@) is Ok,
        r is Ok ==> (r->Ok_0.0)@ == spec_symbol_offset(args@)->Ok_0.0 && r->Ok_0.1
            == spec_symbol_offset(args@)->Ok_0.1,
        r is Err ==> (r->Err_0)@ == spec_symbol_offset(args@)->Err_0,
{
    let len = args.unicode_len();
    match find_char(args, '+') {
        None => Ok((args.to_owned(), 0)),
        Some(j) => {
            let sym = args.substring_char(0, j);
            let off_text = args.substring_char(j + 1, len);
            match parse_usize(off_text) {
                Some(o) => Ok((sym.to_owned(), o)),
                None => Err(ProbeParseError::ParseInt),
            }
        }
    }
}

/// The optional count after an event, exactly as [`spec_parse_count`] says.
fn parse_count(s: &str) -> (r: Result<Option<u64>, ProbeParseError>)
    ensures
        r is Ok <==> spec_parse_count(s@) is Ok,
        r is Ok ==> r->Ok_0 == spec_parse_count(s@)->Ok_0,
        r is Err ==> (r->Err_0)@ == spec_parse_count(s@)->Err_0,
{
    if s.unicode_len() == 0 {
        return Ok(None);
    }
    match parse_u64(s) {
        Some(c) => Ok(Some(c)),
        None => Err(ProbeParseError::ParseInt),
    }
}

impl Probe {
    /// Parses a probe text, exactly as [`spec_parse_probe`] says: `Ok` on
    /// precisely the texts of the grammar, and the grammar's own fault on
    /// every other text.
    pub fn parse_str(s: &str) -> (r: Result<Probe, ProbeParseError>)
        ensures
            r is Ok <==> spec_parse_probe(s@) is Ok,
            r is Ok ==> (r->Ok_0)@ == spec_parse_probe(s@)->Ok_0,
            r is Err ==> (r->Err_0)@ == spec_parse_probe(s@)->Err_0,
    {
        let len = s.unicode_len();
        let i = match find_char(s, ':') {
            Some(i) => i,
            None => {
                return Err(ProbeParseError::Expected("probe_type:probe_args"));
            }
        };
        let ty = s.substring_char(0, i);
        let args = s.substring_char(i + 1, len);
        let args_len = args.unicode_len();
        if str_eq(ty, "kprobe") {
            match parse_symbol_offset(args) {
                Ok((symbol, offset)) => Ok(Probe::Kprobe { symbol, offset }),
                Err(e) => Err(e),
            }
        } else if str_eq(ty, "kretprobe") {
            Ok(Probe::Kretprobe { symbol: args.to_owned() })
        } else if str_eq(ty, "uprobe") {
            match rfind_char(args, ':') {
                None => Err(ProbeParseError::Expected("uprobe:path:symbol")),
                Some(j) => {
                    let path = args.substring_char(0, j);
                    let symtext = args.substring_char(j + 1, args_len);
                    match parse_symbol_offset(symtext) {
                        Ok((symbol, offset)) => Ok(
                            Probe::Uprobe { path: Some(path.to_owned()), symbol, offset },
                        ),
                        Err(e) => Err(e),
                    }
                }
            }
        } else if str_eq(ty, "uretprobe") {
            match rfind_char(args, ':') {
                None => Err(ProbeParseError::Expected("uretprobe:path:symbol")),
                Some(j) => {
                    let path = args.substring_char(0, j);
                    let symbol = args.substring_char(j + 1, args_len);
                    Ok(Probe::Uretprobe {
                        path: Some(path.to_owned()),
                        symbol: symbol.to_owned(),
                    })
                }
            }
        } else if str_eq(ty, "usdt") {
            match rfind_char(args, ':') {
                None => Err(ProbeParseError::Expected("usdt:path:probe")),
                Some(j) => {
                    let path = args.substring_char(0, j);
                    let probe = args.substring_char(j + 1, args_len);
                    Ok(Probe::Usdt { path: Some(path.to_owned()), probe: probe.to_owned() })
                }
            }
        } else if str_eq(ty, "tracepoint") {
            match find_char(args, ':') {
                None => Err(ProbeParseError::Expected("tracepoint:category:name")),
                Some(j) => {
                    let category = args.substring_char(0, j);
                    let name = args.substring_char(j + 1, args_len);
                    Ok(Probe::Tracepoint {
                        category: category.to_owned(),
                        name: name.to_owned(),
                    })
                }
            }
        } else if str_eq(ty, "profile") {
            match Interval::parse_str(args) {
                Ok(interval) => Ok(Probe::Profile { interval }),
                Err(e) => Err(e),
            }
        } else if str_eq(ty, "interval") {
            match Interval::parse_str(args) {
                Ok(interval) => Ok(Probe::Interval { interval }),
                Err(e) => Err(e),
            }
        } else if str_eq(ty, "software") {
            match find_char(args, ':') {
                None => Err(ProbeParseError::Expected("software:event:count")),
                Some(j) => {
                    let ev = args.substring_char(0, j);
                    let cnt = args.substring_char(j + 1, args_len);
                    match parse_sw_event(ev) {
                        None => Err(ProbeParseError::UnsupportedUnit(ev.to_owned())),
                        Some(event) => match parse_count(cnt) {
                            Ok(count) => Ok(Probe::Software { event, count }),
                            Err(e) => Err(e),
                        },
                    }
                }
            }
        } else if str_eq(ty, "hardware") {
            match find_char(args, ':') {
                None => Err(ProbeParseError::Expected("hardware:event:count")),
                Some(j) => {
                    let ev = args.substring_char(0, j);
                    let cnt = args.substring_char(j + 1, args_len);
                    match parse_hw_event(ev) {
                        None => Err(ProbeParseError::UnsupportedUnit(ev.to_owned())),
                        Some(event) => match parse_count(cnt) {
                            Ok(count) => Ok(Probe::Hardware { event, count }),
                            Err(e) => Err(e),
                        },
                    }
                }
            }
        } else if str_eq(ty, "watchpoint") {
            match find_char(args, ':') {
                None => Err(ProbeParseError::Expected("watchpoint:address:length:mode")),
                Some(j) => {
                    let addr_text = args.substring_char(0, j);
                    let rest = args.substring_char(j + 1, args_len);
                    let rest_len = rest.unicode_len();
                    match find_char(rest, ':') {
                        None => Err(ProbeParseError::Expected("watchpoint:address:length:mode")),
                        Some(k) => {
                            let len_text = rest.substring_char(0, k);
                            let mode_text = rest.substring_char(k + 1, rest_len);
                            let length = match parse_usize(len_text) {
                                Some(l) => l,
                                None => {
                                    return Err(ProbeParseError::ParseInt);
                                }
                            };
                            let mode = match Mode::parse_str(mode_text) {
                                Ok(m) => m,
                                Err(e) => {
                                    return Err(e);
                                }
                            };
                            let stripped = strip_hex_prefix(addr_text);
                            match parse_hex_usize(stripped) {
                                Some(address) => Ok(
                                    Probe::Watchpoint { address, length, mode },
                                ),
                                None => Err(ProbeParseError::ParseInt),
                            }
                        }
                    }
                }
            }
        } else if str_eq(ty, "kfunc") {
            Ok(Probe::Kfunc { func: args.to_owned() })
        } else if str_eq(ty, "kretfunc") {
            Ok(Probe::Kretfunc { func: args.to_owned() })
        } else {
            Err(ProbeParseError::UnsupportedProbe(ty.to_owned()))
        }
    }
}

/// A string without `c` splits nowhere.
proof fn lemma_no_char_no_find(s: Seq<char>, c: char)
    requires
        forall|q: int| 0 <= q < s.len() ==> s[q] != c,
    ensures
        spec_find(s, c) < 0,
        spec_rfind(s, c) < 0,
{
    lemma_find(s, c);
    lemma_rfind(s, c);
    if spec_find(s, c) >= 0 {
        assert(s[spec_find(s, c)] == c);
    }
    if spec_rfind(s, c) >= 0 {
        assert(s[spec_rfind(s, c)] == c);
    }
}

/// Splitting at the first `c` of `a + c + b` yields `a` and `b`, when `a`
/// holds no `c`.
proof fn lemma_split_first_concat(a: Seq<char>, c: char, b: Seq<char>)
    requires
        forall|q: int| 0 <= q < a.len() ==> a[q] != c,
    ensures
        spec_split_first(a + seq![c] + b, c) == Some((a, b)),
{
    let s = a + seq![c] + b;
    assert(s[a.len() as int] == c);
    assert forall|q: int| 0 <= q < a.len() implies s[q] != c by {
        assert(s[q] == a[q]);
    }
    lemma_find_is(s, c, a.len() as int);
    assert(s.subrange(0, a.len() as int) =~= a);
    assert(s.subrange(a.len() as int + 1, s.len() as int) =~= b);
}

/// Splitting at the last `c` of `a + c + b` yields `a` and `b`, when `b`
/// holds no `c`.
proof fn lemma_split_last_concat(a: Seq<char>, c: char, b: Seq<char>)
    requires
        forall|q: int| 0 <= q < b.len() ==> b[q] != c,
    ensures
        spec_split_last(a + seq![c] + b, c) == Some((a, b)),
{
    let s = a + seq![c] + b;
    assert(s[a.len() as int] == c);
    assert forall|q: int| a.len() < q < s.len() implies s[q] != c by {
        assert(s[q] == b[q - a.len() - 1]);
    }
    lemma_rfind_is(s, c, a.len() as int);
    assert(s.subrange(0, a.len() as int) =~= a);
    assert(s.subrange(a.len() as int + 1, s.len() as int) =~= b);
}

/// Decimal digits are neither separators nor signs.
proof fn lemma_digits_no_specials(s: Seq<char>)
    requires
        all_dec_digits(s),
    ensures
        forall|q: int| 0 <= q < s.len() ==> s[q] != ':' && s[q] != '+',
{
    assert forall|q: int| 0 <= q < s.len() implies s[q] != ':' && s[q] != '+' by {
        assert(is_dec_digit(s[q]));
    }
}

/// Hexadecimal digits are not separators.
proof fn lemma_hexits_no_specials(s: Seq<char>)
    requires
        crate::text::all_hex_digits(s),
    ensures
        forall|q: int| 0 <= q < s.len() ==> s[q] != ':',
{
    assert forall|q: int| 0 <= q < s.len() implies s[q] != ':' by {
        assert(crate::text::is_hex_digit(s[q]));
    }
}

/// Parsing the canonical text of a mode gives the mode back.
pub proof fn lemma_mode_round_trip(m: Mode)
    ensures
        spec_parse_mode(spec_print_mode(m)) == Ok::<Mode, ParseFault>(m),
{
    reveal_with_fuel(spec_parse_mode_from, 5);
    let s = spec_print_mode(m);
    let m0 = Mode { read: false, write: false, execute: false };
    if m.read {
        let m1 = Mode { read: true, ..m0 };
        if m.write {
            let m2 = Mode { write: true, ..m1 };
            if m.execute {
                assert(s =~= seq!['r', 'w', 'x']);
                assert(s.drop_first() =~= seq!['w', 'x']);
                assert(seq!['w', 'x'].drop_first() =~= seq!['x']);
                assert(seq!['x'].drop_first() =~= Seq::<char>::empty());
                assert(spec_parse_mode_from(Seq::<char>::empty(), Mode { execute: true, ..m2 })
                    == Ok::<Mode, ParseFault>(m));
            } else {
                assert(s =~= seq!['r', 'w']);
                assert(s.drop_first() =~= seq!['w']);
                assert(seq!['w'].drop_first() =~= Seq::<char>::empty());
                assert(spec_parse_mode_from(Seq::<char>::empty(), m2) == Ok::<
                    Mode,
                    ParseFault,
                >(m));
            }
        } else {
            if m.execute {
                assert(s =~= seq!['r', 'x']);
                assert(s.drop_first() =~= seq!['x']);
                assert(seq!['x'].drop_first() =~= Seq::<char>::empty());
                assert(spec_parse_mode_from(Seq::<char>::empty(), Mode { execute: true, ..m1 })
                    == Ok::<Mode, ParseFault>(m));
            } else {
                assert(s =~= seq!['r']);
                assert(seq!['r'].drop_first() =~= Seq::<char>::empty());
                assert(spec_parse_mode_from(Seq::<char>::empty(), m1) == Ok::<
                    Mode,
                    ParseFault,
                >(m));
            }
        }
    } else {
        if m.write {
            let m1 = Mode { write: true, ..m0 };
            if m.execute {
                assert(s =~= seq!['w', 'x']);
                assert(s.drop_first() =~= seq!['x']);
                assert(seq!['x'].drop_first() =~= Seq::<char>::empty());
                assert(spec_parse_mode_from(Seq::<char>::empty(), Mode { execute: true, ..m1 })
                    == Ok::<Mode, ParseFault>(m));
            } else {
                assert(s =~= seq!['w']);
                assert(seq!['w'].drop_first() =~= Seq::<char>::empty());
                assert(spec_parse_mode_from(Seq::<char>::empty(), m1) == Ok::<
                    Mode,
                    ParseFault,
                >(m));
            }
        } else {
            if m.execute {
                assert(s =~= seq!['x']);
                assert(seq!['x'].drop_first() =~= Seq::<char>::empty());
                assert(spec_parse_mode_from(Seq::<char>::empty(), Mode { execute: true, ..m0 })
                    == Ok::<Mode, ParseFault>(m));
            } else {
                assert(s =~= Seq::<char>::empty());
            }
        }
    }
}

/// Parsing the canonical text of an interval gives the interval back.
pub proof fn lemma_interval_round_trip(iv: Interval)
    ensures
        spec_parse_interval(spec_print_interval(iv)) == Ok::<Interval, ParseFault>(iv),
{
    proof_strlit_units();
    match iv {
        Interval::Seconds(v) => {
            lemma_dec_digits(v as nat);
            lemma_digits_no_specials(spec_dec_digits(v as nat));
            lemma_split_first_concat("s"@, ':', spec_dec_digits(v as nat));
        }
        Interval::Millis(v) => {
            lemma_dec_digits(v as nat);
            lemma_digits_no_specials(spec_dec_digits(v as nat));
            lemma_split_first_concat("ms"@, ':', spec_dec_digits(v as nat));
        }
        Interval::Micros(v) => {
            lemma_dec_digits(v as nat);
            lemma_digits_no_specials(spec_dec_digits(v as nat));
            lemma_split_first_concat("us"@, ':', spec_dec_digits(v as nat));
        }
        Interval::Hz(v) => {
            lemma_dec_digits(v as nat);
            lemma_digits_no_specials(spec_dec_digits(v as nat));
            lemma_split_first_concat("hz"@, ':', spec_dec_digits(v as nat));
        }
    }
}

/// Reveals the interval unit literals.
proof fn proof_strlit_units()
    ensures
        "s"@.len() == 1 && "s"@[0] == 's',
        "ms"@.len() == 2 && "ms"@[0] == 'm' && "ms"@[1] == 's',
        "us"@.len() == 2 && "us"@[0] == 'u' && "us"@[1] == 's',
        "hz"@.len() == 2 && "hz"@[0] == 'h' && "hz"@[1] == 'z',
{
    reveal_strlit("s");
    reveal_strlit("ms");
    reveal_strlit("us");
    reveal_strlit("hz");
}

/// Parsing the name of a software event gives the event back, and the name
/// holds no separator.
pub proof fn lemma_sw_round_trip(e: SoftwareEvent)
    ensures
        spec_parse_sw(spec_sw_name(e)) == Some(e),
        forall|q: int| 0 <= q < spec_sw_name(e).len() ==> (#[trigger] spec_sw_name(e)[q]) != ':',
{
    reveal_strlit("alignment-faults");
    reveal_strlit("bpf-output");
    reveal_strlit("context-switches");
    reveal_strlit("cs");
    reveal_strlit("cpu-clock");
    reveal_strlit("cpu");
    reveal_strlit("cpu-migrations");
    reveal_strlit("dummy");
    reveal_strlit("emulation-faults");
    reveal_strlit("major-faults");
    reveal_strlit("minor-faults");
    reveal_strlit("page-faults");
    reveal_strlit("faults");
    reveal_strlit("task-clock");
    assert("alignment-faults"@.len() == 16);
    assert("bpf-output"@.len() == 10);
    assert("context-switches"@.len() == 16);
    assert("cs"@.len() == 2);
    assert("cpu-clock"@.len() == 9);
    assert("cpu"@.len() == 3);
    assert("cpu-migrations"@.len() == 14);
    assert("dummy"@.len() == 5);
    assert("emulation-faults"@.len() == 16);
    assert("major-faults"@.len() == 12);
    assert("minor-faults"@.len() == 12);
    assert("page-faults"@.len() == 11);
    assert("faults"@.len() == 6);
    assert("task-clock"@.len() == 10);
    match e {
        SoftwareEvent::AlignmentFaults => {
            assert(spec_parse_sw(spec_sw_name(e)) == Some(e));
        }
        SoftwareEvent::BpfOutput => {
            assert(spec_parse_sw(spec_sw_name(e)) == Some(e));
        }
        SoftwareEvent::ContextSwitches => {
            assert("context-switches"@[0] != "alignment-faults"@[0]);
            assert(spec_parse_sw(spec_sw_name(e)) == Some(e));
        }
        SoftwareEvent::CpuClock => {
            assert(spec_parse_sw(spec_sw_name(e)) == Some(e));
        }
        SoftwareEvent::CpuMigrations => {
            assert(spec_parse_sw(spec_sw_name(e)) == Some(e));
        }
        SoftwareEvent::Dummy => {
            assert(spec_parse_sw(spec_sw_name(e)) == Some(e));
        }
        SoftwareEvent::EmulationFaults => {
            assert("emulation-faults"@[0] != "alignment-faults"@[0]);
            assert("emulation-faults"@[0] != "context-switches"@[0]);
            assert(spec_parse_sw(spec_sw_name(e)) == Some(e));
        }
        SoftwareEvent::MajorFaults => {
            assert(spec_parse_sw(spec_sw_name(e)) == Some(e));
        }
        SoftwareEvent::MinorFaults => {
            assert("minor-faults"@[1] != "major-faults"@[1]);
            assert(spec_parse_sw(spec_sw_name(e)) == Some(e));
        }
        SoftwareEvent::PageFaults => {
            assert(spec_parse_sw(spec_sw_name(e)) == Some(e));
        }
        SoftwareEvent::TaskClock => {
            assert("task-clock"@[0] != "bpf-output"@[0]);
            assert(spec_parse_sw(spec_sw_name(e)) == Some(e));
        }
    }
}

/// Parsing the name of a hardware event gives the event back, and the name
/// holds no separator.
pub proof fn lemma_hw_round_trip(e: HardwareEvent)
    ensures
        spec_parse_hw(spec_hw_name(e)) == Some(e),
        forall|q: int| 0 <= q < spec_hw_name(e).len() ==> (#[trigger] spec_hw_name(e)[q]) != ':',
{
    reveal_strlit("backend-stalls");
    reveal_strlit("branch-instructions");
    reveal_strlit("branches");
    reveal_strlit("branch-misses");
    reveal_strlit("bus-cycles");
    reveal_strlit("cache-misses");
    reveal_strlit("cache-references");
    reveal_strlit("cpu-cycles");
    reveal_strlit("cycles");
    reveal_strlit("frontend-stalls");
    reveal_strlit("instructions");
    reveal_strlit("ref-cycles");
    assert("backend-stalls"@.len() == 14);
    assert("branch-instructions"@.len() == 19);
    assert("branches"@.len() == 8);
    assert("branch-misses"@.len() == 13);
    assert("bus-cycles"@.len() == 10);
    assert("cache-misses"@.len() == 12);
    assert("cache-references"@.len() == 16);
    assert("cpu-cycles"@.len() == 10);
    assert("cycles"@.len() == 6);
    assert("frontend-stalls"@.len() == 15);
    assert("instructions"@.len() == 12);
    assert("ref-cycles"@.len() == 10);
    match e {
        HardwareEvent::BackendStalls => {
            assert(spec_parse_hw(spec_hw_name(e)) == Some(e));
        }
        HardwareEvent::BranchInstructions => {
            assert(spec_parse_hw(spec_hw_name(e)) == Some(e));
        }
        HardwareEvent::BranchMisses => {
            assert(spec_parse_hw(spec_hw_name(e)) == Some(e));
        }
        HardwareEvent::BusCycles => {
            assert(spec_parse_hw(spec_hw_name(e)) == Some(e));
        }
        HardwareEvent::CacheMisses => {
            assert(spec_parse_hw(spec_hw_name(e)) == Some(e));
        }
        HardwareEvent::CacheReferences => {
            assert(spec_parse_hw(spec_hw_name(e)) == Some(e));
        }
        HardwareEvent::CpuCycles => {
            assert("cpu-cycles"@[0] != "bus-cycles"@[0]);
            assert(spec_parse_hw(spec_hw_name(e)) == Some(e));
        }
        HardwareEvent::FrontendStalls => {
            assert(spec_parse_hw(spec_hw_name(e)) == Some(e));
        }
        HardwareEvent::Instructions => {
            assert("instructions"@[0] != "cache-misses"@[0]);
            assert(spec_parse_hw(spec_hw_name(e)) == Some(e));
        }
        HardwareEvent::RefCycles => {
            assert("ref-cycles"@[0] != "bus-cycles"@[0]);
            assert("ref-cycles"@[0] != "cpu-cycles"@[0]);
            assert(spec_parse_hw(spec_hw_name(e)) == Some(e));
        }
    }
}

/// The probes the parser can produce: a symbol never holds the separator
/// that was split on, and a parsed user probe always carries a path.
pub open spec fn wf_probe(p: ProbeView) -> bool {
    match p {
        ProbeView::Kprobe { symbol, .. } => spec_find(symbol, '+') < 0,
        ProbeView::Uprobe { path, symbol, .. } => path is Some && spec_find(symbol, ':') < 0
            && spec_find(symbol, '+') < 0,
        ProbeView::Uretprobe { path, symbol } => path is Some && spec_find(symbol, ':') < 0,
        ProbeView::Usdt { path, probe } => path is Some && spec_find(probe, ':') < 0,
        ProbeView::Tracepoint { category, .. } => spec_find(category, ':') < 0,
        _ => true,
    }
}

/// What `symbol[+offset]` parsing guarantees of its symbol: no `+`, and no
/// `:` when the input had none.
proof fn lemma_symbol_offset_wf(args: Seq<char>)
    ensures
        spec_symbol_offset(args) is Ok ==> spec_find(spec_symbol_offset(args)->Ok_0.0, '+') < 0,
        spec_symbol_offset(args) is Ok && (forall|q: int| 0 <= q < args.len() ==> args[q] != ':')
            ==> spec_find(spec_symbol_offset(args)->Ok_0.0, ':') < 0,
{
    let j = spec_find(args, '+');
    lemma_find(args, '+');
    if j >= 0 {
        let sym = args.subrange(0, j);
        assert forall|q: int| 0 <= q < sym.len() implies sym[q] != '+' by {
            assert(sym[q] == args[q]);
        }
        lemma_no_char_no_find(sym, '+');
        if forall|q: int| 0 <= q < args.len() ==> args[q] != ':' {
            assert forall|q: int| 0 <= q < sym.len() implies sym[q] != ':' by {
                assert(sym[q] == args[q]);
            }
            lemma_no_char_no_find(sym, ':');
        }
    } else {
        if forall|q: int| 0 <= q < args.len() ==> args[q] != ':' {
            lemma_no_char_no_find(args, ':');
        }
    }
}

/// Whatever the parser accepts is well formed.
pub proof fn lemma_parse_wf(s: Seq<char>)
    ensures
        spec_parse_probe(s) is Ok ==> wf_probe(spec_parse_probe(s)->Ok_0),
{
    let i = spec_find(s, ':');
    if i >= 0 {
        let ty = s.subrange(0, i);
        let args = s.subrange(i + 1, s.len() as int);
        lemma_symbol_offset_wf(args);
        let j = spec_rfind(args, ':');
        lemma_rfind(args, ':');
        if j >= 0 {
            let tail = args.subrange(j + 1, args.len() as int);
            assert forall|q: int| 0 <= q < tail.len() implies tail[q] != ':' by {
                assert(tail[q] == args[j + 1 + q]);
            }
            lemma_no_char_no_find(tail, ':');
            lemma_symbol_offset_wf(tail);
        }
        let k = spec_find(args, ':');
        lemma_find(args, ':');
        if k >= 0 {
            let head = args.subrange(0, k);
            assert forall|q: int| 0 <= q < head.len() implies head[q] != ':' by {
                assert(head[q] == args[q]);
            }
            lemma_no_char_no_find(head, ':');
        }
    }
}

/// Printing a well-formed probe and parsing the text gives the probe back.
#[verifier::rlimit(100)]
pub proof fn lemma_print_then_parse(p: ProbeView)
    requires
        wf_probe(p),
    ensures
        spec_parse_probe(spec_print_probe(p)) == Ok::<ProbeView, ParseFault>(p),
{
    reveal_strlit("kprobe");
    reveal_strlit("kretprobe");
    reveal_strlit("uprobe");
    reveal_strlit("uretprobe");
    reveal_strlit("usdt");
    reveal_strlit("tracepoint");
    reveal_strlit("profile");
    reveal_strlit("interval");
    reveal_strlit("software");
    reveal_strlit("hardware");
    reveal_strlit("watchpoint");
    reveal_strlit("kfunc");
    reveal_strlit("kretfunc");
    let out = spec_print_probe(p);
    match p {
        ProbeView::Kprobe { symbol, offset } => {
            let body = symbol + spec_print_offset(offset);
            assert(out =~= "kprobe"@ + seq![':'] + body);
            lemma_split_first_concat("kprobe"@, ':', body);
            lemma_symbol_offset_of_print(symbol, offset);
        }
        ProbeView::Kretprobe { symbol } => {
            assert(out =~= "kretprobe"@ + seq![':'] + symbol);
            lemma_split_first_concat("kretprobe"@, ':', symbol);
        }
        ProbeView::Uprobe { path, symbol, offset } => {
            let pp = path->0;
            let body = symbol + spec_print_offset(offset);
            let argsx = pp + seq![':'] + body;
            assert(out =~= "uprobe"@ + seq![':'] + argsx);
            lemma_split_first_concat("uprobe"@, ':', argsx);
            lemma_find(symbol, ':');
            assert forall|q: int| 0 <= q < body.len() implies body[q] != ':' by {
                lemma_offset_part_no_colon(offset);
                if q < symbol.len() {
                    assert(body[q] == symbol[q]);
                } else {
                    assert(body[q] == spec_print_offset(offset)[q - symbol.len()]);
                }
            }
            lemma_split_last_concat(pp, ':', body);
            lemma_symbol_offset_of_print(symbol, offset);
        }
        ProbeView::Uretprobe { path, symbol } => {
            let pp = path->0;
            let argsx = pp + seq![':'] + symbol;
            assert(out =~= "uretprobe"@ + seq![':'] + argsx);
            lemma_split_first_concat("uretprobe"@, ':', argsx);
            lemma_find(symbol, ':');
            lemma_split_last_concat(pp, ':', symbol);
        }
        ProbeView::Usdt { path, probe } => {
            let pp = path->0;
            let argsx = pp + seq![':'] + probe;
            assert(out =~= "usdt"@ + seq![':'] + argsx);
            lemma_split_first_concat("usdt"@, ':', argsx);
            lemma_find(probe, ':');
            lemma_split_last_concat(pp, ':', probe);
        }
        ProbeView::Tracepoint { category, name } => {
            let argsx = category + seq![':'] + name;
            assert(out =~= "tracepoint"@ + seq![':'] + argsx);
            lemma_split_first_concat("tracepoint"@, ':', argsx);
            lemma_find(category, ':');
            lemma_split_first_concat(category, ':', name);
        }
        ProbeView::Profile { interval } => {
            let body = spec_print_interval(interval);
            assert(out =~= "profile"@ + seq![':'] + body);
            lemma_split_first_concat("profile"@, ':', body);
            lemma_interval_round_trip(interval);
        }
        ProbeView::Interval { interval } => {
            let body = spec_print_interval(interval);
            assert(out =~= "interval"@ + seq![':'] + body);
            lemma_split_first_concat("interval"@, ':', body);
            lemma_interval_round_trip(interval);
        }
        ProbeView::Software { event, count } => {
            let nm = spec_sw_name(event);
            let cnt = spec_print_count(count);
            let argsx = nm + seq![':'] + cnt;
            assert(out =~= "software"@ + seq![':'] + argsx);
            lemma_split_first_concat("software"@, ':', argsx);
            lemma_sw_round_trip(event);
            lemma_split_first_concat(nm, ':', cnt);
            if count is Some {
                lemma_dec_digits(count->0 as nat);
            }
        }
        ProbeView::Hardware { event, count } => {
            let nm = spec_hw_name(event);
            let cnt = spec_print_count(count);
            let argsx = nm + seq![':'] + cnt;
            assert(out =~= "hardware"@ + seq![':'] + argsx);
            lemma_split_first_concat("hardware"@, ':', argsx);
            lemma_hw_round_trip(event);
            lemma_split_first_concat(nm, ':', cnt);
            if count is Some {
                lemma_dec_digits(count->0 as nat);
            }
        }
        ProbeView::Watchpoint { address, length, mode } => {
            let hx = spec_hex_digits(address as nat);
            let dc = spec_dec_digits(length as nat);
            let md = spec_print_mode(mode);
            let rest = dc + seq![':'] + md;
            let argsx = hx + seq![':'] + rest;
            assert(out =~= "watchpoint"@ + seq![':'] + argsx);
            lemma_split_first_concat("watchpoint"@, ':', argsx);
            lemma_hex_digits(address as nat);
            lemma_hexits_no_specials(hx);
            lemma_split_first_concat(hx, ':', rest);
            lemma_dec_digits(length as nat);
            lemma_digits_no_specials(dc);
            lemma_split_first_concat(dc, ':', md);
            lemma_mode_round_trip(mode);
            lemma_strip_of_hex_digits(address as nat);
        }
        ProbeView::Kfunc { func } => {
            assert(out =~= "kfunc"@ + seq![':'] + func);
            lemma_split_first_concat("kfunc"@, ':', func);
        }
        ProbeView::Kretfunc { func } => {
            assert(out =~= "kretfunc"@ + seq![':'] + func);
            lemma_split_first_concat("kretfunc"@, ':', func);
        }
    }
}

/// The printed offset part holds no separator.
proof fn lemma_offset_part_no_colon(offset: usize)
    ensures
        forall|q: int|
            0 <= q < spec_print_offset(offset).len() ==> (#[trigger] spec_print_offset(offset)[q])
                != ':',
{
    if offset > 0 {
        lemma_dec_digits(offset as nat);
        lemma_digits_no_specials(spec_dec_digits(offset as nat));
        assert forall|q: int| 0 <= q < spec_print_offset(offset).len() implies (
        #[trigger] spec_print_offset(offset)[q]) != ':' by {
            if q > 0 {
                assert(spec_print_offset(offset)[q] == spec_dec_digits(offset as nat)[q - 1]);
            }
        }
    }
}

/// Parsing `symbol + printed offset` recovers the symbol and the offset,
/// when the symbol holds no `+`.
proof fn lemma_symbol_offset_of_print(symbol: Seq<char>, offset: usize)
    requires
        spec_find(symbol, '+') < 0,
    ensures
        spec_symbol_offset(symbol + spec_print_offset(offset)) == Ok::<
            (Seq<char>, usize),
            ParseFault,
        >((symbol, offset)),
{
    lemma_find(symbol, '+');
    let body = symbol + spec_print_offset(offset);
    if offset > 0 {
        lemma_dec_digits(offset as nat);
        lemma_digits_no_specials(spec_dec_digits(offset as nat));
        assert(body =~= symbol + seq!['+'] + spec_dec_digits(offset as nat));
        lemma_split_first_concat(symbol, '+', spec_dec_digits(offset as nat));
    } else {
        assert(body =~= symbol);
        lemma_no_char_no_find(body, '+');
    }
}

/// Round trip: whatever text parses, printing the parsed probe and parsing
/// the print yields the same probe again.
pub proof fn lemma_parse_print_parse(s: Seq<char>)
    ensures
        spec_parse_probe(s) is Ok ==> spec_parse_probe(
            spec_print_probe(spec_parse_probe(s)->Ok_0),
        ) == spec_parse_probe(s),
{
    if spec_parse_probe(s) is Ok {
        lemma_parse_wf(s);
        lemma_print_then_parse(spec_parse_probe(s)->Ok_0);
    }
}

impl core::str::FromStr for Probe {
    type Err = ProbeParseError;

    fn from_str(s: &str) -> Result<Probe, ProbeParseError> {
        Probe::parse_str(s)
    }
}

impl core::str::FromStr for Interval {
    type Err = ProbeParseError;

    fn from_str(s: &str) -> Result<Interval, ProbeParseError> {
        Interval::parse_str(s)
    }
}

impl core::str::FromStr for Mode {
    type Err = ProbeParseError;

    fn from_str(s: &str) -> Result<Mode, ProbeParseError> {
        Mode::parse_str(s)
    }
}

} // verus!

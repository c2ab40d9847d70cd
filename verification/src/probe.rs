//! Probe specifications: what to attach to and when to fire.
//!
//! A probe is written in a colon-separated text form such as
//! `kprobe:finish_task_switch+8` or `profile:hz:99`. This module holds the
//! probe kinds and their canonical printing; parsing lives in [`crate::parse`],
//! and printing then parsing gives back the same probe.

use crate::text::{spec_dec_digits, spec_hex_digits, u64_to_dec, usize_to_dec, usize_to_hex};
use vstd::prelude::*;

verus! {

/// How often a timed probe fires: a period in seconds, milliseconds or
/// microseconds, or a frequency in hertz.
#[derive(Clone, Copy, Debug, Eq, Hash, PartialEq, Structural)]
pub enum Interval {
    Seconds(u64),
    Millis(u64),
    Micros(u64),
    Hz(u64),
}

/// The canonical text of an interval: its unit, a colon, its value.
pub open spec fn spec_print_interval(iv: Interval) -> Seq<char> {
    match iv {
        Interval::Seconds(v) => "s"@ + seq![':'] + spec_dec_digits(v as nat),
        Interval::Millis(v) => "ms"@ + seq![':'] + spec_dec_digits(v as nat),
        Interval::Micros(v) => "us"@ + seq![':'] + spec_dec_digits(v as nat),
        Interval::Hz(v) => "hz"@ + seq![':'] + spec_dec_digits(v as nat),
    }
}

/// What a perf sampling event is set up with: `true` and a frequency in
/// hertz, or `false` and a period in nanoseconds; `None` when the period
/// does not fit in 64 bits.
pub open spec fn spec_perf_setup(iv: Interval) -> Option<(bool, u64)> {
    match iv {
        Interval::Seconds(v) => if v * 1_000_000_000 <= u64::MAX {
            Some((false, (v * 1_000_000_000) as u64))
        } else {
            None
        },
        Interval::Millis(v) => if v * 1_000_000 <= u64::MAX {
            Some((false, (v * 1_000_000) as u64))
        } else {
            None
        },
        Interval::Micros(v) => if v * 1_000 <= u64::MAX {
            Some((false, (v * 1_000) as u64))
        } else {
            None
        },
        Interval::Hz(v) => Some((true, v)),
    }
}

impl Interval {
    /// Renders the interval in its canonical text form.
    pub fn to_text(&self) -> (r: String)
        ensures
            r@ == spec_print_interval(*self),
    {
        proof {
            reveal_strlit("s:");
            reveal_strlit("ms:");
            reveal_strlit("us:");
            reveal_strlit("hz:");
            reveal_strlit("s");
            reveal_strlit("ms");
            reveal_strlit("us");
            reveal_strlit("hz");
        }
        let mut s = String::new();
        let v: u64;
        match self {
            Interval::Seconds(n) => {
                s.append("s:");
                v = *n;
                proof {
                    assert(s@ =~= "s"@ + seq![':']);
                }
            }
            Interval::Millis(n) => {
                s.append("ms:");
                v = *n;
                proof {
                    assert(s@ =~= "ms"@ + seq![':']);
                }
            }
            Interval::Micros(n) => {
                s.append("us:");
                v = *n;
                proof {
                    assert(s@ =~= "us"@ + seq![':']);
                }
            }
            Interval::Hz(n) => {
                s.append("hz:");
                v = *n;
                proof {
                    assert(s@ =~= "hz"@ + seq![':']);
                }
            }
        }
        let digits = u64_to_dec(v);
        s.append(digits.as_str());
        proof {
            assert(s@ =~= spec_print_interval(*self));
        }
        s
    }

    /// The frequency flag and value a perf event is opened with.
    pub fn perf_setup(&self) -> (r: Option<(bool, u64)>)
        ensures
            r == spec_perf_setup(*self),
    {
        match self {
            Interval::Seconds(v) => match v.checked_mul(1_000_000_000) {
                Some(p) => Some((false, p)),
                None => None,
            },
            Interval::Millis(v) => match v.checked_mul(1_000_000) {
                Some(p) => Some((false, p)),
                None => None,
            },
            Interval::Micros(v) => match v.checked_mul(1_000) {
                Some(p) => Some((false, p)),
                None => None,
            },
            Interval::Hz(v) => Some((true, *v)),
        }
    }
}

/// The access kinds a watchpoint observes.
#[derive(Clone, Copy, Debug, Default, Eq, Hash, PartialEq, Structural)]
pub struct Mode {
    pub read: bool,
    pub write: bool,
    pub execute: bool,
}

/// The canonical text of a mode: `r`, `w`, `x`, in that order, each when
/// set.
pub open spec fn spec_print_mode(m: Mode) -> Seq<char> {
    (if m.read {
        seq!['r']
    } else {
        Seq::<char>::empty()
    }) + (if m.write {
        seq!['w']
    } else {
        Seq::<char>::empty()
    }) + (if m.execute {
        seq!['x']
    } else {
        Seq::<char>::empty()
    })
}

impl Mode {
    /// Renders the mode in its canonical text form.
    pub fn to_text(&self) -> (r: String)
        ensures
            r@ == spec_print_mode(*self),
    {
        proof {
            reveal_strlit("r");
            reveal_strlit("w");
            reveal_strlit("x");
        }
        let mut s = String::new();
        if self.read {
            s.append("r");
        }
        if self.write {
            s.append("w");
        }
        if self.execute {
            s.append("x");
        }
        proof {
            assert(s@ =~= spec_print_mode(*self));
        }
        s
    }
}

/// A software perf event counted by the kernel.
#[derive(Clone, Copy, Debug, Eq, Hash, PartialEq, Structural)]
pub enum SoftwareEvent {
    AlignmentFaults,
    BpfOutput,
    ContextSwitches,
    CpuClock,
    CpuMigrations,
    Dummy,
    EmulationFaults,
    MajorFaults,
    MinorFaults,
    PageFaults,
    TaskClock,
}

/// The full name of a software event.
pub open spec fn spec_sw_name(e: SoftwareEvent) -> Seq<char> {
    match e {
        SoftwareEvent::AlignmentFaults => "alignment-faults"@,
        SoftwareEvent::BpfOutput => "bpf-output"@,
        SoftwareEvent::ContextSwitches => "context-switches"@,
        SoftwareEvent::CpuClock => "cpu-clock"@,
        SoftwareEvent::CpuMigrations => "cpu-migrations"@,
        SoftwareEvent::Dummy => "dummy"@,
        SoftwareEvent::EmulationFaults => "emulation-faults"@,
        SoftwareEvent::MajorFaults => "major-faults"@,
        SoftwareEvent::MinorFaults => "minor-faults"@,
        SoftwareEvent::PageFaults => "page-faults"@,
        SoftwareEvent::TaskClock => "task-clock"@,
    }
}

/// The short alias of a software event, where one exists.
pub open spec fn spec_sw_alias(e: SoftwareEvent) -> Option<Seq<char>> {
    match e {
        SoftwareEvent::ContextSwitches => Some("cs"@),
        SoftwareEvent::CpuClock => Some("cpu"@),
        SoftwareEvent::PageFaults => Some("faults"@),
        _ => None,
    }
}

impl SoftwareEvent {
    /// The full event name, as the text grammar writes it.
    pub fn name(&self) -> (r: &'static str)
        ensures
            r@ == spec_sw_name(*self),
    {
        match self {
            SoftwareEvent::AlignmentFaults => "alignment-faults",
            SoftwareEvent::BpfOutput => "bpf-output",
            SoftwareEvent::ContextSwitches => "context-switches",
            SoftwareEvent::CpuClock => "cpu-clock",
            SoftwareEvent::CpuMigrations => "cpu-migrations",
            SoftwareEvent::Dummy => "dummy",
            SoftwareEvent::EmulationFaults => "emulation-faults",
            SoftwareEvent::MajorFaults => "major-faults",
            SoftwareEvent::MinorFaults => "minor-faults",
            SoftwareEvent::PageFaults => "page-faults",
            SoftwareEvent::TaskClock => "task-clock",
        }
    }

    /// The short alias, where the grammar accepts one.
    pub fn alias(&self) -> (r: Option<&'static str>)
        ensures
            match r {
                Some(a) => spec_sw_alias(*self) == Some(a@),
                None => spec_sw_alias(*self) is None,
            },
    {
        match self {
            SoftwareEvent::ContextSwitches => Some("cs"),
            SoftwareEvent::CpuClock => Some("cpu"),
            SoftwareEvent::PageFaults => Some("faults"),
            _ => None,
        }
    }

    /// How many occurrences pass between samples when none is given.
    pub fn default_count(&self) -> (r: u64)
        ensures
            r == spec_sw_default_count(*self),
    {
        match self {
            SoftwareEvent::ContextSwitches => 1_000,
            SoftwareEvent::CpuClock => 1_000_000,
            SoftwareEvent::MinorFaults => 100,
            SoftwareEvent::PageFaults => 100,
            _ => 1,
        }
    }

    /// The kernel's configuration id for this event.
    pub fn perf_config(&self) -> (r: u64)
        ensures
            r == spec_sw_config(*self),
    {
        match self {
            SoftwareEvent::CpuClock => 0,
            SoftwareEvent::TaskClock => 1,
            SoftwareEvent::PageFaults => 2,
            SoftwareEvent::ContextSwitches => 3,
            SoftwareEvent::CpuMigrations => 4,
            SoftwareEvent::MinorFaults => 5,
            SoftwareEvent::MajorFaults => 6,
            SoftwareEvent::AlignmentFaults => 7,
            SoftwareEvent::EmulationFaults => 8,
            SoftwareEvent::Dummy => 9,
            SoftwareEvent::BpfOutput => 10,
        }
    }
}

/// The default sample count of a software event.
pub open spec fn spec_sw_default_count(e: SoftwareEvent) -> u64 {
    match e {
        SoftwareEvent::ContextSwitches => 1_000,
        SoftwareEvent::CpuClock => 1_000_000,
        SoftwareEvent::MinorFaults => 100,
        SoftwareEvent::PageFaults => 100,
        _ => 1,
    }
}

/// The kernel configuration id of a software event.
pub open spec fn spec_sw_config(e: SoftwareEvent) -> u64 {
    match e {
        SoftwareEvent::CpuClock => 0,
        SoftwareEvent::TaskClock => 1,
        SoftwareEvent::PageFaults => 2,
        SoftwareEvent::ContextSwitches => 3,
        SoftwareEvent::CpuMigrations => 4,
        SoftwareEvent::MinorFaults => 5,
        SoftwareEvent::MajorFaults => 6,
        SoftwareEvent::AlignmentFaults => 7,
        SoftwareEvent::EmulationFaults => 8,
        SoftwareEvent::Dummy => 9,
        SoftwareEvent::BpfOutput => 10,
    }
}

/// A hardware perf event counted by the processor.
#[derive(Clone, Copy, Debug, Eq, Hash, PartialEq, Structural)]
pub enum HardwareEvent {
    BackendStalls,
    BranchInstructions,
    BranchMisses,
    BusCycles,
    CacheMisses,
    CacheReferences,
    CpuCycles,
    FrontendStalls,
    Instructions,
    RefCycles,
}

/// The full name of a hardware event.
pub open spec fn spec_hw_name(e: HardwareEvent) -> Seq<char> {
    match e {
        HardwareEvent::BackendStalls => "backend-stalls"@,
        HardwareEvent::BranchInstructions => "branch-instructions"@,
        HardwareEvent::BranchMisses => "branch-misses"@,
        HardwareEvent::BusCycles => "bus-cycles"@,
        HardwareEvent::CacheMisses => "cache-misses"@,
        HardwareEvent::CacheReferences => "cache-references"@,
        HardwareEvent::CpuCycles => "cpu-cycles"@,
        HardwareEvent::FrontendStalls => "frontend-stalls"@,
        HardwareEvent::Instructions => "instructions"@,
        HardwareEvent::RefCycles => "ref-cycles"@,
    }
}

/// The short alias of a hardware event, where one exists.
pub open spec fn spec_hw_alias(e: HardwareEvent) -> Option<Seq<char>> {
    match e {
        HardwareEvent::BranchInstructions => Some("branches"@),
        HardwareEvent::CpuCycles => Some("cycles"@),
        _ => None,
    }
}

impl HardwareEvent {
    /// The full event name, as the text grammar writes it.
    pub fn name(&self) -> (r: &'static str)
        ensures
            r@ == spec_hw_name(*self),
    {
        match self {
            HardwareEvent::BackendStalls => "backend-stalls",
            HardwareEvent::BranchInstructions => "branch-instructions",
            HardwareEvent::BranchMisses => "branch-misses",
            HardwareEvent::BusCycles => "bus-cycles",
            HardwareEvent::CacheMisses => "cache-misses",
            HardwareEvent::CacheReferences => "cache-references",
            HardwareEvent::CpuCycles => "cpu-cycles",
            HardwareEvent::FrontendStalls => "frontend-stalls",
            HardwareEvent::Instructions => "instructions",
            HardwareEvent::RefCycles => "ref-cycles",
        }
    }

    /// The short alias, where the grammar accepts one.
    pub fn alias(&self) -> (r: Option<&'static str>)
        ensures
            match r {
                Some(a) => spec_hw_alias(*self) == Some(a@),
                None => spec_hw_alias(*self) is None,
            },
    {
        match self {
            HardwareEvent::BranchInstructions => Some("branches"),
            HardwareEvent::CpuCycles => Some("cycles"),
            _ => None,
        }
    }

    /// How many occurrences pass between samples when none is given.
    pub fn default_count(&self) -> (r: u64)
        ensures
            r == spec_hw_default_count(*self),
    {
        match self {
            HardwareEvent::BranchInstructions => 100_000,
            HardwareEvent::BranchMisses => 100_000,
            HardwareEvent::BusCycles => 100_000,
            _ => 1_000_000,
        }
    }

    /// The kernel's configuration id for this event.
    pub fn perf_config(&self) -> (r: u64)
        ensures
            r == spec_hw_config(*self),
    {
        match self {
            HardwareEvent::CpuCycles => 0,
            HardwareEvent::Instructions => 1,
            HardwareEvent::CacheReferences => 2,
            HardwareEvent::CacheMisses => 3,
            HardwareEvent::BranchInstructions => 4,
            HardwareEvent::BranchMisses => 5,
            HardwareEvent::BusCycles => 6,
            HardwareEvent::FrontendStalls => 7,
            HardwareEvent::BackendStalls => 8,
            HardwareEvent::RefCycles => 9,
        }
    }
}

/// The default sample count of a hardware event.
pub open spec fn spec_hw_default_count(e: HardwareEvent) -> u64 {
    match e {
        HardwareEvent::BranchInstructions => 100_000,
        HardwareEvent::BranchMisses => 100_000,
        HardwareEvent::BusCycles => 100_000,
        _ => 1_000_000,
    }
}

/// The kernel configuration id of a hardware event.
pub open spec fn spec_hw_config(e: HardwareEvent) -> u64 {
    match e {
        HardwareEvent::CpuCycles => 0,
        HardwareEvent::Instructions => 1,
        HardwareEvent::CacheReferences => 2,
        HardwareEvent::CacheMisses => 3,
        HardwareEvent::BranchInstructions => 4,
        HardwareEvent::BranchMisses => 5,
        HardwareEvent::BusCycles => 6,
        HardwareEvent::FrontendStalls => 7,
        HardwareEvent::BackendStalls => 8,
        HardwareEvent::RefCycles => 9,
    }
}

/// The kind of kernel program a probe is served by.
#[derive(Clone, Copy, Debug, Eq, Hash, PartialEq, Structural)]
pub enum ProgramType {
    Kprobe,
    Tracepoint,
    PerfEvent,
    Tracing,
}

/// How a tracing program attaches to its target.
#[derive(Clone, Copy, Debug, Eq, Hash, PartialEq, Structural)]
pub enum ProgramAttachType {
    TraceFentry,
    TraceFexit,
}

/// One probe specification, carrying the parameters of its kind.
#[derive(Clone, Debug, Eq, Hash, PartialEq)]
pub enum Probe {
    Kprobe { symbol: String, offset: usize },
    Kretprobe { symbol: String },
    Uprobe { path: Option<String>, symbol: String, offset: usize },
    Uretprobe { path: Option<String>, symbol: String },
    Usdt { path: Option<String>, probe: String },
    Tracepoint { category: String, name: String },
    Profile { interval: Interval },
    Interval { interval: Interval },
    Software { event: SoftwareEvent, count: Option<u64> },
    Hardware { event: HardwareEvent, count: Option<u64> },
    Watchpoint { address: usize, length: usize, mode: Mode },
    Kfunc { func: String },
    Kretfunc { func: String },
}

/// The mathematical shape of a probe: its strings as character sequences.
pub enum ProbeView {
    Kprobe { symbol: Seq<char>, offset: usize },
    Kretprobe { symbol: Seq<char> },
    Uprobe { path: Option<Seq<char>>, symbol: Seq<char>, offset: usize },
    Uretprobe { path: Option<Seq<char>>, symbol: Seq<char> },
    Usdt { path: Option<Seq<char>>, probe: Seq<char> },
    Tracepoint { category: Seq<char>, name: Seq<char> },
    Profile { interval: Interval },
    Interval { interval: Interval },
    Software { event: SoftwareEvent, count: Option<u64> },
    Hardware { event: HardwareEvent, count: Option<u64> },
    Watchpoint { address: usize, length: usize, mode: Mode },
    Kfunc { func: Seq<char> },
    Kretfunc { func: Seq<char> },
}

impl View for Probe {
    type V = ProbeView;

    open spec fn view(&self) -> ProbeView {
        match self {
            Probe::Kprobe { symbol, offset } => ProbeView::Kprobe {
                symbol: symbol@,
                offset: *offset,
            },
            Probe::Kretprobe { symbol } => ProbeView::Kretprobe { symbol: symbol@ },
            Probe::Uprobe { path, symbol, offset } => ProbeView::Uprobe {
                path: match path {
                    Some(p) => Some(p@),
                    None => None,
                },
                symbol: symbol@,
                offset: *offset,
            },
            Probe::Uretprobe { path, symbol } => ProbeView::Uretprobe {
                path: match path {
                    Some(p) => Some(p@),
                    None => None,
                },
                symbol: symbol@,
            },
            Probe::Usdt { path, probe } => ProbeView::Usdt {
                path: match path {
                    Some(p) => Some(p@),
                    None => None,
                },
                probe: probe@,
            },
            Probe::Tracepoint { category, name } => ProbeView::Tracepoint {
                category: category@,
                name: name@,
            },
            Probe::Profile { interval } => ProbeView::Profile { interval: *interval },
            Probe::Interval { interval } => ProbeView::Interval { interval: *interval },
            Probe::Software { event, count } => ProbeView::Software {
                event: *event,
                count: *count,
            },
            Probe::Hardware { event, count } => ProbeView::Hardware {
                event: *event,
                count: *count,
            },
            Probe::Watchpoint { address, length, mode } => ProbeView::Watchpoint {
                address: *address,
                length: *length,
                mode: *mode,
            },
            Probe::Kfunc { func } => ProbeView::Kfunc { func: func@ },
            Probe::Kretfunc { func } => ProbeView::Kretfunc { func: func@ },
        }
    }
}

/// The optional `+offset` suffix of a probe symbol: present only for a
/// non-zero offset.
pub open spec fn spec_print_offset(offset: usize) -> Seq<char> {
    if offset > 0 {
        seq!['+'] + spec_dec_digits(offset as nat)
    } else {
        Seq::<char>::empty()
    }
}

/// The optional `path:` part of a user probe.
pub open spec fn spec_print_path(path: Option<Seq<char>>) -> Seq<char> {
    match path {
        Some(p) => p + seq![':'],
        None => Seq::<char>::empty(),
    }
}

/// The optional count of a software or hardware probe: empty when absent.
pub open spec fn spec_print_count(count: Option<u64>) -> Seq<char> {
    match count {
        Some(c) => spec_dec_digits(c as nat),
        None => Seq::<char>::empty(),
    }
}

/// The canonical text of a probe.
pub open spec fn spec_print_probe(p: ProbeView) -> Seq<char> {
    match p {
        ProbeView::Kprobe { symbol, offset } => "kprobe"@ + seq![':'] + symbol + spec_print_offset(
            offset,
        ),
        ProbeView::Kretprobe { symbol } => "kretprobe"@ + seq![':'] + symbol,
        ProbeView::Uprobe { path, symbol, offset } => "uprobe"@ + seq![':'] + spec_print_path(path)
            + symbol + spec_print_offset(offset),
        ProbeView::Uretprobe { path, symbol } => "uretprobe"@ + seq![':'] + spec_print_path(path)
            + symbol,
        ProbeView::Usdt { path, probe } => "usdt"@ + seq![':'] + spec_print_path(path) + probe,
        ProbeView::Tracepoint { category, name } => "tracepoint"@ + seq![':'] + category
            + seq![':'] + name,
        ProbeView::Profile { interval } => "profile"@ + seq![':'] + spec_print_interval(interval),
        ProbeView::Interval { interval } => "interval"@ + seq![':'] + spec_print_interval(interval),
        ProbeView::Software { event, count } => "software"@ + seq![':'] + spec_sw_name(event)
            + seq![':'] + spec_print_count(count),
        ProbeView::Hardware { event, count } => "hardware"@ + seq![':'] + spec_hw_name(event)
            + seq![':'] + spec_print_count(count),
        ProbeView::Watchpoint { address, length, mode } => "watchpoint"@ + seq![':']
            + spec_hex_digits(address as nat) + seq![':'] + spec_dec_digits(length as nat)
            + seq![':'] + spec_print_mode(mode),
        ProbeView::Kfunc { func } => "kfunc"@ + seq![':'] + func,
        ProbeView::Kretfunc { func } => "kretfunc"@ + seq![':'] + func,
    }
}

/// What `set_default_path` leaves behind: a user probe without a path gets
/// the given one, everything else is untouched.
pub open spec fn spec_set_default_path(p: ProbeView, default_path: Seq<char>) -> ProbeView {
    match p {
        ProbeView::Uprobe { path: None, symbol, offset } => ProbeView::Uprobe {
            path: Some(default_path),
            symbol,
            offset,
        },
        ProbeView::Uretprobe { path: None, symbol } => ProbeView::Uretprobe {
            path: Some(default_path),
            symbol,
        },
        ProbeView::Usdt { path: None, probe } => ProbeView::Usdt {
            path: Some(default_path),
            probe,
        },
        _ => p,
    }
}

impl Probe {
    /// The kind of kernel program that serves this probe.
    pub fn prog_type(&self) -> (r: ProgramType)
        ensures
            r == spec_prog_type(self@),
    {
        match self {
            Probe::Kprobe { .. }
            | Probe::Kretprobe { .. }
            | Probe::Uprobe { .. }
            | Probe::Uretprobe { .. }
            | Probe::Usdt { .. } => ProgramType::Kprobe,
            Probe::Tracepoint { .. } => ProgramType::Tracepoint,
            Probe::Profile { .. }
            | Probe::Interval { .. }
            | Probe::Software { .. }
            | Probe::Hardware { .. }
            | Probe::Watchpoint { .. } => ProgramType::PerfEvent,
            Probe::Kfunc { .. } | Probe::Kretfunc { .. } => ProgramType::Tracing,
        }
    }

    /// How the program attaches, for the kinds that need an attach type.
    pub fn attach_type(&self) -> (r: Option<ProgramAttachType>)
        ensures
            r == spec_attach_type(self@),
    {
        match self {
            Probe::Kprobe { .. } | Probe::Uprobe { .. } | Probe::Usdt { .. } => Some(
                ProgramAttachType::TraceFentry,
            ),
            Probe::Kretprobe { .. } | Probe::Uretprobe { .. } => Some(
                ProgramAttachType::TraceFexit,
            ),
            _ => None,
        }
    }

    /// Fills the path of a user probe that was written without one.
    pub fn set_default_path(&mut self, default_path: &str)
        ensures
            final(self)@ == spec_set_default_path(old(self)@, default_path@),
    {
        let new = match &*self {
            Probe::Uprobe { path: None, symbol, offset } => Probe::Uprobe {
                path: Some(default_path.to_owned()),
                symbol: symbol.clone(),
                offset: *offset,
            },
            Probe::Uretprobe { path: None, symbol } => Probe::Uretprobe {
                path: Some(default_path.to_owned()),
                symbol: symbol.clone(),
            },
            Probe::Usdt { path: None, probe } => Probe::Usdt {
                path: Some(default_path.to_owned()),
                probe: probe.clone(),
            },
            _ => {
                return ;
            }
        };
        *self = new;
    }

    /// Renders the probe in its canonical text form, the one [`crate::parse`]
    /// reads back.
    pub fn to_text(&self) -> (r: String)
        ensures
            r@ == spec_print_probe(self@),
    {
        proof {
            reveal_strlit("kprobe:");
            reveal_strlit("kprobe");
            reveal_strlit("kretprobe:");
            reveal_strlit("kretprobe");
            reveal_strlit("uprobe:");
            reveal_strlit("uprobe");
            reveal_strlit("uretprobe:");
            reveal_strlit("uretprobe");
            reveal_strlit("usdt:");
            reveal_strlit("usdt");
            reveal_strlit("tracepoint:");
            reveal_strlit("tracepoint");
            reveal_strlit("profile:");
            reveal_strlit("profile");
            reveal_strlit("interval:");
            reveal_strlit("interval");
            reveal_strlit("software:");
            reveal_strlit("software");
            reveal_strlit("hardware:");
            reveal_strlit("hardware");
            reveal_strlit("watchpoint:");
            reveal_strlit("watchpoint");
            reveal_strlit("kfunc:");
            reveal_strlit("kfunc");
            reveal_strlit("kretfunc:");
            reveal_strlit("kretfunc");
            reveal_strlit(":");
            reveal_strlit("+");
        }
        let mut s = String::new();
        match self {
            Probe::Kprobe { symbol, offset } => {
                s.append("kprobe:");
                s.append(symbol.as_str());
                append_offset(&mut s, *offset);
            }
            Probe::Kretprobe { symbol } => {
                s.append("kretprobe:");
                s.append(symbol.as_str());
            }
            Probe::Uprobe { path, symbol, offset } => {
                s.append("uprobe:");
                append_path(&mut s, path);
                s.append(symbol.as_str());
                append_offset(&mut s, *offset);
            }
            Probe::Uretprobe { path, symbol } => {
                s.append("uretprobe:");
                append_path(&mut s, path);
                s.append(symbol.as_str());
            }
            Probe::Usdt { path, probe } => {
                s.append("usdt:");
                append_path(&mut s, path);
                s.append(probe.as_str());
            }
            Probe::Tracepoint { category, name } => {
                s.append("tracepoint:");
                s.append(category.as_str());
                s.append(":");
                s.append(name.as_str());
            }
            Probe::Profile { interval } => {
                s.append("profile:");
                let t = interval.to_text();
                s.append(t.as_str());
            }
            Probe::Interval { interval } => {
                s.append("interval:");
                let t = interval.to_text();
                s.append(t.as_str());
            }
            Probe::Software { event, count } => {
                s.append("software:");
                s.append(event.name());
                s.append(":");
                append_count(&mut s, count);
            }
            Probe::Hardware { event, count } => {
                s.append("hardware:");
                s.append(event.name());
                s.append(":");
                append_count(&mut s, count);
            }
            Probe::Watchpoint { address, length, mode } => {
                s.append("watchpoint:");
                let a = usize_to_hex(*address);
                s.append(a.as_str());
                s.append(":");
                let l = usize_to_dec(*length);
                s.append(l.as_str());
                s.append(":");
                let m = mode.to_text();
                s.append(m.as_str());
            }
            Probe::Kfunc { func } => {
                s.append("kfunc:");
                s.append(func.as_str());
            }
            Probe::Kretfunc { func } => {
                s.append("kretfunc:");
                s.append(func.as_str());
            }
        }
        proof {
            assert(s@ =~= spec_print_probe(self@));
        }
        s
    }
}

/// The kind of program each probe kind is served by.
pub open spec fn spec_prog_type(p: ProbeView) -> ProgramType {
    match p {
        ProbeView::Kprobe { .. } => ProgramType::Kprobe,
        ProbeView::Kretprobe { .. } => ProgramType::Kprobe,
        ProbeView::Uprobe { .. } => ProgramType::Kprobe,
        ProbeView::Uretprobe { .. } => ProgramType::Kprobe,
        ProbeView::Usdt { .. } => ProgramType::Kprobe,
        ProbeView::Tracepoint { .. } => ProgramType::Tracepoint,
        ProbeView::Profile { .. } => ProgramType::PerfEvent,
        ProbeView::Interval { .. } => ProgramType::PerfEvent,
        ProbeView::Software { .. } => ProgramType::PerfEvent,
        ProbeView::Hardware { .. } => ProgramType::PerfEvent,
        ProbeView::Watchpoint { .. } => ProgramType::PerfEvent,
        ProbeView::Kfunc { .. } => ProgramType::Tracing,
        ProbeView::Kretfunc { .. } => ProgramType::Tracing,
    }
}

/// Which attach type each probe kind uses, where one applies.
pub open spec fn spec_attach_type(p: ProbeView) -> Option<ProgramAttachType> {
    match p {
        ProbeView::Kprobe { .. } => Some(ProgramAttachType::TraceFentry),
        ProbeView::Uprobe { .. } => Some(ProgramAttachType::TraceFentry),
        ProbeView::Usdt { .. } => Some(ProgramAttachType::TraceFentry),
        ProbeView::Kretprobe { .. } => Some(ProgramAttachType::TraceFexit),
        ProbeView::Uretprobe { .. } => Some(ProgramAttachType::TraceFexit),
        _ => None,
    }
}

/// Appends the `+offset` suffix for a non-zero offset.
fn append_offset(s: &mut String, offset: usize)
    ensures
        final(s)@ == old(s)@ + spec_print_offset(offset),
{
    proof {
        reveal_strlit("+");
    }
    if offset > 0 {
        s.append("+");
        let d = usize_to_dec(offset);
        s.append(d.as_str());
        proof {
            assert(s@ =~= old(s)@ + spec_print_offset(offset));
        }
    } else {
        proof {
            assert(s@ =~= old(s)@ + spec_print_offset(offset));
        }
    }
}

/// Appends the `path:` part of a user probe, when a path is set.
fn append_path(s: &mut String, path: &Option<String>)
    ensures
        final(s)@ == old(s)@ + spec_print_path(match path {
            Some(p) => Some(p@),
            None => None,
        }),
{
    proof {
        reveal_strlit(":");
    }
    match path {
        Some(p) => {
            s.append(p.as_str());
            s.append(":");
            proof {
                assert(s@ =~= old(s)@ + (p@ + seq![':']));
            }
        }
        None => {
            proof {
                assert(s@ =~= old(s)@ + Seq::<char>::empty());
            }
        }
    }
}

/// Appends the count of a software or hardware probe, when one is set.
fn append_count(s: &mut String, count: &Option<u64>)
    ensures
        final(s)@ == old(s)@ + spec_print_count(match count {
            Some(c) => Some(*c),
            None => None,
        }),
{
    match count {
        Some(c) => {
            let d = u64_to_dec(*c);
            s.append(d.as_str());
        }
        None => {
            proof {
                assert(s@ =~= old(s)@ + Seq::<char>::empty());
            }
        }
    }
}

} // verus!

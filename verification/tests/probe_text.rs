//! The probe grammar: parsing, printing, and the round trip between them.

use cargo_trace::parse::ProbeParseError;
use cargo_trace::probe::{
    HardwareEvent, Interval, Mode, Probe, ProgramAttachType, ProgramType, SoftwareEvent,
};

#[test]
fn probe_from_str() {
    let probes = [
        (
            "kprobe:finish_task_switch",
            Probe::Kprobe {
                symbol: "finish_task_switch".into(),
                offset: 0,
            },
        ),
        (
            "kprobe:finish_task_switch+8",
            Probe::Kprobe {
                symbol: "finish_task_switch".into(),
                offset: 8,
            },
        ),
        (
            "kretprobe:symbol",
            Probe::Kretprobe {
                symbol: "symbol".into(),
            },
        ),
        (
            "uprobe:/path:symbol",
            Probe::Uprobe {
                path: Some("/path".into()),
                symbol: "symbol".into(),
                offset: 0,
            },
        ),
        (
            "uprobe:/path:symbol+8",
            Probe::Uprobe {
                path: Some("/path".into()),
                symbol: "symbol".into(),
                offset: 8,
            },
        ),
        (
            "uretprobe:/path:symbol",
            Probe::Uretprobe {
                path: Some("/path".into()),
                symbol: "symbol".into(),
            },
        ),
        (
            "tracepoint:category:name",
            Probe::Tracepoint {
                category: "category".into(),
                name: "name".into(),
            },
        ),
        (
            "profile:ms:100",
            Probe::Profile {
                interval: Interval::Millis(100),
            },
        ),
        (
            "profile:hz:99",
            Probe::Profile {
                interval: Interval::Hz(99),
            },
        ),
        (
            "watchpoint:0x10000:8:rwx",
            Probe::Watchpoint {
                address: 0x10000,
                length: 8,
                mode: Mode {
                    read: true,
                    write: true,
                    execute: true,
                },
            },
        ),
    ];
    for (s, p) in probes.iter() {
        let p2: Probe = s.parse().unwrap();
        assert_eq!(*p, p2);
        let p2: Probe = p2.to_text().parse().unwrap();
        assert_eq!(*p, p2);
    }
}

#[test]
fn more_probe_round_trips() {
    let texts = [
        "usdt:/usr/lib/libc.so:probe_point",
        "software:cs:1",
        "software:context-switches:",
        "hardware:cache-misses:1000",
        "interval:s:2",
        "interval:us:250",
        "kfunc:do_sys_open",
        "kretfunc:do_sys_open",
        "watchpoint:ffff:4:w",
        "watchpoint:10000:8:",
    ];
    for s in texts.iter() {
        let p: Probe = s.parse().unwrap();
        let p2: Probe = p.to_text().parse().unwrap();
        assert_eq!(p, p2);
    }
}

#[test]
fn alias_prints_as_full_name() {
    let p: Probe = "software:cs:".parse().unwrap();
    assert_eq!(
        p,
        Probe::Software {
            event: SoftwareEvent::ContextSwitches,
            count: None,
        }
    );
    assert_eq!(p.to_text(), "software:context-switches:");
    let p: Probe = "hardware:cycles:7".parse().unwrap();
    assert_eq!(
        p,
        Probe::Hardware {
            event: HardwareEvent::CpuCycles,
            count: Some(7),
        }
    );
    assert_eq!(p.to_text(), "hardware:cpu-cycles:7");
}

#[test]
fn parse_faults() {
    assert_eq!(
        Probe::parse_str("mystery:abc"),
        Err(ProbeParseError::UnsupportedProbe("mystery".into()))
    );
    assert_eq!(
        Probe::parse_str("noseparator"),
        Err(ProbeParseError::Expected("probe_type:probe_args"))
    );
    assert_eq!(
        Probe::parse_str("profile:fortnights:1"),
        Err(ProbeParseError::UnsupportedUnit("fortnights".into()))
    );
    assert_eq!(
        Probe::parse_str("profile:hz:many"),
        Err(ProbeParseError::ParseInt)
    );
    assert_eq!(
        Probe::parse_str("kprobe:sym+junk"),
        Err(ProbeParseError::ParseInt)
    );
    assert_eq!(
        Probe::parse_str("uprobe:nopath"),
        Err(ProbeParseError::Expected("uprobe:path:symbol"))
    );
    assert_eq!(
        Probe::parse_str("watchpoint:0x1000:8:rq"),
        Err(ProbeParseError::Expected("rwx"))
    );
    assert_eq!(
        Probe::parse_str("software:nosuchevent:1"),
        Err(ProbeParseError::UnsupportedUnit("nosuchevent".into()))
    );
}

#[test]
fn event_tables() {
    assert_eq!(SoftwareEvent::ContextSwitches.name(), "context-switches");
    assert_eq!(SoftwareEvent::ContextSwitches.alias(), Some("cs"));
    assert_eq!(SoftwareEvent::ContextSwitches.default_count(), 1_000);
    assert_eq!(SoftwareEvent::CpuClock.default_count(), 1_000_000);
    assert_eq!(SoftwareEvent::Dummy.alias(), None);
    assert_eq!(SoftwareEvent::ContextSwitches.perf_config(), 3);
    assert_eq!(HardwareEvent::CacheMisses.name(), "cache-misses");
    assert_eq!(HardwareEvent::BranchMisses.default_count(), 100_000);
    assert_eq!(HardwareEvent::CpuCycles.alias(), Some("cycles"));
    assert_eq!(HardwareEvent::CacheMisses.perf_config(), 3);
}

#[test]
fn interval_setup_and_prog_types() {
    assert_eq!(Interval::Hz(99).perf_setup(), Some((true, 99)));
    assert_eq!(Interval::Millis(10).perf_setup(), Some((false, 10_000_000)));
    assert_eq!(Interval::Seconds(2).perf_setup(), Some((false, 2_000_000_000)));
    assert_eq!(Interval::Seconds(u64::MAX).perf_setup(), None);

    let p: Probe = "profile:hz:99".parse().unwrap();
    assert_eq!(p.prog_type(), ProgramType::PerfEvent);
    assert_eq!(p.attach_type(), None);
    let p: Probe = "kprobe:x".parse().unwrap();
    assert_eq!(p.prog_type(), ProgramType::Kprobe);
    assert_eq!(p.attach_type(), Some(ProgramAttachType::TraceFentry));
    let p: Probe = "kretprobe:x".parse().unwrap();
    assert_eq!(p.attach_type(), Some(ProgramAttachType::TraceFexit));
    let p: Probe = "kfunc:x".parse().unwrap();
    assert_eq!(p.prog_type(), ProgramType::Tracing);
}

#[test]
fn default_path_fills_only_missing() {
    let mut p: Probe = "uprobe:/lib/a.so:malloc".parse().unwrap();
    p.set_default_path("/bin/target");
    assert_eq!(
        p,
        Probe::Uprobe {
            path: Some("/lib/a.so".into()),
            symbol: "malloc".into(),
            offset: 0,
        }
    );
    let mut p = Probe::Usdt {
        path: None,
        probe: "mark".into(),
    };
    p.set_default_path("/bin/target");
    assert_eq!(
        p,
        Probe::Usdt {
            path: Some("/bin/target".into()),
            probe: "mark".into(),
        }
    );
}

//! Text output of aggregated samples, event-format parsing, and the small
//! time and identity helpers.

use cargo_trace::aggregate::{collapsed_line, frame_line, location_line, BpfStackFrames};
use cargo_trace::event::{
    parse_column, parse_decl, parse_field_line, parse_signed, parse_size, EventFormat,
    FieldFormat,
};
use cargo_trace::pid::PidTgid;
use cargo_trace::time::{Duration, Instant};

#[test]
fn collapsed_lines_read_root_first() {
    // The walker records the leaf first; the collapsed line prints the
    // root first.
    let symbols: Vec<String> = vec!["malloc".into(), "do_work".into(), "main".into()];
    assert_eq!(collapsed_line(&symbols, 3), "main;do_work;malloc 3");
    let one: Vec<String> = vec!["main".into()];
    assert_eq!(collapsed_line(&one, 1), "main 1");
    let none: Vec<String> = vec![];
    assert_eq!(collapsed_line(&none, 2), " 2");
}

#[test]
fn listing_lines() {
    assert_eq!(frame_line(4, "main"), "4: main");
    assert_eq!(
        location_line("src/lib.rs", Some(10), Some(7)),
        "    at src/lib.rs:10:7"
    );
    assert_eq!(location_line("src/lib.rs", Some(10), None), "    at src/lib.rs:10");
    assert_eq!(location_line("src/lib.rs", None, None), "    at src/lib.rs");
}

#[test]
fn raw_stacks_stop_at_zero() {
    let mut frames = BpfStackFrames { ip: [0; 127] };
    frames.ip[0] = 0x10;
    frames.ip[1] = 0x20;
    frames.ip[3] = 0x30;
    // The entry after the zero terminator is never reached.
    assert_eq!(frames.iter(), vec![0x10, 0x20]);
    let empty = BpfStackFrames { ip: [0; 127] };
    assert_eq!(empty.iter(), Vec::<u64>::new());
}

#[test]
fn event_columns_parse() {
    assert_eq!(parse_column(Some("size:2;")).unwrap(), "2");
    assert_eq!(parse_column(Some("offset:16")).unwrap(), "16");
    assert!(parse_column(Some("nosep")).is_err());
    assert!(parse_column(None).is_err());
    assert_eq!(parse_size(Some("size:2;")).unwrap(), 2);
    assert!(parse_size(Some("size:two;")).is_err());
    assert_eq!(parse_signed(Some("signed:0;")).unwrap(), false);
    assert_eq!(parse_signed(Some("signed:1;")).unwrap(), true);
    assert!(parse_signed(Some("signed:2;")).is_err());
}

#[test]
fn event_declarations_parse() {
    let (name, len) = parse_decl(Some("field:unsigned short common_type;")).unwrap();
    assert_eq!(name, "common_type");
    assert_eq!(len, None);
    let (name, len) = parse_decl(Some("field:char comm[16];")).unwrap();
    assert_eq!(name, "comm");
    assert_eq!(len, Some(16));
    assert!(parse_decl(Some("field:char bad[x];")).is_err());
}

#[test]
fn event_field_lines_parse() {
    let line = "\tfield:unsigned short common_type;\toffset:0;\tsize:2;\tsigned:0;";
    let (name, format) = parse_field_line(line).unwrap();
    assert_eq!(name, "common_type");
    assert_eq!(format, FieldFormat::Simple { signed: false, size: 2 });

    let line = "\tfield:char comm[16];\toffset:8;\tsize:16;\tsigned:1;";
    let (name, format) = parse_field_line(line).unwrap();
    assert_eq!(name, "comm");
    assert_eq!(
        format,
        FieldFormat::Array { signed: true, size: 1, len: 16 }
    );

    assert!(parse_field_line("no tabs here").is_err());

    let mut ef = EventFormat::new();
    ef.add_field(name, format);
    assert_eq!(ef.fields().len(), 1);
    assert_eq!(ef.fields()[0].0, "comm");
}

#[test]
fn whole_format_texts_parse() {
    let lines: Vec<String> = vec![
        "name: sys_enter".into(),
        "ID: 22".into(),
        "format:".into(),
        "\tfield:unsigned short common_type;\toffset:0;\tsize:2;\tsigned:0;".into(),
        "".into(),
        "\tfield:char comm[16];\toffset:8;\tsize:16;\tsigned:1;".into(),
        "print fmt: \"whatever\"".into(),
        "\tfield:int ignored_after_stop;\toffset:24;\tsize:4;\tsigned:1;".into(),
    ];
    let ef = EventFormat::parse(&lines).unwrap();
    assert_eq!(ef.fields().len(), 2);
    assert_eq!(ef.fields()[0].0, "common_type");
    assert_eq!(ef.fields()[0].1, FieldFormat::Simple { signed: false, size: 2 });
    assert_eq!(ef.fields()[1].0, "comm");
    assert_eq!(
        ef.fields()[1].1,
        FieldFormat::Array { signed: true, size: 1, len: 16 }
    );

    let broken: Vec<String> = vec![
        "a".into(),
        "b".into(),
        "c".into(),
        "\tfield:int x;\toffset:0;\tsize:four;\tsigned:0;".into(),
    ];
    assert!(EventFormat::parse(&broken).is_err());
}

#[test]
fn durations_and_instants() {
    let d = Duration::from_nanos(250);
    assert_eq!(d.as_nanos(), 250);
    assert_eq!(d.checked_add(Duration::from_nanos(50)), Some(Duration::from_nanos(300)));
    assert_eq!(Duration::from_nanos(u64::MAX).checked_add(Duration::from_nanos(1)), None);
    let earlier = Instant(100);
    let later = Instant(350);
    assert_eq!(later.duration_since(earlier), Some(Duration::from_nanos(250)));
    assert_eq!(earlier.duration_since(later), None);
    assert_eq!(earlier.elapsed(later), Duration::from_nanos(250));
}

#[test]
fn pid_unpacks_from_the_upper_half() {
    let packed = PidTgid((1234u64 << 32) | 0x5);
    assert_eq!(packed.pid(), 1234);
    assert_eq!(packed.tgid(), 0x5);
}

use causpan::collection::collect_trace;
use causpan::collection::collect_traces;
use causpan::collection::dedup_events;
use causpan::collection::same_event;
use causpan::collection::sort_and_dedup;
use causpan::collection::sort_events;
use causpan::collection::Trace;
use causpan::error::CauspanError;
use causpan::error::StraceParseSource;
use causpan::event::KernelEvent;
use causpan::event::KernelEventArgs;
use causpan::event::KernelEventType;
use causpan::number::NumberError;
use causpan::strace::checked_parse_strace_line;
use causpan::strace::line_pattern;
use causpan::strace::parse_args;
use causpan::strace::parse_parts;
use causpan::strace::parse_return_value;
use causpan::strace::parse_strace_line;
use causpan::strace::parse_timestamp_ns;
use causpan::strace::pid_from_file_text;
use causpan::strace::process_of;
use causpan::strace::syscall_name_to_event;
use causpan::strace::tgid_from_status;
use causpan::strace::tid_from_filename;
use causpan::strace::timestamp_is_representable;

fn arguments(a: &KernelEventArgs) -> Vec<Option<String>> {
    vec![
        a.arg0.clone(),
        a.arg1.clone(),
        a.arg2.clone(),
        a.arg3.clone(),
        a.arg4.clone(),
        a.arg5.clone(),
    ]
}

fn some(s: &str) -> Option<String> {
    Some(s.to_string())
}

fn owned(lines: &[&str]) -> Vec<String> {
    lines.iter().map(|l| l.to_string()).collect()
}

fn number_error(source: NumberError) -> CauspanError {
    CauspanError::StraceParse { line: 0, source: StraceParseSource::Number(source) }
}

#[test]
fn timestamps_become_nanoseconds() {
    assert_eq!(parse_timestamp_ns("12345.678901234"), Ok(12345678901234));
    assert_eq!(parse_timestamp_ns("12345.678901"), Ok(12345678901000));
    assert_eq!(parse_timestamp_ns("0.5"), Ok(500_000_000));
    assert_eq!(parse_timestamp_ns("7.000000001"), Ok(7_000_000_001));
    assert_eq!(parse_timestamp_ns("18446744073.709551615"), Ok(u64::MAX));
}

#[test]
fn unreadable_timestamps_are_errors() {
    let missing = parse_timestamp_ns("12345");
    assert_eq!(
        missing,
        Err(CauspanError::StraceParse { line: 0, source: StraceParseSource::MissingDecimalPoint })
    );
    assert_eq!(
        missing.unwrap_err().message(),
        "strace parsing error at line 0: missing decimal point in timestamp"
    );
    assert_eq!(parse_timestamp_ns(".5"), Err(number_error(NumberError::Empty)));
    assert_eq!(parse_timestamp_ns("5."), Err(number_error(NumberError::Empty)));
    assert_eq!(parse_timestamp_ns("a.5"), Err(number_error(NumberError::InvalidDigit)));
    assert_eq!(parse_timestamp_ns("1.2.3"), Err(number_error(NumberError::InvalidDigit)));
    assert_eq!(
        parse_timestamp_ns("18446744073709551616.0"),
        Err(number_error(NumberError::PosOverflow))
    );
    assert_eq!(
        number_error(NumberError::InvalidDigit).message(),
        "strace parsing error at line 0: invalid digit found in string"
    );
}

#[test]
fn too_fine_or_too_late_timestamps_are_found() {
    assert!(timestamp_is_representable("1.123456789"));
    assert!(!timestamp_is_representable("1.1234567890"));
    assert!(timestamp_is_representable("18446744073.709551615"));
    assert!(!timestamp_is_representable("18446744073.709551616"));
    assert!(!timestamp_is_representable("18446744074.0"));
    assert!(timestamp_is_representable("no timestamp"));
}

#[test]
fn syscalls_have_event_types() {
    let all = [
        ("openat", KernelEventType::Openat),
        ("read", KernelEventType::Read),
        ("write", KernelEventType::Write),
        ("socket", KernelEventType::Socket),
        ("connect", KernelEventType::Connect),
        ("clone", KernelEventType::Clone),
        ("fork", KernelEventType::Fork),
        ("execve", KernelEventType::Execve),
        ("unknown", KernelEventType::Unknown),
    ];
    for (name, t) in all {
        assert_eq!(syscall_name_to_event(name), t);
        assert_eq!(t.to_string(), name);
        assert_eq!(syscall_name_to_event(&t.to_string()), t);
    }
    assert_eq!(syscall_name_to_event("openat2"), KernelEventType::Unknown);
    assert_eq!(syscall_name_to_event(""), KernelEventType::Unknown);
}

#[test]
fn arguments_are_split_trimmed_and_unquoted() {
    let a = parse_args("AT_FDCWD, \"/tmp/causpan/rpc-1-read.bin\", O_RDONLY");
    assert_eq!(
        arguments(&a),
        vec![some("AT_FDCWD"), some("/tmp/causpan/rpc-1-read.bin"), some("O_RDONLY"), None, None, None]
    );
    assert_eq!(arguments(&parse_args("")), vec![some(""), None, None, None, None, None]);
    assert_eq!(
        arguments(&parse_args("1,2,3,4,5,6,7")),
        vec![some("1"), some("2"), some("3"), some("4"), some("5"), some("6")]
    );
}

#[test]
fn arguments_fill_places_from_the_left() {
    assert_eq!(arguments(&KernelEventArgs::from_vec(&[])), vec![None; 6]);
    assert_eq!(
        arguments(&KernelEventArgs::from_vec(&["a", "b"])),
        vec![some("a"), some("b"), None, None, None, None]
    );
    assert_eq!(arguments(&KernelEventArgs::default()), vec![None; 6]);
}

#[test]
fn return_values_are_decimal_or_hexadecimal() {
    assert_eq!(parse_return_value("3"), Some(3));
    assert_eq!(parse_return_value("-1"), Some(-1));
    assert_eq!(parse_return_value("0x1f"), Some(31));
    assert_eq!(parse_return_value("0X1f"), Some(31));
    assert_eq!(parse_return_value("0x"), None);
    assert_eq!(parse_return_value("abc"), None);
    assert_eq!(parse_return_value("0xffffffffffffffff"), None);
}

#[test]
fn a_line_is_parsed() {
    let line = "12345.678901234  openat(AT_FDCWD, \"/tmp/causpan/rpc-1-read.bin\", O_RDONLY) = 3";
    let p = parse_strace_line(line).unwrap().unwrap();
    assert_eq!(p.timestamp_ns, 12345678901234);
    assert_eq!(p.event_type, KernelEventType::Openat);
    assert_eq!(
        arguments(&p.args),
        vec![some("AT_FDCWD"), some("/tmp/causpan/rpc-1-read.bin"), some("O_RDONLY"), None, None, None]
    );
    assert_eq!(p.return_value, Some(3));
    let line = "12345.679012345  read(3, \"rpc-1-seed\\n\", 4096)     = 12";
    let p = parse_strace_line(line).unwrap().unwrap();
    assert_eq!(p.timestamp_ns, 12345679012345);
    assert_eq!(p.event_type, KernelEventType::Read);
    assert_eq!(p.return_value, Some(12));
}

#[test]
fn a_line_may_name_a_thread_and_lack_a_return_value() {
    let p = parse_strace_line("1.5 4711 fork()").unwrap().unwrap();
    assert_eq!(p.timestamp_ns, 1_500_000_000);
    assert_eq!(p.event_type, KernelEventType::Fork);
    assert_eq!(p.return_value, None);
    assert_eq!(arguments(&p.args)[0], some(""));
    let p = parse_strace_line("1.5 mmap(NULL, 4096) = 0x7f00").unwrap().unwrap();
    assert_eq!(p.event_type, KernelEventType::Unknown);
    assert_eq!(p.return_value, Some(0));
    let p = parse_strace_line("1.5 mmap(NULL, 4096) = ?").unwrap().unwrap();
    assert_eq!(p.return_value, None);
}

#[test]
fn other_lines_say_nothing() {
    for line in ["", "+++ exited with 0 +++", "--- SIGCHLD ---", "openat(3) = 1", " 1.5 read(3) = 1", "1 read(3) = 1"] {
        assert!(matches!(parse_strace_line(line), Ok(None)), "{:?}", line);
    }
    assert!(line_pattern().starts_with("^(?P<ts>"));
}

#[test]
fn digits_of_other_scripts_are_an_error() {
    // The expression takes them for digits; the number they stand in cannot be read.
    let e = parse_strace_line("\u{661}.\u{662} read(3) = 1").unwrap_err();
    assert_eq!(e, number_error(NumberError::InvalidDigit));
}

#[test]
fn checked_parsing_finds_what_does_not_fit() {
    assert!(checked_parse_strace_line("1.1234567890 read(3) = 1").is_none());
    assert!(checked_parse_strace_line("99999999999.0 read(3) = 1").is_none());
    assert!(matches!(checked_parse_strace_line("+++ exited with 0 +++"), Some(Ok(None))));
    let p = checked_parse_strace_line("1.5 read(3) = 1").unwrap().unwrap().unwrap();
    assert_eq!(p.timestamp_ns, 1_500_000_000);
}

#[test]
fn parts_are_put_together() {
    let p = parse_parts("2.25", "write", "3, \"x\"", Some("-1")).unwrap();
    assert_eq!(p.timestamp_ns, 2_250_000_000);
    assert_eq!(p.event_type, KernelEventType::Write);
    assert_eq!(arguments(&p.args)[1], some("x"));
    assert_eq!(p.return_value, Some(-1));
    assert_eq!(parse_parts("x.1", "write", "", None).unwrap_err(), number_error(NumberError::InvalidDigit));
}

#[test]
fn the_thread_group_is_read_from_the_status() {
    let status = "Name:\tworkload\nUmask:\t0022\nState:\tS (sleeping)\nTgid:\t4711\nNgid:\t0\nPid:\t4713\n";
    assert_eq!(tgid_from_status(status, 4713), 4711);
    assert_eq!(tgid_from_status("Name:\tworkload\n", 4713), 4713);
    assert_eq!(tgid_from_status("Tgid:\nTgid:\tx\nTgid:\t5\n", 4713), 5);
    assert_eq!(tgid_from_status("", 4713), 4713);
}

#[test]
fn the_pid_file_is_read() {
    assert_eq!(pid_from_file_text("4711\n"), Some(4711));
    assert_eq!(pid_from_file_text("  12 "), Some(12));
    assert_eq!(pid_from_file_text(""), None);
    assert_eq!(pid_from_file_text("4294967296"), None);
}

#[test]
fn the_thread_is_read_from_the_file_name() {
    assert_eq!(tid_from_filename("strace.4711"), Some(4711));
    assert_eq!(tid_from_filename("strace.c001-r002.17"), Some(17));
    assert_eq!(tid_from_filename("4711"), Some(4711));
    assert_eq!(tid_from_filename("strace"), None);
    assert_eq!(tid_from_filename("strace."), None);
    assert_eq!(tid_from_filename(""), None);
}

#[test]
fn a_trace_is_collected() {
    let ls = owned(&[
        "2.0 openat(AT_FDCWD, \"/a\", O_RDONLY) = 3",
        "+++ exited with 0 +++",
        "1.0 read(3, \"\", 10) = 0",
    ]);
    let events = collect_trace(&ls, Some(7), 5).unwrap().unwrap();
    assert_eq!(events.len(), 2);
    assert_eq!((events[0].pid, events[0].tid, events[0].timestamp_ns), (5, 7, 2_000_000_000));
    assert_eq!(events[0].event_type, KernelEventType::Openat);
    assert_eq!(events[0].args.arg1, some("/a"));
    assert_eq!(events[0].return_value, Some(3));
    assert_eq!(events[1].event_type, KernelEventType::Read);
    // Without a thread there are no events, but errors are found.
    assert!(collect_trace(&ls, None, 5).unwrap().unwrap().is_empty());
    let bad = owned(&["1.0 read(3) = 0", "\u{661}.0 read(3) = 0", "1.12345678901 read(3) = 0"]);
    assert_eq!(collect_trace(&bad, None, 5).unwrap().unwrap_err(), number_error(NumberError::InvalidDigit));
    let late = owned(&["1.0 read(3) = 0", "1.12345678901 read(3) = 0", "\u{661}.0 read(3) = 0"]);
    assert!(collect_trace(&late, Some(7), 5).is_none());
}

fn event(ts: u64, name: &str, fd: &str) -> KernelEvent {
    KernelEvent {
        pid: 1,
        tid: 2,
        timestamp_ns: ts,
        event_type: syscall_name_to_event(name),
        args: KernelEventArgs::from_vec(&[fd]),
        return_value: Some(0),
    }
}

fn shown(events: &[KernelEvent]) -> Vec<(u64, String, Option<String>)> {
    events
        .iter()
        .map(|e| (e.timestamp_ns, e.event_type.to_string(), e.args.arg0.clone()))
        .collect()
}

#[test]
fn events_are_sorted_by_time() {
    let out = sort_events(vec![event(5, "read", "1"), event(2, "write", "2"), event(5, "openat", "3"), event(2, "read", "4")]);
    assert_eq!(
        shown(&out),
        vec![
            (2, "write".to_string(), some("2")),
            (2, "read".to_string(), some("4")),
            (5, "read".to_string(), some("1")),
            (5, "openat".to_string(), some("3")),
        ]
    );
}

#[test]
fn repeated_events_are_dropped() {
    let out = sort_and_dedup(vec![
        event(5, "read", "1"),
        event(2, "write", "2"),
        event(5, "openat", "3"),
        event(5, "read", "1"),
        event(2, "write", "2"),
        event(5, "read", "2"),
    ]);
    assert_eq!(
        shown(&out),
        vec![
            (2, "write".to_string(), some("2")),
            (5, "read".to_string(), some("1")),
            (5, "openat".to_string(), some("3")),
            (5, "read".to_string(), some("2")),
        ]
    );
    assert_eq!(dedup_events(Vec::new()).len(), 0);
}

#[test]
fn events_are_compared_by_all_they_say() {
    let a = event(1, "read", "1");
    assert!(same_event(&a, &a.clone()));
    let mut b = a.clone();
    b.return_value = None;
    assert!(!same_event(&a, &b));
    let mut b = a.clone();
    b.args.arg5 = some("x");
    assert!(!same_event(&a, &b));
    let mut b = a.clone();
    b.pid = 9;
    assert!(!same_event(&a, &b));
}

#[test]
fn the_process_of_a_thread_is_found() {
    let status = "Name:\tworkload\nTgid:\t4711\n";
    assert_eq!(process_of(Some("17\n"), Some(status), 9), 17);
    assert_eq!(process_of(Some("x"), Some(status), 9), 4711);
    assert_eq!(process_of(None, Some(status), 9), 4711);
    assert_eq!(process_of(None, Some("Name:\tworkload\n"), 9), 9);
    assert_eq!(process_of(Some(""), None, 9), 9);
    assert_eq!(process_of(None, None, 9), 9);
}

fn trace(name: Option<&str>, lines: &[&str]) -> Trace {
    Trace { name: name.map(|n| n.to_string()), status: None, lines: owned(lines) }
}

#[test]
fn traces_are_merged_in_the_order_of_time() {
    let one = trace(Some("trace.7"), &["1.0 read(1) = 0", "3.0 read(2) = 0"]);
    let two = trace(Some("trace.8"), &["2.0 write(3) = 0", "3.0 write(4) = 0"]);
    let unnamed = trace(Some("trace"), &["0.5 read(9) = 0"]);
    let odd = trace(None, &["0.5 read(9) = 0"]);
    let all = vec![two.clone(), unnamed, odd, one.clone()];
    let events = collect_traces(&all, Some("5\n")).unwrap().unwrap();
    let order: Vec<(u64, u32, u32, Option<String>)> =
        events.iter().map(|e| (e.timestamp_ns, e.pid, e.tid, e.args.arg0.clone())).collect();
    assert_eq!(
        order,
        vec![
            (1_000_000_000, 5, 7, some("1")),
            (2_000_000_000, 5, 8, some("3")),
            (3_000_000_000, 5, 8, some("4")),
            (3_000_000_000, 5, 7, some("2")),
        ]
    );
    assert!(collect_traces(&vec![], None).unwrap().unwrap().is_empty());
    let bad = trace(None, &["\u{661}.0 read(3) = 0"]);
    let late = trace(Some("trace.1"), &["1.12345678901 read(3) = 0"]);
    let e = collect_traces(&vec![one.clone(), bad.clone(), late.clone()], None)
        .unwrap()
        .unwrap_err();
    assert_eq!(e, number_error(NumberError::InvalidDigit));
    assert!(collect_traces(&vec![one, late, bad], None).is_none());
}

#[test]
fn without_a_pid_file_the_status_gives_the_process() {
    let mut with_status = trace(Some("trace.7"), &["1.0 read(1) = 0"]);
    with_status.status = Some("Tgid:\t6\n".to_string());
    let without = trace(Some("trace.8"), &["2.0 read(1) = 0"]);
    let events = collect_traces(&vec![with_status, without], None).unwrap().unwrap();
    assert_eq!((events[0].pid, events[0].tid), (6, 7));
    assert_eq!((events[1].pid, events[1].tid), (8, 8));
}

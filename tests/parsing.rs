use auditlog::model::{AuditType, ParseError, Timestamp};
use auditlog::parse::{parse_event, parse_time};

const EVENT_SYSCALL: &str = "type=SYSCALL msg=audit(1731248208.117:6983): arch=c000003e syscall=42 success=yes exit=0 a0=b a1=7ffda809ac90 a2=10 a3=7ffda809ac34 items=0 ppid=1 pid=2405 auid=4294967295 uid=101 gid=103 euid=101 suid=101 fsuid=101 egid=103 sgid=103 fsgid=103 tty=(none) ses=4294967295 comm=\"systemd-resolve\" exe=\"/usr/lib/systemd/systemd-resolved\" subj=unconfined key=\"network_connect\"\u{1d}ARCH=x86_64 SYSCALL=connect AUID=\"unset\" UID=\"systemd-resolve\" GID=\"systemd-resolve\" EUID=\"systemd-resolve\" SUID=\"systemd-resolve\" FSUID=\"systemd-resolve\" EGID=\"systemd-resolve\" SGID=\"systemd-resolve\" FSGID=\"systemd-resolve\"";

const EVENT_SOCKADDR: &str = "type=SOCKADDR msg=audit(1731248208.117:6983): saddr=02000035646464640000000000000000\u{1d}SADDR={ saddr_fam=inet laddr=100.100.100.100 lport=53 }";

#[test]
fn test_parse_syscall_enhanced() {
    let record = parse_event(EVENT_SYSCALL).unwrap();
    assert_eq!(record.data.get("key"), Some("network_connect"));
    assert_eq!(record.data.get("ARCH"), Some("x86_64"));
    assert_eq!(
        record.data.get("exe"),
        Some("/usr/lib/systemd/systemd-resolved")
    );
    assert_eq!(record.data.get("SYSCALL"), Some("connect"));
    assert_eq!(record.data.get("SGID"), Some("systemd-resolve"));
    assert_eq!(record.data.get("FSGID"), Some("systemd-resolve"));
}

#[test]
fn test_parse_sockaddr_enhanced() {
    let record = parse_event(EVENT_SOCKADDR).unwrap();
    assert_eq!(record.data.get("laddr"), Some("100.100.100.100"));
    assert_eq!(record.data.get("lport"), Some("53"));
}

#[test]
fn test_parse_time() {
    let test = "1731248210.306:7020";
    let result = parse_time(test).unwrap();
    let ts = jiff::Timestamp::new(result.seconds, result.nanoseconds).unwrap();
    let formatted = jiff::fmt::strtime::format("%a %-d %b %Y %T", ts).unwrap();
    assert_eq!(formatted, "Sun 10 Nov 2024 14:16:50");
}

#[test]
fn syscall_line_gives_kind_id_time_and_fields() {
    let record = parse_event("type=SYSCALL msg=audit(1731248208.117:6983): a=1 b=2").unwrap();
    assert_eq!(record.event_type, AuditType::SysCall);
    assert_eq!(record.id, "1731248208.117:6983");
    assert_eq!(record.time, Timestamp { seconds: 1731248208, nanoseconds: 117 });
    assert_eq!(record.data.get("a"), Some("1"));
    assert_eq!(record.data.get("b"), Some("2"));
    assert_eq!(record.data.get("c"), None);
}

#[test]
fn later_duplicate_key_wins() {
    let record = parse_event("type=SYSCALL msg=audit(1.2:3): uid=101 x=y uid=202").unwrap();
    assert_eq!(record.data.get("uid"), Some("202"));
    assert_eq!(record.data.get("x"), Some("y"));
}

#[test]
fn enrichment_separator_ends_a_value() {
    let record = parse_event("type=SYSCALL msg=audit(1.2:3): syscall=42\u{1d}SYSCALL=connect").unwrap();
    assert_eq!(record.data.get("syscall"), Some("42"));
    assert_eq!(record.data.get("SYSCALL"), Some("connect"));
}

#[test]
fn quoted_value_loses_its_quotes() {
    let line = "type=SYSCALL msg=audit(1.2:3): exe=\"/usr/lib/systemd/systemd-resolved\" pid=7";
    let record = parse_event(line).unwrap();
    assert_eq!(record.data.get("exe"), Some("/usr/lib/systemd/systemd-resolved"));
    assert_eq!(record.data.get("pid"), Some("7"));
}

#[test]
fn quoted_value_keeps_inner_spaces() {
    let record = parse_event("type=USER_CMD msg=audit(1.2:3): cmd=\"ls -l\" res=ok").unwrap();
    assert_eq!(record.event_type, AuditType::UserCmd);
    assert_eq!(record.data.get("cmd"), Some("ls -l"));
    assert_eq!(record.data.get("res"), Some("ok"));
}

#[test]
fn unterminated_quote_is_an_error() {
    let r = parse_event("type=SYSCALL msg=audit(1.2:3): exe=\"/bin/x pid=7");
    assert_eq!(r.err(), Some(ParseError::UnterminatedQuote));
}

#[test]
fn field_without_equals_is_an_error() {
    let r = parse_event("type=SYSCALL msg=audit(1.2:3): a=1 junk");
    assert_eq!(r.err(), Some(ParseError::MalformedField));
}

#[test]
fn trailing_separator_and_empty_list_are_accepted() {
    let record = parse_event("type=CWD msg=audit(1.2:3): cwd=/root ").unwrap();
    assert_eq!(record.data.get("cwd"), Some("/root"));
    let empty = parse_event("type=PROCTITLE msg=audit(1.2:3): ").unwrap();
    assert_eq!(empty.event_type, AuditType::ProcTitle);
    assert_eq!(empty.data.get("cwd"), None);
}

#[test]
fn sockaddr_block_fields_only() {
    let line = "type=SOCKADDR msg=audit(1.2:3): saddr=02000035646464640000000000000000\u{1d}SADDR={ saddr_fam=inet laddr=100.100.100.100 lport=53 }";
    let record = parse_event(line).unwrap();
    assert_eq!(record.event_type, AuditType::SockAddr);
    assert_eq!(record.data.get("laddr"), Some("100.100.100.100"));
    assert_eq!(record.data.get("lport"), Some("53"));
    assert_eq!(record.data.get("saddr_fam"), Some("inet"));
    assert_eq!(record.data.get("saddr"), None);
}

#[test]
fn sockaddr_without_block_uses_flat_list() {
    let record = parse_event("type=SOCKADDR msg=audit(1.2:3): saddr=0100 path=/run/x.sock").unwrap();
    assert_eq!(record.data.get("saddr"), Some("0100"));
    assert_eq!(record.data.get("path"), Some("/run/x.sock"));
}

#[test]
fn unparseable_timestamp() {
    let r = parse_event("type=SYSCALL msg=audit(abc): a=1");
    assert_eq!(r.err(), Some(ParseError::MalformedTimestamp));
}

#[test]
fn timestamp_out_of_range() {
    let too_late = parse_event("type=SYSCALL msg=audit(253402207201.0:1): a=1");
    assert_eq!(too_late.err(), Some(ParseError::MalformedTimestamp));
    let last = parse_event("type=SYSCALL msg=audit(253402207200.0:1): a=1").unwrap();
    assert_eq!(last.time.seconds, 253402207200);
    let too_many_nanos = parse_event("type=SYSCALL msg=audit(1.1000000000:1): a=1");
    assert_eq!(too_many_nanos.err(), Some(ParseError::MalformedTimestamp));
    let huge = parse_event("type=SYSCALL msg=audit(99999999999999999999999.1:1): a=1");
    assert_eq!(huge.err(), Some(ParseError::MalformedTimestamp));
}

#[test]
fn parse_time_values() {
    assert_eq!(parse_time("1.999999999:4"), Some(Timestamp { seconds: 1, nanoseconds: 999999999 }));
    assert_eq!(parse_time("12.5"), Some(Timestamp { seconds: 12, nanoseconds: 5 }));
    assert_eq!(parse_time(".5:1"), None);
    assert_eq!(parse_time("12.:1"), None);
    assert_eq!(parse_time("1x.5:1"), None);
}

#[test]
fn unknown_kind() {
    let r = parse_event("type=FOO msg=audit(1.2:3): a=1");
    assert_eq!(r.err(), Some(ParseError::UnknownEventKind("FOO".to_string())));
    assert_eq!(AuditType::from_str("FOO"), Err(ParseError::UnknownEventKind("FOO".to_string())));
    assert_eq!(AuditType::from_str("SERVICE_STOP"), Ok(AuditType::ServiceStop));
    assert_eq!(AuditType::from_str("BPF"), Ok(AuditType::Bpf));
}

#[test]
fn missing_header_parts() {
    assert_eq!(parse_event("msg=audit(1.2:3): a=1").err(), Some(ParseError::MalformedHeader));
    assert_eq!(parse_event("type=SYSCALL").err(), Some(ParseError::MalformedHeader));
    assert_eq!(parse_event("type=SYSCALL audit(1.2:3): a=1").err(), Some(ParseError::MalformedHeader));
    assert_eq!(parse_event("type=SYSCALL msg=audit(1.2:3) a=1").err(), Some(ParseError::MalformedHeader));
    assert_eq!(parse_event("").err(), Some(ParseError::MalformedHeader));
}

#[test]
fn same_line_parses_the_same_twice() {
    let a = parse_event(EVENT_SYSCALL).unwrap();
    let b = parse_event(EVENT_SYSCALL).unwrap();
    assert_eq!(a.id, b.id);
    assert_eq!(a.time, b.time);
    assert_eq!(a.event_type, b.event_type);
    for key in ["arch", "exe", "key", "ARCH", "SYSCALL", "UID", "comm", "tty"] {
        assert_eq!(a.data.get(key), b.data.get(key));
    }
    assert_eq!(a.data.get("comm"), Some("systemd-resolve"));
}

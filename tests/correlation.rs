use auditlog::correlate::{is_connect_call, Correlator, Fact, HostnameCache};
use auditlog::model::Timestamp;
use auditlog::parse::parse_event;

fn connection(fact: &Fact) -> (String, String, String, String) {
    match fact {
        Fact::Connection { uid, exe, peer, port, .. } => (uid.clone(), exe.clone(), peer.clone(), port.clone()),
        Fact::Socket { .. } => panic!("expected a connection"),
    }
}

#[test]
fn syscall_then_sockaddr_joins_once() {
    let mut c = Correlator::new();
    let call = parse_event("type=SYSCALL msg=audit(5.1:1): exe=\"/bin/x\" uid=101 SYSCALL=connect").unwrap();
    let addr = parse_event("type=SOCKADDR msg=audit(5.1:1): SADDR={ saddr_fam=inet laddr=8.8.8.8 lport=53 }").unwrap();
    assert!(c.observe(&call, None).is_empty());
    assert_eq!(c.exe_by_id.get("5.1:1"), Some("/bin/x"));
    let facts = c.observe(&addr, Some("8.8.8.8".to_string()));
    assert_eq!(facts.len(), 1);
    assert_eq!(
        connection(&facts[0]),
        ("101".to_string(), "/bin/x".to_string(), "8.8.8.8".to_string(), "53".to_string())
    );
    match &facts[0] {
        Fact::Connection { time, .. } => assert_eq!(*time, Timestamp { seconds: 5, nanoseconds: 1 }),
        Fact::Socket { .. } => panic!("expected a connection"),
    }
    assert_eq!(c.exe_by_id.get("5.1:1"), None);
    assert_eq!(c.uid_by_id.get("5.1:1"), None);
    let again = c.observe(&addr, Some("dns.google".to_string()));
    assert_eq!(again.len(), 1);
    assert_eq!(
        connection(&again[0]),
        (String::new(), String::new(), "dns.google".to_string(), "53".to_string())
    );
}

#[test]
fn readable_user_is_preferred() {
    let mut c = Correlator::new();
    let call = parse_event("type=SYSCALL msg=audit(5.1:2): uid=101 exe=/bin/y\u{1d}UID=\"resolver\"").unwrap();
    c.observe(&call, None);
    assert_eq!(c.uid_by_id.get("5.1:2"), Some("resolver"));
}

#[test]
fn unix_socket_and_missing_port() {
    let mut c = Correlator::new();
    let call = parse_event("type=SYSCALL msg=audit(5.1:3): exe=/bin/z UID=root").unwrap();
    let addr = parse_event("type=SOCKADDR msg=audit(5.1:3): SADDR={ saddr_fam=local path=/run/a.sock }").unwrap();
    c.observe(&call, None);
    let facts = c.observe(&addr, None);
    assert_eq!(facts.len(), 1);
    match &facts[0] {
        Fact::Socket { uid, exe, path, .. } => {
            assert_eq!(uid, "root");
            assert_eq!(exe, "/bin/z");
            assert_eq!(path, "/run/a.sock");
        }
        Fact::Connection { .. } => panic!("expected a socket"),
    }
    let both = parse_event("type=SOCKADDR msg=audit(5.1:4): laddr=1.2.3.4 path=/x").unwrap();
    let facts = c.observe(&both, Some("host".to_string()));
    assert_eq!(facts.len(), 2);
    assert_eq!(
        connection(&facts[0]),
        (String::new(), String::new(), "host".to_string(), "none".to_string())
    );
}

#[test]
fn other_kinds_change_nothing() {
    let mut c = Correlator::new();
    let call = parse_event("type=SYSCALL msg=audit(5.1:5): exe=/bin/w uid=7").unwrap();
    c.observe(&call, None);
    let cwd = parse_event("type=CWD msg=audit(5.1:5): cwd=/").unwrap();
    assert!(c.observe(&cwd, Some("h".to_string())).is_empty());
    assert_eq!(c.exe_by_id.get("5.1:5"), Some("/bin/w"));
    assert_eq!(c.uid_by_id.get("5.1:5"), Some("7"));
}

#[test]
fn failed_parse_leaves_state_alone() {
    let mut c = Correlator::new();
    let call = parse_event("type=SYSCALL msg=audit(5.1:6): exe=/bin/v uid=9").unwrap();
    c.observe(&call, None);
    assert!(parse_event("type=SOCKADDR msg=audit(abc): laddr=1.1.1.1").is_err());
    assert_eq!(c.exe_by_id.get("5.1:6"), Some("/bin/v"));
}

#[test]
fn connect_calls_are_counted() {
    let call = parse_event("type=SYSCALL msg=audit(5.1:7): syscall=42\u{1d}SYSCALL=connect").unwrap();
    let other = parse_event("type=SYSCALL msg=audit(5.1:8): SYSCALL=sendto").unwrap();
    let addr = parse_event("type=SOCKADDR msg=audit(5.1:7): SYSCALL=connect").unwrap();
    assert!(is_connect_call(&call));
    assert!(!is_connect_call(&other));
    assert!(!is_connect_call(&addr));
}

#[test]
fn cache_remembers_names_and_failures() {
    let mut cache = HostnameCache::new();
    assert_eq!(cache.cached("8.8.8.8"), None);
    assert_eq!(cache.remember("8.8.8.8", Some("dns.google".to_string())), "dns.google");
    assert_eq!(cache.cached("8.8.8.8"), Some("dns.google"));
    assert_eq!(cache.remember("10.0.0.1", None), "10.0.0.1");
    assert_eq!(cache.cached("10.0.0.1"), Some("10.0.0.1"));
}

//! The typed audit record and the closed set of record kinds.
use vstd::prelude::*;
use crate::table::Table;
use crate::text::{chars_of, segment_is};

verus! {

/// The audit record types that are understood.
#[derive(Debug, Clone, Copy, PartialEq, Eq, Structural)]
pub enum AuditType {
    SysCall,
    SockAddr,
    Cwd,
    Path,
    ProcTitle,
    UserAcct,
    CredAcq,
    UserAuth,
    UserCmd,
    UserStart,
    UserEnd,
    UserAvc,
    Login,
    CredRefr,
    CredDisp,
    DaemonEnd,
    ServiceStart,
    ServiceStop,
    Bpf,
}

/// The kind that a `type=` token names, if any.
pub open spec fn kind_named(t: Seq<char>) -> Option<AuditType> {
    if t == "SYSCALL"@ {
        Some(AuditType::SysCall)
    } else if t == "SOCKADDR"@ {
        Some(AuditType::SockAddr)
    } else if t == "CWD"@ {
        Some(AuditType::Cwd)
    } else if t == "PATH"@ {
        Some(AuditType::Path)
    } else if t == "PROCTITLE"@ {
        Some(AuditType::ProcTitle)
    } else if t == "USER_ACCT"@ {
        Some(AuditType::UserAcct)
    } else if t == "CRED_ACQ"@ {
        Some(AuditType::CredAcq)
    } else if t == "USER_AUTH"@ {
        Some(AuditType::UserAuth)
    } else if t == "USER_CMD"@ {
        Some(AuditType::UserCmd)
    } else if t == "USER_START"@ {
        Some(AuditType::UserStart)
    } else if t == "USER_END"@ {
        Some(AuditType::UserEnd)
    } else if t == "USER_AVC"@ {
        Some(AuditType::UserAvc)
    } else if t == "LOGIN"@ {
        Some(AuditType::Login)
    } else if t == "CRED_REFR"@ {
        Some(AuditType::CredRefr)
    } else if t == "CRED_DISP"@ {
        Some(AuditType::CredDisp)
    } else if t == "DAEMON_END"@ {
        Some(AuditType::DaemonEnd)
    } else if t == "SERVICE_START"@ {
        Some(AuditType::ServiceStart)
    } else if t == "SERVICE_STOP"@ {
        Some(AuditType::ServiceStop)
    } else if t == "BPF"@ {
        Some(AuditType::Bpf)
    } else {
        None
    }
}

/// The kind that the token `v[a..b]` names.
pub fn kind_of_segment(v: &Vec<char>, a: usize, b: usize) -> (r: Option<AuditType>)
    requires
        a <= b <= v.len(),
    ensures
        r == kind_named(v@.subrange(a as int, b as int)),
{
    if segment_is(v, a, b, "SYSCALL") {
        Some(AuditType::SysCall)
    } else if segment_is(v, a, b, "SOCKADDR") {
        Some(AuditType::SockAddr)
    } else if segment_is(v, a, b, "CWD") {
        Some(AuditType::Cwd)
    } else if segment_is(v, a, b, "PATH") {
        Some(AuditType::Path)
    } else if segment_is(v, a, b, "PROCTITLE") {
        Some(AuditType::ProcTitle)
    } else if segment_is(v, a, b, "USER_ACCT") {
        Some(AuditType::UserAcct)
    } else if segment_is(v, a, b, "CRED_ACQ") {
        Some(AuditType::CredAcq)
    } else if segment_is(v, a, b, "USER_AUTH") {
        Some(AuditType::UserAuth)
    } else if segment_is(v, a, b, "USER_CMD") {
        Some(AuditType::UserCmd)
    } else if segment_is(v, a, b, "USER_START") {
        Some(AuditType::UserStart)
    } else if segment_is(v, a, b, "USER_END") {
        Some(AuditType::UserEnd)
    } else if segment_is(v, a, b, "USER_AVC") {
        Some(AuditType::UserAvc)
    } else if segment_is(v, a, b, "LOGIN") {
        Some(AuditType::Login)
    } else if segment_is(v, a, b, "CRED_REFR") {
        Some(AuditType::CredRefr)
    } else if segment_is(v, a, b, "CRED_DISP") {
        Some(AuditType::CredDisp)
    } else if segment_is(v, a, b, "DAEMON_END") {
        Some(AuditType::DaemonEnd)
    } else if segment_is(v, a, b, "SERVICE_START") {
        Some(AuditType::ServiceStart)
    } else if segment_is(v, a, b, "SERVICE_STOP") {
        Some(AuditType::ServiceStop)
    } else if segment_is(v, a, b, "BPF") {
        Some(AuditType::Bpf)
    } else {
        None
    }
}

impl AuditType {
    /// The kind that `s` names; any other token is an `UnknownEventKind`
    /// carrying it.
    pub fn from_str(s: &str) -> (r: Result<AuditType, ParseError>)
        ensures
            match kind_named(s@) {
                Some(k) => r == Ok::<AuditType, ParseError>(k),
                None => r matches Err(ParseError::UnknownEventKind(t)) && t@ == s@,
            },
    {
        let v = chars_of(s);
        proof {
            assert(v@.subrange(0, v@.len() as int) =~= s@);
        }
        match kind_of_segment(&v, 0, v.len()) {
            Some(k) => Ok(k),
            None => Err(ParseError::UnknownEventKind(s.to_owned())),
        }
    }
}

/// A point in time as seconds and nanoseconds since the Unix epoch.
#[derive(Debug, Clone, Copy, PartialEq, Eq, Structural)]
pub struct Timestamp {
    pub seconds: i64,
    pub nanoseconds: i32,
}

/// Why a line is not an audit record.
#[derive(Debug, PartialEq, Eq)]
pub enum ParseError {
    /// The `type=` marker or the `msg=audit(...): ` header is missing.
    MalformedHeader,
    /// The `type=` token names no known kind.
    UnknownEventKind(String),
    /// The event id does not begin with `<digits>.<digits>` in range.
    MalformedTimestamp,
    /// A value opens a quote that never closes.
    UnterminatedQuote,
    /// A part of the field list has no `=`.
    MalformedField,
}

/// What a `ParseError` says, as plain values.
pub enum Failure {
    MalformedHeader,
    UnknownEventKind(Seq<char>),
    MalformedTimestamp,
    UnterminatedQuote,
    MalformedField,
}

impl View for ParseError {
    type V = Failure;

    open spec fn view(&self) -> Failure {
        match self {
            ParseError::MalformedHeader => Failure::MalformedHeader,
            ParseError::UnknownEventKind(t) => Failure::UnknownEventKind(t@),
            ParseError::MalformedTimestamp => Failure::MalformedTimestamp,
            ParseError::UnterminatedQuote => Failure::UnterminatedQuote,
            ParseError::MalformedField => Failure::MalformedField,
        }
    }
}

/// One parsed audit line.
pub struct AuditRecord {
    /// The event id, `<seconds>.<nanoseconds>:<sequence>`, kept as text.
    pub id: String,
    /// The time that the event id begins with.
    pub time: Timestamp,
    /// The record's kind.
    pub event_type: AuditType,
    /// The fields, by name.
    pub data: Table,
}

/// An audit record as plain values.
pub struct RecordView {
    pub id: Seq<char>,
    pub time: Timestamp,
    pub event_type: AuditType,
    pub data: Map<Seq<char>, Seq<char>>,
}

impl View for AuditRecord {
    type V = RecordView;

    open spec fn view(&self) -> RecordView {
        RecordView { id: self.id@, time: self.time, event_type: self.event_type, data: self.data@ }
    }
}

} // verus!

//! Joins each `SYSCALL` record with the later `SOCKADDR` record of the same
//! event, and remembers the names that addresses resolved to.
use vstd::prelude::*;
use crate::model::{AuditRecord, AuditType, RecordView, Timestamp};
use crate::table::Table;

verus! {

/// One connection or socket opening, attributed to a process.
pub enum Fact {
    /// A connection to a network peer.
    Connection { time: Timestamp, uid: String, exe: String, peer: String, port: String },
    /// The opening of a local socket path.
    Socket { time: Timestamp, uid: String, exe: String, path: String },
}

/// A fact as plain values.
pub enum FactView {
    Connection { time: Timestamp, uid: Seq<char>, exe: Seq<char>, peer: Seq<char>, port: Seq<char> },
    Socket { time: Timestamp, uid: Seq<char>, exe: Seq<char>, path: Seq<char> },
}

impl View for Fact {
    type V = FactView;

    open spec fn view(&self) -> FactView {
        match self {
            Fact::Connection { time, uid, exe, peer, port } => FactView::Connection {
                time: *time,
                uid: uid@,
                exe: exe@,
                peer: peer@,
                port: port@,
            },
            Fact::Socket { time, uid, exe, path } => FactView::Socket {
                time: *time,
                uid: uid@,
                exe: exe@,
                path: path@,
            },
        }
    }
}

pub open spec fn text_of(o: Option<String>) -> Option<Seq<char>> {
    match o {
        Some(s) => Some(s@),
        None => None,
    }
}

/// The value bound to `k`, or the empty text.
pub open spec fn or_blank(m: Map<Seq<char>, Seq<char>>, k: Seq<char>) -> Seq<char> {
    if m.contains_key(k) {
        m[k]
    } else {
        Seq::empty()
    }
}

/// The user that a `SYSCALL` record names: its `UID` field, else its `uid`.
pub open spec fn user_of(data: Map<Seq<char>, Seq<char>>) -> Option<Seq<char>> {
    if data.contains_key("UID"@) {
        Some(data["UID"@])
    } else if data.contains_key("uid"@) {
        Some(data["uid"@])
    } else {
        None
    }
}

/// `m` with `k` bound to `v`, where there is a `v`.
pub open spec fn bind(m: Map<Seq<char>, Seq<char>>, k: Seq<char>, v: Option<Seq<char>>) -> Map<Seq<char>, Seq<char>> {
    match v {
        Some(x) => m.insert(k, x),
        None => m,
    }
}

pub open spec fn lookup(m: Map<Seq<char>, Seq<char>>, k: Seq<char>) -> Option<Seq<char>> {
    if m.contains_key(k) {
        Some(m[k])
    } else {
        None
    }
}

/// The facts that a `SOCKADDR` record yields, given the pending executable
/// and user of its event and the name its peer address resolved to.
pub open spec fn facts_for(rec: RecordView, exe: Seq<char>, uid: Seq<char>, peer: Option<Seq<char>>) -> Seq<FactView> {
    let port = if rec.data.contains_key("lport"@) {
        rec.data["lport"@]
    } else {
        "none"@
    };
    let net = match peer {
        Some(p) => seq![FactView::Connection { time: rec.time, uid, exe, peer: p, port }],
        None => Seq::empty(),
    };
    if rec.data.contains_key("path"@) {
        net.push(FactView::Socket { time: rec.time, uid, exe, path: rec.data["path"@] })
    } else {
        net
    }
}

/// One step of the join: the pending executables and users after `rec`,
/// and the facts it yields. `peer` is the name that the record's `laddr`
/// resolved to, if it holds a network address.
pub open spec fn step(
    exes: Map<Seq<char>, Seq<char>>,
    uids: Map<Seq<char>, Seq<char>>,
    rec: RecordView,
    peer: Option<Seq<char>>,
) -> (Map<Seq<char>, Seq<char>>, Map<Seq<char>, Seq<char>>, Seq<FactView>) {
    match rec.event_type {
        AuditType::SysCall => (
            bind(exes, rec.id, lookup(rec.data, "exe"@)),
            bind(uids, rec.id, user_of(rec.data)),
            Seq::empty(),
        ),
        AuditType::SockAddr => (
            exes.remove(rec.id),
            uids.remove(rec.id),
            facts_for(rec, or_blank(exes, rec.id), or_blank(uids, rec.id), peer),
        ),
        _ => (exes, uids, Seq::empty()),
    }
}

/// A `SYSCALL` record hands its executable and user to the next `SOCKADDR`
/// record of the same event, which yields exactly one connection fact and
/// consumes them: a second such record finds them gone and yields a fact
/// with a blank executable and user.
pub proof fn lemma_join_consumes(
    exes: Map<Seq<char>, Seq<char>>,
    uids: Map<Seq<char>, Seq<char>>,
    call: RecordView,
    addr: RecordView,
    peer: Seq<char>,
    call_peer: Option<Seq<char>>,
)
    requires
        call.event_type == AuditType::SysCall,
        addr.event_type == AuditType::SockAddr,
        call.id == addr.id,
        call.data.contains_key("exe"@),
        user_of(call.data) is Some,
        !addr.data.contains_key("path"@),
    ensures
        ({
            let (e1, u1, f1) = step(exes, uids, call, call_peer);
            let (e2, u2, f2) = step(e1, u1, addr, Some(peer));
            let (e3, u3, f3) = step(e2, u2, addr, Some(peer));
            let port = if addr.data.contains_key("lport"@) {
                addr.data["lport"@]
            } else {
                "none"@
            };
            &&& f1.len() == 0
            &&& f2 == seq![
                FactView::Connection {
                    time: addr.time,
                    uid: user_of(call.data)->0,
                    exe: call.data["exe"@],
                    peer,
                    port,
                },
            ]
            &&& !e2.contains_key(addr.id)
            &&& !u2.contains_key(addr.id)
            &&& f3 == seq![
                FactView::Connection { time: addr.time, uid: Seq::empty(), exe: Seq::empty(), peer, port },
            ]
        }),
{
}

/// The attributes of `SYSCALL` records that wait for their `SOCKADDR`
/// record, by event id.
pub struct Correlator {
    /// The executable of each pending event.
    pub exe_by_id: Table,
    /// The user of each pending event.
    pub uid_by_id: Table,
}

impl Correlator {
    pub fn new() -> (r: Correlator)
        ensures
            r.exe_by_id@ == Map::<Seq<char>, Seq<char>>::empty(),
            r.uid_by_id@ == Map::<Seq<char>, Seq<char>>::empty(),
    {
        Correlator { exe_by_id: Table::new(), uid_by_id: Table::new() }
    }

    /// Takes in one record; `peer` is the name that its `laddr` resolved
    /// to, where that field holds a network address.
    pub fn observe(&mut self, rec: &AuditRecord, peer: Option<String>) -> (r: Vec<Fact>)
        ensures
            ({
                let (exes, uids, facts) = step(
                    old(self).exe_by_id@,
                    old(self).uid_by_id@,
                    rec@,
                    text_of(peer),
                );
                &&& final(self).exe_by_id@ == exes
                &&& final(self).uid_by_id@ == uids
                &&& r@.map_values(|f: Fact| f@) == facts
            }),
    {
        let ghost peer_view = text_of(peer);
        let mut facts: Vec<Fact> = Vec::new();
        match rec.event_type {
            AuditType::SysCall => {
                if let Some(exe) = rec.data.get("exe") {
                    self.exe_by_id.insert(rec.id.clone(), exe.to_owned());
                }
                let uid = match rec.data.get("UID") {
                    Some(u) => Some(u),
                    None => rec.data.get("uid"),
                };
                if let Some(u) = uid {
                    self.uid_by_id.insert(rec.id.clone(), u.to_owned());
                }
                proof {
                    reveal_strlit("UID");
                    reveal_strlit("uid");
                }
                assert(facts@.map_values(|f: Fact| f@) =~= Seq::empty());
            },
            AuditType::SockAddr => {
                let exe = match self.exe_by_id.remove(rec.id.as_str()) {
                    Some(x) => x,
                    None => String::new(),
                };
                let uid = match self.uid_by_id.remove(rec.id.as_str()) {
                    Some(x) => x,
                    None => String::new(),
                };
                let port = match rec.data.get("lport") {
                    Some(p) => p.to_owned(),
                    None => "none".to_owned(),
                };
                if let Some(p) = peer {
                    facts.push(Fact::Connection {
                        time: rec.time,
                        uid: uid.clone(),
                        exe: exe.clone(),
                        peer: p,
                        port,
                    });
                }
                if let Some(path) = rec.data.get("path") {
                    facts.push(Fact::Socket { time: rec.time, uid, exe, path: path.to_owned() });
                }
                assert(facts@.map_values(|f: Fact| f@) =~= facts_for(
                    rec@,
                    or_blank(old(self).exe_by_id@, rec.id@),
                    or_blank(old(self).uid_by_id@, rec.id@),
                    peer_view,
                ));
            },
            _ => {
                assert(facts@.map_values(|f: Fact| f@) =~= Seq::empty());
            },
        }
        facts
    }
}

/// Whether `rec` is a `SYSCALL` record of the `connect` call.
pub fn is_connect_call(rec: &AuditRecord) -> (r: bool)
    ensures
        r == (rec.event_type == AuditType::SysCall && rec.data@.contains_key("SYSCALL"@)
            && rec.data@["SYSCALL"@] == "connect"@),
{
    if rec.event_type != AuditType::SysCall {
        return false;
    }
    match rec.data.get("SYSCALL") {
        Some(s) => {
            let expected = "connect".to_owned();
            s.to_owned() == expected
        },
        None => false,
    }
}

/// The names that addresses resolved to, by address text.
pub struct HostnameCache {
    /// The name remembered for each address.
    pub names: Table,
}

impl HostnameCache {
    pub fn new() -> (r: HostnameCache)
        ensures
            r.names@ == Map::<Seq<char>, Seq<char>>::empty(),
    {
        HostnameCache { names: Table::new() }
    }

    /// The name remembered for `addr`.
    pub fn cached(&self, addr: &str) -> (r: Option<&str>)
        ensures
            match r {
                Some(n) => self.names@.contains_key(addr@) && self.names@[addr@] == n@,
                None => !self.names@.contains_key(addr@),
            },
    {
        self.names.get(addr)
    }

    /// Remembers what a lookup of `addr` gave: the name it found, or, where
    /// it failed, the address itself, so that it is not tried again.
    pub fn remember(&mut self, addr: &str, looked_up: Option<String>) -> (r: String)
        ensures
            r@ == match looked_up {
                Some(n) => n@,
                None => addr@,
            },
            final(self).names@ == old(self).names@.insert(addr@, r@),
    {
        let name = match looked_up {
            Some(n) => n,
            None => addr.to_owned(),
        };
        self.names.insert(addr.to_owned(), name.clone());
        name
    }
}

} // verus!

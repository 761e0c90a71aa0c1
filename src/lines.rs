//! What well-formed lines parse to.
use vstd::prelude::*;
use crate::model::{AuditType, RecordView};
use crate::parse::{
    at_sep, at_text, fields_from, header_close, header_open, header_part, pair_at, parse_model, timestamp_in,
    type_part,
};
use crate::parse::QUOTE;
use crate::table::map_of;
use crate::text::{at_char, lemma_scan, scan};

verus! {

/// `key=value`.
pub open spec fn pair_text(p: (Seq<char>, Seq<char>)) -> Seq<char> {
    p.0 + seq!['='] + p.1
}

/// The pairs written out one after another, a space between two.
pub open spec fn list_text(ps: Seq<(Seq<char>, Seq<char>)>) -> Seq<char>
    decreases ps.len(),
{
    if ps.len() == 0 {
        Seq::empty()
    } else if ps.len() == 1 {
        pair_text(ps[0])
    } else {
        pair_text(ps[0]) + seq![' '] + list_text(ps.skip(1))
    }
}

/// A pair that reads back as written: no `=` in the key, no separator in
/// the value, and no quote opening it.
pub open spec fn plain_pair(p: (Seq<char>, Seq<char>)) -> bool {
    &&& forall|i: int| 0 <= i < p.0.len() ==> p.0[i] != '='
    &&& forall|i: int| 0 <= i < p.1.len() ==> p.1[i] != ' ' && p.1[i] != '\u{1d}'
    &&& p.1.len() > 0 ==> p.1[0] != QUOTE
}

/// `acc` with the pairs bound in order.
pub open spec fn bind_all(acc: Map<Seq<char>, Seq<char>>, ps: Seq<(Seq<char>, Seq<char>)>) -> Map<
    Seq<char>,
    Seq<char>,
>
    decreases ps.len(),
{
    if ps.len() == 0 {
        acc
    } else {
        bind_all(acc.insert(ps[0].0, ps[0].1), ps.skip(1))
    }
}

proof fn lemma_bind_all_push(acc: Map<Seq<char>, Seq<char>>, ps: Seq<(Seq<char>, Seq<char>)>, x: (Seq<char>, Seq<char>))
    ensures
        bind_all(acc, ps.push(x)) == bind_all(acc, ps).insert(x.0, x.1),
    decreases ps.len(),
{
    if ps.len() == 0 {
        assert(ps.push(x).skip(1) =~= Seq::empty());
        assert(ps.push(x)[0] == x);
        assert(bind_all(acc.insert(x.0, x.1), Seq::empty()) == acc.insert(x.0, x.1));
    } else {
        assert(ps.push(x).skip(1) =~= ps.skip(1).push(x));
        assert(ps.push(x)[0] == ps[0]);
        lemma_bind_all_push(acc.insert(ps[0].0, ps[0].1), ps.skip(1), x);
    }
}

proof fn lemma_bind_all_map_of(ps: Seq<(Seq<char>, Seq<char>)>)
    ensures
        bind_all(Map::empty(), ps) == map_of(ps),
    decreases ps.len(),
{
    if ps.len() > 0 {
        lemma_bind_all_map_of(ps.drop_last());
        assert(ps.drop_last().push(ps.last()) =~= ps);
        lemma_bind_all_push(Map::empty(), ps.drop_last(), ps.last());
    }
}

proof fn lemma_list_fields(
    s: Seq<char>,
    o: int,
    n: int,
    ps: Seq<(Seq<char>, Seq<char>)>,
    acc: Map<Seq<char>, Seq<char>>,
)
    requires
        0 <= o <= n <= s.len(),
        s.subrange(o, n) == list_text(ps),
        forall|i: int| 0 <= i < ps.len() ==> plain_pair(#[trigger] ps[i]),
    ensures
        fields_from(s, o, n, acc) == Ok::<Map<Seq<char>, Seq<char>>, crate::model::Failure>(bind_all(acc, ps)),
    decreases ps.len(),
{
    if ps.len() == 0 {
        assert(s.subrange(o, n).len() == 0);
    } else {
        let p = ps[0];
        let t = list_text(ps);
        assert(plain_pair(p));
        let kl = p.0.len() as int;
        let vl = p.1.len() as int;
        let pt = pair_text(p);
        assert(pt.len() == kl + 1 + vl);
        if ps.len() == 1 {
            assert(t == pt);
        } else {
            assert(t == pt + seq![' '] + list_text(ps.skip(1)));
        }
        assert(t.subrange(0, pt.len() as int) =~= pt);
        assert forall|j: int| 0 <= j < pt.len() implies s[o + j] == pt[j] by {
            assert(s[o + j] == s.subrange(o, n)[j]);
        }
        assert forall|j: int| o <= j < o + kl implies !#[trigger] at_char(s, '=')(j) by {
            assert(s[j] == pt[j - o]);
            assert(pt[j - o] == p.0[j - o]);
        }
        assert(s[o + kl] == pt[kl]);
        lemma_scan(o, n, at_char(s, '='), o + kl);
        let e = o + kl + 1 + vl;
        assert forall|j: int| o + kl + 1 <= j < e implies !#[trigger] at_sep(s)(j) by {
            assert(s[j] == pt[j - o]);
            assert(pt[j - o] == p.1[j - o - kl - 1]);
        }
        if ps.len() == 1 {
            assert(e == n);
        } else {
            assert(s[e] == s.subrange(o, n)[e - o]);
            assert(s[e] == ' ');
        }
        lemma_scan(o + kl + 1, n, at_sep(s), e);
        if vl > 0 {
            assert(s[o + kl + 1] == pt[kl + 1]);
        } else if ps.len() > 1 {
            assert(s[o + kl + 1] == ' ');
        }
        assert(s.subrange(o, o + kl) =~= p.0);
        assert forall|j: int| 0 <= j < vl implies s[o + kl + 1 + j] == p.1[j] by {
            assert(pt[kl + 1 + j] == p.1[j]);
        }
        assert(s.subrange(o + kl + 1, e) =~= p.1);
        assert(pair_at(s, o, n) == Ok::<(Seq<char>, Seq<char>, int), crate::model::Failure>((p.0, p.1, e)));
        if ps.len() > 1 {
            let rest = list_text(ps.skip(1));
            assert(t.len() == pt.len() + 1 + rest.len());
            assert forall|j: int| 0 <= j < rest.len() implies s[e + 1 + j] == rest[j] by {
                assert(s[e + 1 + j] == s.subrange(o, n)[e + 1 + j - o]);
                assert(t[pt.len() + 1 + j] == rest[j]);
            }
            assert(s.subrange(e + 1, n) =~= rest);
            assert forall|i: int| 0 <= i < ps.skip(1).len() implies plain_pair(#[trigger] ps.skip(1)[i]) by {
                assert(ps.skip(1)[i] == ps[i + 1]);
            }
            lemma_list_fields(s, e + 1, n, ps.skip(1), acc.insert(p.0, p.1));
        } else {
            assert(ps.skip(1) =~= Seq::empty());
            assert(bind_all(acc.insert(p.0, p.1), ps.skip(1)) == acc.insert(p.0, p.1));
        }
        assert(bind_all(acc, ps) == bind_all(acc.insert(p.0, p.1), ps.skip(1)));
    }
}

/// Every pair of a list of plain pairs lands in the fields, a later
/// duplicate of a key replacing an earlier one.
pub proof fn lemma_plain_list(ps: Seq<(Seq<char>, Seq<char>)>)
    requires
        forall|i: int| 0 <= i < ps.len() ==> plain_pair(#[trigger] ps[i]),
    ensures
        fields_from(list_text(ps), 0, list_text(ps).len() as int, Map::empty()) == Ok::<
            Map<Seq<char>, Seq<char>>,
            crate::model::Failure,
        >(map_of(ps)),
{
    let s = list_text(ps);
    assert(s.subrange(0, s.len() as int) =~= s);
    lemma_list_fields(s, 0, s.len() as int, ps, Map::empty());
    lemma_bind_all_map_of(ps);
}

proof fn lemma_scan_shift(from: int, end: int, st1: spec_fn(int) -> bool, st2: spec_fn(int) -> bool, d: int)
    requires
        from <= end,
        forall|j: int| from <= j < end ==> st1(j + d) == #[trigger] st2(j),
    ensures
        scan(from + d, end + d, st1) == scan(from, end, st2) + d,
    decreases end - from,
{
    if from < end {
        assert(st1(from + d) == st2(from));
        lemma_scan_shift(from + 1, end, st1, st2, d);
        assert(from + d + 1 == (from + 1) + d);
    }
}

proof fn lemma_timestamp_shift(s: Seq<char>, id: Seq<char>, d: int)
    requires
        0 <= d,
        d + id.len() <= s.len(),
        s.subrange(d, d + id.len()) == id,
    ensures
        timestamp_in(s, d, d + id.len()) == timestamp_in(id, 0, id.len() as int),
{
    let l = id.len() as int;
    assert forall|j: int| 0 <= j < l implies s[j + d] == id[j] by {
        assert(s.subrange(d, d + l)[j] == s[j + d]);
    }
    assert forall|j: int| 0 <= j < l implies at_char(s, ':')(j + d) == #[trigger] at_char(id, ':')(j) by {
        assert(s[j + d] == id[j]);
    }
    lemma_scan_shift(0, l, at_char(s, ':'), at_char(id, ':'), d);
    let colon = scan(0, l, at_char(id, ':'));
    crate::text::lemma_scan_bounds(0, l, at_char(id, ':'));
    assert forall|j: int| 0 <= j < colon implies at_char(s, '.')(j + d) == #[trigger] at_char(id, '.')(j) by {
        assert(s[j + d] == id[j]);
    }
    lemma_scan_shift(0, colon, at_char(s, '.'), at_char(id, '.'), d);
    let dot = scan(0, colon, at_char(id, '.'));
    crate::text::lemma_scan_bounds(0, colon, at_char(id, '.'));
    assert(s.subrange(d, dot + d) =~= id.subrange(0, dot));
    if dot < colon {
        assert(s.subrange(dot + d + 1, colon + d) =~= id.subrange(dot + 1, colon));
    }
}

/// A value in quotes is bound without them, spaces inside it included.
pub proof fn lemma_quoted_value(k: Seq<char>, v: Seq<char>)
    requires
        forall|i: int| 0 <= i < k.len() ==> k[i] != '=',
        forall|i: int| 0 <= i < v.len() ==> v[i] != QUOTE,
    ensures
        ({
            let t = k + seq!['=', QUOTE] + v + seq![QUOTE];
            fields_from(t, 0, t.len() as int, Map::empty()) == Ok::<Map<Seq<char>, Seq<char>>, crate::model::Failure>(
                Map::empty().insert(k, v),
            )
        }),
{
    let t = k + seq!['=', QUOTE] + v + seq![QUOTE];
    let n = t.len() as int;
    let kl = k.len() as int;
    let vl = v.len() as int;
    assert forall|j: int| 0 <= j < kl implies !#[trigger] at_char(t, '=')(j) by {
        assert(t[j] == k[j]);
    }
    assert(t[kl] == '=');
    lemma_scan(0, n, at_char(t, '='), kl);
    assert(t[kl + 1] == QUOTE);
    assert forall|j: int| kl + 2 <= j < kl + 2 + vl implies !#[trigger] at_char(t, QUOTE)(j) by {
        assert(t[j] == v[j - kl - 2]);
    }
    assert(t[kl + 2 + vl] == QUOTE);
    lemma_scan(kl + 2, n, at_char(t, QUOTE), kl + 2 + vl);
    lemma_scan(n, n, at_sep(t), n);
    assert(t.subrange(0, kl) =~= k);
    assert(t.subrange(kl + 2, kl + 2 + vl) =~= v);
    assert(pair_at(t, 0, n) == Ok::<(Seq<char>, Seq<char>, int), crate::model::Failure>((k, v, n)));
}

/// The marker of a `SYSCALL` line, with the space after it.
pub open spec fn syscall_marker() -> Seq<char> {
    "type=SYSCALL "@
}

/// A well-formed `SYSCALL` line parses to a `SYSCALL` record with the id
/// between `msg=audit(` and `)`, the time that the id begins with, and
/// every `key=value` pair of its list, a later duplicate of a key replacing
/// an earlier one.
pub proof fn lemma_syscall_line(id: Seq<char>, ps: Seq<(Seq<char>, Seq<char>)>)
    requires
        forall|i: int| 0 <= i < id.len() ==> id[i] != ')',
        timestamp_in(id, 0, id.len() as int) is Some,
        forall|i: int| 0 <= i < ps.len() ==> plain_pair(#[trigger] ps[i]),
    ensures
        parse_model(syscall_marker() + header_open() + id + header_close() + list_text(ps)) == Ok::<RecordView, crate::model::Failure>(
            RecordView {
                id,
                time: timestamp_in(id, 0, id.len() as int)->0,
                event_type: AuditType::SysCall,
                data: map_of(ps),
            },
        ),
{
    reveal_strlit("type=SYSCALL ");
    reveal_strlit("type=");
    reveal_strlit("SYSCALL");
    reveal_strlit("msg=audit(");
    reveal_strlit("): ");
    let pre = syscall_marker() + header_open();
    let post = header_close();
    let body = list_text(ps);
    let s = pre + id + post + body;
    let n = s.len() as int;
    let l = id.len() as int;
    assert(pre.len() == 23);
    assert(post.len() == 3);
    // the type marker
    assert(s.subrange(0, 5) =~= "type="@);
    assert forall|j: int| 5 <= j < 12 implies !#[trigger] at_char(s, ' ')(j) by {
        assert(s[j] == pre[j]);
    }
    assert(s[12] == ' ');
    lemma_scan(5, n, at_char(s, ' '), 12);
    assert(s[13] == 'm');
    lemma_scan(12, n, at_text(s), 13);
    assert(s.subrange(5, 12) =~= "SYSCALL"@);
    assert(type_part(s) == Ok::<(AuditType, int), crate::model::Failure>((AuditType::SysCall, 13)));
    // the header
    assert(s.subrange(13, 23) =~= header_open());
    assert forall|j: int| 23 <= j < 23 + l implies !#[trigger] at_char(s, ')')(j) by {
        assert(s[j] == id[j - 23]);
    }
    assert(s[23 + l] == ')');
    lemma_scan(23, n, at_char(s, ')'), 23 + l);
    assert(s.subrange(23, 23 + l) =~= id);
    lemma_timestamp_shift(s, id, 23);
    assert(s.subrange(23 + l, 26 + l) =~= header_close());
    assert(header_part(s, 13) == Ok::<(crate::model::Timestamp, int, int), crate::model::Failure>((
        timestamp_in(id, 0, l)->0,
        23,
        23 + l,
    )));
    // the field list
    assert(s.subrange(26 + l, n) =~= body);
    lemma_list_fields(s, 26 + l, n, ps, Map::empty());
    lemma_bind_all_map_of(ps);
}

proof fn lemma_list_text_lacks(ps: Seq<(Seq<char>, Seq<char>)>, c: char)
    requires
        c != '=',
        c != ' ',
        forall|i: int, j: int| 0 <= i < ps.len() && 0 <= j < ps[i].0.len() ==> #[trigger] ps[i].0[j] != c,
        forall|i: int, j: int| 0 <= i < ps.len() && 0 <= j < ps[i].1.len() ==> #[trigger] ps[i].1[j] != c,
    ensures
        forall|j: int| 0 <= j < list_text(ps).len() ==> #[trigger] list_text(ps)[j] != c,
    decreases ps.len(),
{
    if ps.len() > 0 {
        let p = ps[0];
        let pt = pair_text(p);
        assert forall|j: int| 0 <= j < pt.len() implies #[trigger] pt[j] != c by {
            if j < p.0.len() {
                assert(ps[0].0[j] != c);
            } else if j > p.0.len() {
                assert(pt[j] == p.1[j - p.0.len() - 1]);
                assert(ps[0].1[j - p.0.len() - 1] != c);
            }
        }
        if ps.len() > 1 {
            let rest = ps.skip(1);
            assert forall|i: int, j: int| 0 <= i < rest.len() && 0 <= j < rest[i].0.len() implies #[trigger] rest[i].0[j]
                != c by {
                assert(rest[i] == ps[i + 1]);
                assert(ps[i + 1].0[j] != c);
            }
            assert forall|i: int, j: int| 0 <= i < rest.len() && 0 <= j < rest[i].1.len() implies #[trigger] rest[i].1[j]
                != c by {
                assert(rest[i] == ps[i + 1]);
                assert(ps[i + 1].1[j] != c);
            }
            lemma_list_text_lacks(rest, c);
            let t = pt + seq![' '] + list_text(rest);
            assert(list_text(ps) == t);
            assert forall|j: int| 0 <= j < t.len() implies #[trigger] t[j] != c by {
                if j > pt.len() {
                    assert(t[j] == list_text(rest)[j - pt.len() - 1]);
                }
            }
        }
    }
}

/// The marker of a `SOCKADDR` line, with the space after it.
pub open spec fn sockaddr_marker() -> Seq<char> {
    "type=SOCKADDR "@
}

/// A well-formed `SOCKADDR` line whose field list holds a `{ ... }` block
/// parses to the pairs inside the block alone: what stands before the block
/// (the raw `saddr=` blob) and after it is left out.
pub proof fn lemma_sockaddr_line(
    id: Seq<char>,
    before: Seq<char>,
    ps: Seq<(Seq<char>, Seq<char>)>,
    after: Seq<char>,
)
    requires
        forall|i: int| 0 <= i < id.len() ==> id[i] != ')',
        timestamp_in(id, 0, id.len() as int) is Some,
        forall|i: int| 0 <= i < before.len() ==> before[i] != '{',
        forall|i: int| 0 <= i < ps.len() ==> plain_pair(#[trigger] ps[i]),
        forall|i: int, j: int| 0 <= i < ps.len() && 0 <= j < ps[i].0.len() ==> #[trigger] ps[i].0[j] != '}',
        forall|i: int, j: int| 0 <= i < ps.len() && 0 <= j < ps[i].1.len() ==> #[trigger] ps[i].1[j] != '}',
    ensures
        parse_model(
            sockaddr_marker() + header_open() + id + header_close() + before + seq!['{', ' '] + list_text(ps)
                + seq![' ', '}'] + after,
        ) == Ok::<RecordView, crate::model::Failure>(
            RecordView {
                id,
                time: timestamp_in(id, 0, id.len() as int)->0,
                event_type: AuditType::SockAddr,
                data: map_of(ps),
            },
        ),
{
    reveal_strlit("type=SOCKADDR ");
    reveal_strlit("type=");
    reveal_strlit("SYSCALL");
    reveal_strlit("SOCKADDR");
    reveal_strlit("msg=audit(");
    reveal_strlit("): ");
    let pre = sockaddr_marker() + header_open();
    let post = header_close();
    let list = list_text(ps);
    let s = pre + id + post + before + seq!['{', ' '] + list + seq![' ', '}'] + after;
    let n = s.len() as int;
    let l = id.len() as int;
    let bl = before.len() as int;
    let ll = list.len() as int;
    assert(pre.len() == 24);
    assert(post.len() == 3);
    // the type marker
    assert(s.subrange(0, 5) =~= "type="@);
    assert forall|j: int| 5 <= j < 13 implies !#[trigger] at_char(s, ' ')(j) by {
        assert(s[j] == pre[j]);
    }
    assert(s[13] == ' ');
    lemma_scan(5, n, at_char(s, ' '), 13);
    assert(s[14] == 'm');
    lemma_scan(13, n, at_text(s), 14);
    assert(s.subrange(5, 13) =~= "SOCKADDR"@);
    assert(s.subrange(5, 13) != "SYSCALL"@);
    assert(type_part(s) == Ok::<(AuditType, int), crate::model::Failure>((AuditType::SockAddr, 14)));
    // the header
    assert(s.subrange(14, 24) =~= header_open());
    assert forall|j: int| 24 <= j < 24 + l implies !#[trigger] at_char(s, ')')(j) by {
        assert(s[j] == id[j - 24]);
    }
    assert(s[24 + l] == ')');
    lemma_scan(24, n, at_char(s, ')'), 24 + l);
    assert(s.subrange(24, 24 + l) =~= id);
    lemma_timestamp_shift(s, id, 24);
    assert(s.subrange(24 + l, 27 + l) =~= header_close());
    assert(header_part(s, 14) == Ok::<(crate::model::Timestamp, int, int), crate::model::Failure>((
        timestamp_in(id, 0, l)->0,
        24,
        24 + l,
    )));
    // the block
    let body = 27 + l;
    let ob = body + bl;
    assert forall|j: int| body <= j < ob implies !#[trigger] at_char(s, '{')(j) by {
        assert(s[j] == before[j - body]);
    }
    assert(s[ob] == '{');
    lemma_scan(body, n, at_char(s, '{'), ob);
    assert(s[ob + 1] == ' ');
    lemma_list_text_lacks(ps, '}');
    let cb = ob + 2 + ll;
    assert forall|j: int| ob + 2 <= j < cb implies !#[trigger] crate::parse::at_close(s)(j) by {
        if j + 1 < cb {
            assert(s[j + 1] == list[j + 1 - ob - 2]);
        } else {
            assert(s[j + 1] == ' ');
        }
    }
    assert(s[cb] == ' ' && s[cb + 1] == '}');
    lemma_scan(ob + 2, n, crate::parse::at_close(s), cb);
    assert(s.subrange(ob + 2, cb) =~= list);
    lemma_list_fields(s, ob + 2, cb, ps, Map::empty());
    lemma_bind_all_map_of(ps);
}

} // verus!

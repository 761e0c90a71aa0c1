//! The grammar of one audit line: `type=<KIND> msg=audit(<id>): <fields>`.
use vstd::prelude::*;
use crate::model::{kind_named, kind_of_segment, AuditRecord, AuditType, Failure, ParseError, RecordView, Timestamp};
use crate::table::Table;
use crate::text::{
    at_char, chars_of, decimal_value, find_char, is_number, lemma_scan, lemma_scan_bounds, read_number, scan,
    segment_is,
};

verus! {

/// The control character that the audit subsystem puts between the raw
/// fields of a record and their readable rendering.
pub const ENRICHED_SEPARATOR: char = '\u{1d}';

/// The character that opens and closes a quoted value.
pub const QUOTE: char = '"';

/// Positions that end a value: a space or the enrichment separator.
pub open spec fn at_sep(s: Seq<char>) -> spec_fn(int) -> bool {
    |j: int| s[j] == ' ' || s[j] == '\u{1d}'
}

/// Positions that hold neither a space nor a tab.
pub open spec fn at_text(s: Seq<char>) -> spec_fn(int) -> bool {
    |j: int| !(s[j] == ' ' || s[j] == '\t')
}

/// Positions where ` }` begins.
pub open spec fn at_close(s: Seq<char>) -> spec_fn(int) -> bool {
    |j: int| j + 1 < s.len() && s[j] == ' ' && s[j + 1] == '}'
}

/// The instants that `jiff::Timestamp::new` accepts.
pub open spec fn in_jiff_range(second: int, nanosecond: int) -> bool {
    &&& -377705023201 <= second <= 253402207200
    &&& -999999999 <= nanosecond <= 999999999
    &&& !(second == -377705023201 && nanosecond < 0)
}

/// Relies on jiff::Timestamp::new: it accepts a second in
/// -377705023201..=253402207200 and a nanosecond in -999999999..=999999999,
/// except a negative nanosecond together with the least second.
#[verifier::external_body]
fn jiff_accepts(second: i64, nanosecond: i32) -> (r: bool)
    ensures
        r == in_jiff_range(second as int, nanosecond as int),
{
    jiff::Timestamp::new(second, nanosecond).is_ok()
}

/// The time at the start of the event id `s[a..c]`: `<digits>.<digits>`,
/// up to the first `:`, with the seconds fitting an `i64`, the nanoseconds
/// an `i32`, and the pair an instant that jiff accepts.
pub open spec fn timestamp_in(s: Seq<char>, a: int, c: int) -> Option<Timestamp> {
    let colon = scan(a, c, at_char(s, ':'));
    let dot = scan(a, colon, at_char(s, '.'));
    let secs = s.subrange(a, dot);
    let nanos = s.subrange(dot + 1, colon);
    if dot < colon && is_number(secs) && is_number(nanos) && decimal_value(secs) <= i64::MAX
        && decimal_value(nanos) <= i32::MAX && in_jiff_range(
        decimal_value(secs) as int,
        decimal_value(nanos) as int,
    ) {
        Some(Timestamp { seconds: decimal_value(secs) as i64, nanoseconds: decimal_value(nanos) as i32 })
    } else {
        None
    }
}

/// The text that opens the header.
pub open spec fn header_open() -> Seq<char> {
    "msg=audit("@
}

/// The text that closes the header.
pub open spec fn header_close() -> Seq<char> {
    "): "@
}

/// The `type=<KIND>` marker and the blanks after it: the kind and where the
/// header begins.
pub open spec fn type_part(s: Seq<char>) -> Result<(AuditType, int), Failure> {
    let n = s.len() as int;
    let t = scan(5, n, at_char(s, ' '));
    let h = scan(t, n, at_text(s));
    if n < 5 || s.subrange(0, 5) != "type="@ || h == t {
        Err(Failure::MalformedHeader)
    } else {
        match kind_named(s.subrange(5, t)) {
            Some(k) => Ok((k, h)),
            None => Err(Failure::UnknownEventKind(s.subrange(5, t))),
        }
    }
}

/// The header `msg=audit(<id>): ` at `h`: the time, and where the id
/// begins and ends.
pub open spec fn header_part(s: Seq<char>, h: int) -> Result<(Timestamp, int, int), Failure> {
    let n = s.len() as int;
    let a = h + 10;
    let c = scan(a, n, at_char(s, ')'));
    if n < a || s.subrange(h, a) != header_open() {
        Err(Failure::MalformedHeader)
    } else {
        match timestamp_in(s, a, c) {
            None => Err(Failure::MalformedTimestamp),
            Some(time) => if n < c + 3 || s.subrange(c, c + 3) != header_close() {
                Err(Failure::MalformedHeader)
            } else {
                Ok((time, a, c))
            },
        }
    }
}

/// The pair `key=value` that starts at `i`, inside `..end`: its key, its
/// value with quotes taken off, and the position after it.
pub open spec fn pair_at(s: Seq<char>, i: int, end: int) -> Result<(Seq<char>, Seq<char>, int), Failure> {
    let k = scan(i, end, at_char(s, '='));
    if k >= end {
        Err(Failure::MalformedField)
    } else if k + 1 < end && s[k + 1] == '"' {
        let q = scan(k + 2, end, at_char(s, '"'));
        if q >= end {
            Err(Failure::UnterminatedQuote)
        } else {
            Ok((s.subrange(i, k), s.subrange(k + 2, q), scan(q + 1, end, at_sep(s))))
        }
    } else {
        let e = scan(k + 1, end, at_sep(s));
        Ok((s.subrange(i, k), s.subrange(k + 1, e), e))
    }
}

proof fn lemma_pair_at_bounds(s: Seq<char>, i: int, end: int)
    requires
        i < end,
    ensures
        pair_at(s, i, end) matches Ok((_, _, e)) ==> i < e <= end,
{
    let k = scan(i, end, at_char(s, '='));
    lemma_scan_bounds(i, end, at_char(s, '='));
    if k < end {
        if k + 1 < end && s[k + 1] == '"' {
            let q = scan(k + 2, end, at_char(s, '"'));
            lemma_scan_bounds(k + 2, end, at_char(s, '"'));
            if q < end {
                lemma_scan_bounds(q + 1, end, at_sep(s));
            }
        } else {
            lemma_scan_bounds(k + 1, end, at_sep(s));
        }
    }
}

/// The fields of the list `s[i..end]` added to `acc`, one separator
/// between pairs, a later key winning.
pub open spec fn fields_from(s: Seq<char>, i: int, end: int, acc: Map<Seq<char>, Seq<char>>) -> Result<
    Map<Seq<char>, Seq<char>>,
    Failure,
>
    decreases end - i,
    via fields_from_decreases
{
    if i >= end {
        Ok(acc)
    } else {
        match pair_at(s, i, end) {
            Err(f) => Err(f),
            Ok((k, v, e)) => if e >= end {
                Ok(acc.insert(k, v))
            } else {
                fields_from(s, e + 1, end, acc.insert(k, v))
            },
        }
    }
}

#[via_fn]
proof fn fields_from_decreases(s: Seq<char>, i: int, end: int, acc: Map<Seq<char>, Seq<char>>) {
    if i < end {
        lemma_pair_at_bounds(s, i, end);
    }
}

/// The fields of a `SOCKADDR` record whose field list starts at `body`:
/// those inside the first `{ ... }` block, or, without one, the whole list.
pub open spec fn socket_fields(s: Seq<char>, body: int) -> Result<Map<Seq<char>, Seq<char>>, Failure> {
    let n = s.len() as int;
    let ob = scan(body, n, at_char(s, '{'));
    let cb = scan(ob + 2, n, at_close(s));
    if ob + 1 < n && s[ob + 1] == ' ' && cb < n {
        fields_from(s, ob + 2, cb, Map::empty())
    } else {
        fields_from(s, body, n, Map::empty())
    }
}

/// What a line parses to.
pub open spec fn parse_model(s: Seq<char>) -> Result<RecordView, Failure> {
    match type_part(s) {
        Err(f) => Err(f),
        Ok((kind, h)) => match header_part(s, h) {
            Err(f) => Err(f),
            Ok((time, a, c)) => {
                let fields = if kind == AuditType::SockAddr {
                    socket_fields(s, c + 3)
                } else {
                    fields_from(s, c + 3, s.len() as int, Map::empty())
                };
                match fields {
                    Err(f) => Err(f),
                    Ok(m) => Ok(RecordView { id: s.subrange(a, c), time, event_type: kind, data: m }),
                }
            },
        },
    }
}

fn find_sep(v: &Vec<char>, from: usize, end: usize) -> (r: usize)
    requires
        from <= end <= v.len(),
    ensures
        r == scan(from as int, end as int, at_sep(v@)),
        from <= r <= end,
{
    let mut i = from;
    while i < end && v[i] != ' ' && v[i] != ENRICHED_SEPARATOR
        invariant
            from <= i <= end <= v.len(),
            forall|j: int| from <= j < i ==> !(v@[j] == ' ' || v@[j] == '\u{1d}'),
        decreases end - i,
    {
        i = i + 1;
    }
    proof {
        lemma_scan(from as int, end as int, at_sep(v@), i as int);
    }
    i
}

fn skip_blanks(v: &Vec<char>, from: usize, end: usize) -> (r: usize)
    requires
        from <= end <= v.len(),
    ensures
        r == scan(from as int, end as int, at_text(v@)),
        from <= r <= end,
{
    let mut i = from;
    while i < end && (v[i] == ' ' || v[i] == '\t')
        invariant
            from <= i <= end <= v.len(),
            forall|j: int| from <= j < i ==> (v@[j] == ' ' || v@[j] == '\t'),
        decreases end - i,
    {
        i = i + 1;
    }
    proof {
        lemma_scan(from as int, end as int, at_text(v@), i as int);
    }
    i
}

fn find_close(v: &Vec<char>, from: usize) -> (r: usize)
    requires
        from <= v.len(),
    ensures
        r == scan(from as int, v.len() as int, at_close(v@)),
        from <= r <= v.len(),
{
    let n = v.len();
    let mut i = from;
    while i < n && !(i + 1 < n && v[i] == ' ' && v[i + 1] == '}')
        invariant
            from <= i <= n == v.len(),
            forall|j: int| from <= j < i ==> !(j + 1 < n && #[trigger] v@[j] == ' ' && v@[j + 1] == '}'),
        decreases n - i,
    {
        i = i + 1;
    }
    proof {
        lemma_scan(from as int, n as int, at_close(v@), i as int);
    }
    i
}

/// The time at the start of the event id `v[a..c]`.
fn time_in(v: &Vec<char>, a: usize, c: usize) -> (r: Option<Timestamp>)
    requires
        a <= c <= v.len(),
    ensures
        r == timestamp_in(v@, a as int, c as int),
{
    let colon = find_char(v, a, c, ':');
    let dot = find_char(v, a, colon, '.');
    if dot >= colon {
        return None;
    }
    let secs = match read_number(v, a, dot, i64::MAX as u64) {
        Some(x) => x,
        None => return None,
    };
    let nanos = match read_number(v, dot + 1, colon, i32::MAX as u64) {
        Some(x) => x,
        None => return None,
    };
    if jiff_accepts(secs as i64, nanos as i32) {
        Some(Timestamp { seconds: secs as i64, nanoseconds: nanos as i32 })
    } else {
        None
    }
}

/// The time that an event id such as `1731248210.306:7020` begins with.
pub fn parse_time(input: &str) -> (r: Option<Timestamp>)
    ensures
        r == timestamp_in(input@, 0, input@.len() as int),
{
    let v = chars_of(input);
    time_in(&v, 0, v.len())
}

/// The `type=<KIND>` marker: the kind, and where the header begins.
fn parse_type(input: &str, v: &Vec<char>) -> (r: Result<(AuditType, usize), ParseError>)
    requires
        v@ == input@,
    ensures
        match r {
            Ok((k, h)) => type_part(v@) == Ok::<(AuditType, int), Failure>((k, h as int)) && h <= v.len(),
            Err(e) => type_part(v@) == Err::<(AuditType, int), Failure>(e@),
        },
{
    let n = v.len();
    if n < 5 || !segment_is(v, 0, 5, "type=") {
        return Err(ParseError::MalformedHeader);
    }
    let t = find_char(v, 5, n, ' ');
    let h = skip_blanks(v, t, n);
    if h == t {
        return Err(ParseError::MalformedHeader);
    }
    match kind_of_segment(v, 5, t) {
        Some(k) => Ok((k, h)),
        None => Err(ParseError::UnknownEventKind(input.substring_char(5, t).to_owned())),
    }
}

/// The header `msg=audit(<id>): ` at `h`: the time, the id, and where the
/// field list begins.
fn parse_event_id(input: &str, v: &Vec<char>, h: usize) -> (r: Result<(Timestamp, String, usize), ParseError>)
    requires
        v@ == input@,
        h <= v.len(),
    ensures
        match r {
            Ok((time, id, body)) => header_part(v@, h as int) matches Ok((t2, a, c)) && t2 == time && id@
                == v@.subrange(a, c) && body == c + 3 && body <= v.len(),
            Err(e) => header_part(v@, h as int) == Err::<(Timestamp, int, int), Failure>(e@),
        },
{
    let n = v.len();
    if n - h < 10 || !segment_is(v, h, h + 10, "msg=audit(") {
        return Err(ParseError::MalformedHeader);
    }
    let a = h + 10;
    let c = find_char(v, a, n, ')');
    let time = match time_in(v, a, c) {
        Some(t) => t,
        None => return Err(ParseError::MalformedTimestamp),
    };
    if n - c < 3 || !segment_is(v, c, c + 3, "): ") {
        return Err(ParseError::MalformedHeader);
    }
    Ok((time, input.substring_char(a, c).to_owned(), c + 3))
}

/// The pair `key=value` at `i`, inside `..end`.
fn parse_nvp(input: &str, v: &Vec<char>, i: usize, end: usize) -> (r: Result<(String, String, usize), ParseError>)
    requires
        v@ == input@,
        i < end <= v.len(),
    ensures
        match r {
            Ok((k, val, e)) => pair_at(v@, i as int, end as int) == Ok::<(Seq<char>, Seq<char>, int), Failure>(
                (k@, val@, e as int),
            ),
            Err(err) => pair_at(v@, i as int, end as int) == Err::<(Seq<char>, Seq<char>, int), Failure>(err@),
        },
{
    let k = find_char(v, i, end, '=');
    if k >= end {
        return Err(ParseError::MalformedField);
    }
    let key = input.substring_char(i, k).to_owned();
    if k + 1 < end && v[k + 1] == '"' {
        let q = find_char(v, k + 2, end, '"');
        if q >= end {
            return Err(ParseError::UnterminatedQuote);
        }
        let e = find_sep(v, q + 1, end);
        Ok((key, input.substring_char(k + 2, q).to_owned(), e))
    } else {
        let e = find_sep(v, k + 1, end);
        Ok((key, input.substring_char(k + 1, e).to_owned(), e))
    }
}

/// The fields of the list `v[from..end]`.
fn parse_nvps(input: &str, v: &Vec<char>, from: usize, end: usize) -> (r: Result<Table, ParseError>)
    requires
        v@ == input@,
        from <= end <= v.len(),
    ensures
        match r {
            Ok(t) => fields_from(v@, from as int, end as int, Map::empty()) == Ok::<
                Map<Seq<char>, Seq<char>>,
                Failure,
            >(t@),
            Err(e) => fields_from(v@, from as int, end as int, Map::empty()) == Err::<
                Map<Seq<char>, Seq<char>>,
                Failure,
            >(e@),
        },
{
    let mut acc = Table::new();
    let mut i = from;
    while i < end
        invariant
            v@ == input@,
            from <= i <= end <= v.len(),
            fields_from(v@, from as int, end as int, Map::empty()) == fields_from(v@, i as int, end as int, acc@),
        decreases end - i,
    {
        proof {
            lemma_pair_at_bounds(v@, i as int, end as int);
        }
        let (k, val, e) = match parse_nvp(input, v, i, end) {
            Ok(p) => p,
            Err(err) => return Err(err),
        };
        acc.insert(k, val);
        if e >= end {
            return Ok(acc);
        }
        i = e + 1;
    }
    Ok(acc)
}

/// The fields of a `SOCKADDR` record whose list starts at `body`.
fn parse_socket_address(input: &str, v: &Vec<char>, body: usize) -> (r: Result<Table, ParseError>)
    requires
        v@ == input@,
        body <= v.len(),
    ensures
        match r {
            Ok(t) => socket_fields(v@, body as int) == Ok::<Map<Seq<char>, Seq<char>>, Failure>(t@),
            Err(e) => socket_fields(v@, body as int) == Err::<Map<Seq<char>, Seq<char>>, Failure>(e@),
        },
{
    let n = v.len();
    let ob = find_char(v, body, n, '{');
    if n - ob > 2 && v[ob + 1] == ' ' {
        let cb = find_close(v, ob + 2);
        if cb < n {
            return parse_nvps(input, v, ob + 2, cb);
        }
    }
    parse_nvps(input, v, body, n)
}

/// `r` is what the line `s` parses to.
pub open spec fn parsed_as(s: Seq<char>, r: Result<AuditRecord, ParseError>) -> bool {
    match r {
        Ok(rec) => parse_model(s) == Ok::<RecordView, Failure>(rec@),
        Err(e) => parse_model(s) == Err::<RecordView, Failure>(e@),
    }
}

/// Parsing depends on the line alone: two parses of one line give the same
/// record, or the same error.
pub proof fn lemma_parse_deterministic(s: Seq<char>, r1: Result<AuditRecord, ParseError>, r2: Result<AuditRecord, ParseError>)
    requires
        parsed_as(s, r1),
        parsed_as(s, r2),
    ensures
        match (r1, r2) {
            (Ok(a), Ok(b)) => a@ == b@,
            (Err(x), Err(y)) => x@ == y@,
            _ => false,
        },
{
}

/// Parses one audit line into a record.
pub fn parse_event(input: &str) -> (r: Result<AuditRecord, ParseError>)
    ensures
        parsed_as(input@, r),
{
    let v = chars_of(input);
    let (event_type, h) = match parse_type(input, &v) {
        Ok(p) => p,
        Err(e) => return Err(e),
    };
    let (time, id, body) = match parse_event_id(input, &v, h) {
        Ok(p) => p,
        Err(e) => return Err(e),
    };
    let data = if event_type == AuditType::SockAddr {
        parse_socket_address(input, &v, body)
    } else {
        parse_nvps(input, &v, body, v.len())
    };
    match data {
        Ok(data) => {
            let rec = AuditRecord { id, time, event_type, data };
            assert(parse_model(input@) == Ok::<RecordView, Failure>(rec@));
            Ok(rec)
        },
        Err(e) => Err(e),
    }
}

} // verus!

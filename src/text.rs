//! Scanning a line of characters: the positions that the grammar looks for,
//! and decimal numbers.
use vstd::prelude::*;
use vstd::std_specs::iter::IteratorSpec;

verus! {

/// The first position in `from..end` at which `stop` holds, or `end`.
pub open spec fn scan(from: int, end: int, stop: spec_fn(int) -> bool) -> int
    decreases end - from,
{
    if from >= end {
        end
    } else if stop(from) {
        from
    } else {
        scan(from + 1, end, stop)
    }
}

pub proof fn lemma_scan(from: int, end: int, stop: spec_fn(int) -> bool, i: int)
    requires
        from <= i <= end,
        forall|j: int| from <= j < i ==> !#[trigger] stop(j),
        i == end || stop(i),
    ensures
        scan(from, end, stop) == i,
    decreases i - from,
{
    if from < i {
        lemma_scan(from + 1, end, stop, i);
    }
}

pub proof fn lemma_scan_bounds(from: int, end: int, stop: spec_fn(int) -> bool)
    requires
        from <= end,
    ensures
        from <= scan(from, end, stop) <= end,
        scan(from, end, stop) < end ==> stop(scan(from, end, stop)),
    decreases end - from,
{
    if from < end && !stop(from) {
        lemma_scan_bounds(from + 1, end, stop);
    }
}

pub open spec fn at_char(s: Seq<char>, c: char) -> spec_fn(int) -> bool {
    |j: int| s[j] == c
}

pub open spec fn is_digit(c: char) -> bool {
    '0' <= c <= '9'
}

pub open spec fn digit_value(c: char) -> nat {
    if is_digit(c) {
        (c as nat - '0' as nat) as nat
    } else {
        0
    }
}

/// The value of a run of decimal digits.
pub open spec fn decimal_value(t: Seq<char>) -> nat
    decreases t.len(),
{
    if t.len() == 0 {
        0
    } else {
        decimal_value(t.drop_last()) * 10 + digit_value(t.last())
    }
}

/// A non-empty run of decimal digits.
pub open spec fn is_number(t: Seq<char>) -> bool {
    t.len() > 0 && forall|i: int| 0 <= i < t.len() ==> is_digit(t[i])
}

proof fn lemma_decimal_grows(t: Seq<char>, i: int, j: int)
    requires
        0 <= i <= j <= t.len(),
    ensures
        decimal_value(t.take(i)) <= decimal_value(t.take(j)),
    decreases j - i,
{
    if i < j {
        lemma_decimal_grows(t, i, j - 1);
        assert(t.take(j).drop_last() =~= t.take(j - 1));
    }
}

/// The characters of `s`.
pub fn chars_of(s: &str) -> (r: Vec<char>)
    ensures
        r@ == s@,
{
    let n = s.unicode_len();
    let mut r: Vec<char> = Vec::with_capacity(n);
    let mut it = s.chars();
    proof {
        broadcast use vstd::string::group_string_axioms;
    }
    let mut i: usize = 0;
    while i < n
        invariant
            r@ + it.remaining() == s@,
            r.len() == i,
            n == s@.len(),
            it.obeys_prophetic_iter_laws(),
        decreases n - i,
    {
        proof {
            broadcast use vstd::string::next_postcondition;
        }
        if let Some(c) = it.next() {
            r.push(c);
            assert(r@ + it.remaining() =~= s@);
        }
        i = i + 1;
    }
    assert(r@ =~= s@);
    r
}

/// Whether `v[a..b]` holds exactly the characters of `lit`.
pub fn segment_is(v: &Vec<char>, a: usize, b: usize, lit: &str) -> (r: bool)
    requires
        a <= b <= v.len(),
    ensures
        r == (v@.subrange(a as int, b as int) == lit@),
{
    let n = lit.unicode_len();
    if b - a != n {
        return false;
    }
    let mut i: usize = 0;
    while i < n
        invariant
            n == lit@.len(),
            a + n == b <= v.len(),
            i <= n,
            forall|j: int| 0 <= j < i ==> v@[a + j] == lit@[j],
        decreases n - i,
    {
        if v[a + i] != lit.get_char(i) {
            assert(v@.subrange(a as int, b as int)[i as int] != lit@[i as int]);
            return false;
        }
        i = i + 1;
    }
    assert(v@.subrange(a as int, b as int) =~= lit@);
    true
}

/// The first position in `from..end` that holds `c`, or `end`.
pub fn find_char(v: &Vec<char>, from: usize, end: usize, c: char) -> (r: usize)
    requires
        from <= end <= v.len(),
    ensures
        r == scan(from as int, end as int, at_char(v@, c)),
        from <= r <= end,
{
    let mut i = from;
    while i < end && v[i] != c
        invariant
            from <= i <= end <= v.len(),
            forall|j: int| from <= j < i ==> v@[j] != c,
        decreases end - i,
    {
        i = i + 1;
    }
    proof {
        lemma_scan(from as int, end as int, at_char(v@, c), i as int);
    }
    i
}

/// The value of the digits `v[a..b]`, where they are a number no greater
/// than `cap`.
pub fn read_number(v: &Vec<char>, a: usize, b: usize, cap: u64) -> (r: Option<u64>)
    requires
        a <= b <= v.len(),
    ensures
        ({
            let t = v@.subrange(a as int, b as int);
            r == if is_number(t) && decimal_value(t) <= cap {
                Some(decimal_value(t) as u64)
            } else {
                None
            }
        }),
{
    let ghost t = v@.subrange(a as int, b as int);
    if a == b {
        return None;
    }
    let mut acc: u64 = 0;
    let mut i: usize = a;
    while i < b
        invariant
            a <= i <= b <= v.len(),
            t == v@.subrange(a as int, b as int),
            forall|j: int| 0 <= j < i - a ==> is_digit(t[j]),
            acc == decimal_value(t.take(i - a)),
            acc <= cap,
        decreases b - i,
    {
        let c = v[i];
        if !('0' <= c && c <= '9') {
            assert(!is_digit(t[i - a]));
            return None;
        }
        let d = (c as u32 - '0' as u32) as u128;
        let next: u128 = acc as u128 * 10 + d;
        proof {
            assert(t.take(i - a + 1).drop_last() =~= t.take(i - a));
        }
        if next > cap as u128 {
            proof {
                lemma_decimal_grows(t, i - a + 1, t.len() as int);
                assert(t.take(t.len() as int) =~= t);
            }
            return None;
        }
        acc = next as u64;
        i = i + 1;
    }
    assert(t.take(t.len() as int) =~= t);
    Some(acc)
}

} // verus!

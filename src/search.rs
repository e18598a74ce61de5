//! Process search: case-insensitive substring search on names or pids, and
//! the selection of rows by per-row verdicts.
use vstd::prelude::*;
use crate::process::{ProcessHarvest, ProcessView, procs_view};

verus! {

/// ASCII lower case of one character; other characters are kept.
pub open spec fn ascii_lower(c: char) -> char {
    if 'A' <= c && c <= 'Z' {
        ((c as u32) + 32) as char
    } else {
        c
    }
}

pub open spec fn lower_seq(s: Seq<char>) -> Seq<char> {
    s.map_values(|c: char| ascii_lower(c))
}

/// Whether `q` occurs in `t` as a contiguous run; the empty query occurs in
/// every text.
pub open spec fn contains_sub(t: Seq<char>, q: Seq<char>) -> bool {
    exists|i: int| 0 <= i && i + q.len() <= t.len() && #[trigger] t.subrange(i, i + q.len()) == q
}

/// The empty query occurs in every text.
pub proof fn lemma_empty_occurs(t: Seq<char>)
    ensures
        contains_sub(t, Seq::empty()),
{
    assert(t.subrange(0int, 0int + Seq::<char>::empty().len()) =~= Seq::<char>::empty());
}

pub open spec fn digit_char(d: nat) -> char {
    (('0' as u32) + d) as char
}

/// Decimal text of `n`, without leading zeros.
pub open spec fn decimal(n: nat) -> Seq<char>
    decreases n,
{
    if n < 10 {
        seq![digit_char(n)]
    } else {
        decimal(n / 10).push(digit_char(n % 10))
    }
}

/// Whether a row matches the lower-cased query `q`: by its name, or by the
/// decimal text of its pid (of any of its pids, for a grouped row).
pub open spec fn simple_row_match(p: ProcessView, q: Seq<char>, by_pid: bool) -> bool {
    if by_pid {
        match p.pids {
            Some(ps) => any_pid_matches(ps, q),
            None => contains_sub(decimal(p.pid as nat), q),
        }
    } else {
        contains_sub(lower_seq(p.name), q)
    }
}

/// The rows of `s` whose verdict in `flags` is true, in order.
pub open spec fn select(s: Seq<ProcessView>, flags: Seq<bool>) -> Seq<ProcessView>
    decreases s.len(),
{
    if s.len() == 0 || flags.len() == 0 {
        Seq::empty()
    } else if flags[s.len() - 1] {
        select(s.drop_last(), flags).push(s.last())
    } else {
        select(s.drop_last(), flags)
    }
}

pub(crate) fn chars_of(s: &String) -> (r: Vec<char>)
    ensures
        r@ == s@,
{
    let st = s.as_str();
    let n = st.unicode_len();
    let mut r: Vec<char> = Vec::new();
    let mut i: usize = 0;
    while i < n
        invariant
            i <= n,
            n == s@.len(),
            st@ == s@,
            r@ == s@.subrange(0, i as int),
        decreases n - i,
    {
        r.push(st.get_char(i));
        assert(r@ =~= s@.subrange(0, i + 1));
        i = i + 1;
    }
    assert(s@.subrange(0, n as int) =~= s@);
    r
}

fn lower_char(c: char) -> (r: char)
    ensures
        r == ascii_lower(c),
{
    if 'A' <= c && c <= 'Z' {
        ((c as u8) + 32) as char
    } else {
        c
    }
}

fn lower_chars(s: &String) -> (r: Vec<char>)
    ensures
        r@ == lower_seq(s@),
{
    let cs = chars_of(s);
    let mut r: Vec<char> = Vec::new();
    let mut i: usize = 0;
    while i < cs.len()
        invariant
            i <= cs@.len(),
            cs@ == s@,
            r@ == lower_seq(s@.subrange(0, i as int)),
        decreases cs.len() - i,
    {
        r.push(lower_char(cs[i]));
        assert(lower_seq(s@.subrange(0, i + 1)) =~= lower_seq(s@.subrange(0, i as int)).push(ascii_lower(s@[i as int])));
        i = i + 1;
    }
    assert(s@.subrange(0, cs@.len() as int) =~= s@);
    r
}

pub(crate) fn decimal_chars(n: u32) -> (r: Vec<char>)
    ensures
        r@ == decimal(n as nat),
    decreases n,
{
    let d: u32 = n % 10;
    let c = ((d as u8) + 48) as char;
    if n < 10 {
        let mut r: Vec<char> = Vec::new();
        r.push(c);
        assert(r@ =~= seq![digit_char(n as nat)]);
        r
    } else {
        let mut r = decimal_chars(n / 10);
        r.push(c);
        r
    }
}

/// Whether `q` occurs in `t`.
fn has_substring(t: &Vec<char>, q: &Vec<char>) -> (r: bool)
    ensures
        r == contains_sub(t@, q@),
{
    if q.len() == 0 {
        assert(t@.subrange(0int, 0int + q@.len()) =~= q@);
        return true;
    }
    if q.len() > t.len() {
        return false;
    }
    let last: usize = t.len() - q.len();
    let mut i: usize = 0;
    while i <= last
        invariant
            last + q@.len() == t@.len(),
            q@.len() >= 1,
            forall|k: int| 0 <= k < i ==> #[trigger] t@.subrange(k, k + q@.len()) != q@,
        decreases last + 1 - i,
    {
        let mut j: usize = 0;
        let mut same = true;
        while j < q.len() && same
            invariant
                i <= last,
                last + q@.len() == t@.len(),
                t@.len() == t.len(),
                j <= q@.len(),
                same ==> forall|m: int| 0 <= m < j ==> t@[i + m] == q@[m],
                !same ==> j > 0 && t@[i + j - 1] != q@[j - 1],
            decreases q.len() - j,
        {
            if t[i + j] != q[j] {
                same = false;
            }
            j = j + 1;
        }
        if same {
            assert(t@.subrange(i as int, i + q@.len()) =~= q@);
            return true;
        }
        assert(t@.subrange(i as int, i + q@.len())[j - 1] != q@[j - 1]);
        i = i + 1;
    }
    proof {
        assert forall|k: int| 0 <= k && k + q@.len() <= t@.len() implies #[trigger] t@.subrange(k, k + q@.len()) != q@ by {
            assert(k < i);
        }
    }
    false
}

/// Whether the decimal text of any pid of `ps` contains `q`.
pub open spec fn any_pid_matches(ps: Seq<u32>, q: Seq<char>) -> bool {
    exists|k: int| 0 <= k < ps.len() && contains_sub(decimal(#[trigger] ps[k] as nat), q)
}

fn pids_match(ps: &Vec<u32>, q: &Vec<char>) -> (r: bool)
    ensures
        r == any_pid_matches(ps@, q@),
{
    let mut k: usize = 0;
    while k < ps.len()
        invariant
            k <= ps@.len(),
            forall|m: int| 0 <= m < k ==> !contains_sub(decimal(#[trigger] ps@[m] as nat), q@),
        decreases ps.len() - k,
    {
        if has_substring(&decimal_chars(ps[k]), q) {
            assert(contains_sub(decimal(ps@[k as int] as nat), q@));
            return true;
        }
        k = k + 1;
    }
    false
}

fn row_matches(p: &ProcessHarvest, q: &Vec<char>, by_pid: bool) -> (r: bool)
    ensures
        r == simple_row_match(p@, q@, by_pid),
{
    if by_pid {
        match &p.pid_vec {
            Some(ps) => pids_match(ps, q),
            None => has_substring(&decimal_chars(p.pid), q),
        }
    } else {
        has_substring(&lower_chars(&p.name), q)
    }
}

/// For each row, whether it matches `query` case-insensitively (ASCII), by
/// name, or by pid when `search_by_pid`.
pub fn simple_search_flags(rows: &Vec<ProcessHarvest>, query: &String, search_by_pid: bool) -> (r: Vec<bool>)
    ensures
        r@ == procs_view(rows@).map_values(|p: ProcessView| simple_row_match(p, lower_seq(query@), search_by_pid)),
{
    let q = lower_chars(query);
    let mut r: Vec<bool> = Vec::new();
    let mut i: usize = 0;
    while i < rows.len()
        invariant
            i <= rows@.len(),
            q@ == lower_seq(query@),
            r@ == procs_view(rows@).subrange(0, i as int).map_values(|p: ProcessView| simple_row_match(p, lower_seq(query@), search_by_pid)),
        decreases rows.len() - i,
    {
        let b = row_matches(&rows[i], &q, search_by_pid);
        r.push(b);
        assert(procs_view(rows@).subrange(0, i + 1) =~= procs_view(rows@).subrange(0, i as int).push(rows@[i as int]@));
        assert(r@ =~= procs_view(rows@).subrange(0, i + 1).map_values(|p: ProcessView| simple_row_match(p, lower_seq(query@), search_by_pid)));
        i = i + 1;
    }
    assert(procs_view(rows@).subrange(0, rows@.len() as int) =~= procs_view(rows@));
    r
}

} // verus!

//! Pattern search: a row matches when a regular expression built from the
//! query finds a match in its name or in the decimal text of its pid.
use vstd::prelude::*;
use crate::process::{ProcessHarvest, ProcessView, procs_view};
use crate::search::{decimal, decimal_chars, chars_of, select};

verus! {

#[verifier::external_type_specification]
#[verifier::external_body]
pub struct ExRegex(regex::Regex);

/// Whether `p` is accepted as a regular expression (valid, and within the
/// default size limit).
pub uninterp spec fn pattern_compiles(p: Seq<char>) -> bool;

/// Whether the regular expression `p` matches anywhere in `t`.
pub uninterp spec fn pattern_matches(p: Seq<char>, t: Seq<char>) -> bool;

/// A compiled query, with the text it was compiled from.
pub struct CompiledPattern {
    re: regex::Regex,
    pub source: Ghost<Seq<char>>,
}

/// Relies on regex::Regex::new: it fails exactly on the patterns that are
/// invalid or too large, which depends on the pattern alone.
#[verifier::external_body]
fn compile_pattern(p: &String) -> (r: Option<CompiledPattern>)
    ensures
        r.is_some() == pattern_compiles(p@),
        r matches Some(c) ==> c.source@ == p@,
{
    regex::Regex::new(p.as_str()).ok().map(|re| CompiledPattern { re, source: Ghost(p@) })
}

/// Relies on regex::Regex::is_match: whether the compiled pattern matches
/// anywhere in the text.
#[verifier::external_body]
fn regex_is_match(c: &CompiledPattern, t: &Vec<char>) -> (r: bool)
    ensures
        r == pattern_matches(c.source@, t@),
{
    let text: String = t.iter().collect();
    c.re.is_match(&text)
}

/// Whether the pattern matches any of the pids' decimal texts.
pub open spec fn pattern_any_pid(ps: Seq<u32>, p: Seq<char>) -> bool {
    exists|k: int| 0 <= k < ps.len() && pattern_matches(p, decimal(#[trigger] ps[k] as nat))
}

/// Whether a row matches the pattern `p`: by its name, or by the decimal
/// text of its pid (of any of its pids, for a grouped row).
pub open spec fn pattern_row_match(row: ProcessView, p: Seq<char>, by_pid: bool) -> bool {
    if by_pid {
        match row.pids {
            Some(ps) => pattern_any_pid(ps, p),
            None => pattern_matches(p, decimal(row.pid as nat)),
        }
    } else {
        pattern_matches(p, row.name)
    }
}

/// Whether a query filters anything in pattern mode: an empty query or one
/// that does not compile lets every row through.
pub open spec fn pattern_active(p: Seq<char>) -> bool {
    p.len() > 0 && pattern_compiles(p)
}

/// The rows of `s` kept by a pattern search for `p`.
pub open spec fn pattern_filtered(s: Seq<ProcessView>, p: Seq<char>, by_pid: bool) -> Seq<ProcessView> {
    if pattern_active(p) {
        select(s, s.map_values(|row: ProcessView| pattern_row_match(row, p, by_pid)))
    } else {
        s
    }
}

/// A query that is not a valid pattern filters nothing: the rows come back
/// as they were.
pub proof fn lemma_invalid_pattern_keeps_all(s: Seq<ProcessView>, p: Seq<char>, by_pid: bool)
    requires
        !pattern_compiles(p),
    ensures
        pattern_filtered(s, p, by_pid) == s,
{
}

fn pids_match_pattern(ps: &Vec<u32>, c: &CompiledPattern) -> (r: bool)
    ensures
        r == pattern_any_pid(ps@, c.source@),
{
    let mut k: usize = 0;
    while k < ps.len()
        invariant
            k <= ps@.len(),
            forall|m: int| 0 <= m < k ==> !pattern_matches(c.source@, decimal(#[trigger] ps@[m] as nat)),
        decreases ps.len() - k,
    {
        if regex_is_match(c, &decimal_chars(ps[k])) {
            assert(pattern_matches(c.source@, decimal(ps@[k as int] as nat)));
            return true;
        }
        k = k + 1;
    }
    false
}

fn row_matches_pattern(row: &ProcessHarvest, c: &CompiledPattern, by_pid: bool) -> (r: bool)
    ensures
        r == pattern_row_match(row@, c.source@, by_pid),
{
    if by_pid {
        match &row.pid_vec {
            Some(ps) => pids_match_pattern(ps, c),
            None => regex_is_match(c, &decimal_chars(row.pid)),
        }
    } else {
        regex_is_match(c, &chars_of(&row.name))
    }
}

/// For each row, whether the pattern `query` matches it, by name or by pid
/// when `search_by_pid`; `None` when the query is empty or does not compile,
/// so that nothing is filtered.
pub fn pattern_search_flags(rows: &Vec<ProcessHarvest>, query: &String, search_by_pid: bool) -> (r: Option<Vec<bool>>)
    ensures
        r is None <==> !pattern_active(query@),
        r matches Some(v) ==> v@ == procs_view(rows@).map_values(|p: ProcessView| pattern_row_match(p, query@, search_by_pid)),
{
    if query.as_str().unicode_len() == 0 {
        return None;
    }
    let c = match compile_pattern(query) {
        Some(c) => c,
        None => return None,
    };
    let mut r: Vec<bool> = Vec::new();
    let mut i: usize = 0;
    while i < rows.len()
        invariant
            i <= rows@.len(),
            c.source@ == query@,
            r@ == procs_view(rows@).subrange(0, i as int).map_values(|p: ProcessView| pattern_row_match(p, query@, search_by_pid)),
        decreases rows.len() - i,
    {
        let b = row_matches_pattern(&rows[i], &c, search_by_pid);
        r.push(b);
        assert(procs_view(rows@).subrange(0, i + 1) =~= procs_view(rows@).subrange(0, i as int).push(rows@[i as int]@));
        assert(r@ =~= procs_view(rows@).subrange(0, i + 1).map_values(|p: ProcessView| pattern_row_match(p, query@, search_by_pid)));
        i = i + 1;
    }
    assert(procs_view(rows@).subrange(0, rows@.len() as int) =~= procs_view(rows@));
    Some(r)
}

} // verus!

//! The process table shown to the user: grouping, sorting and search applied
//! to one raw process sample.
use vstd::prelude::*;
use crate::process::{
    ProcessHarvest, ProcessSorting, ProcessView, procs_view, fits_totals, is_grouping, procs_sorted,
    group_processes, sort_processes, stably_sorted, lemma_stable_sort_of_name_order,
    stable_reorder, lemma_grouped_rows_have_pids,
};
use crate::pattern::{pattern_filtered, pattern_search_flags};
use crate::search::{select, lower_seq, simple_row_match, simple_search_flags, decimal, lemma_empty_occurs};

verus! {

/// Process-view settings, owned by the event loop.
pub struct ProcessSettings {
    pub sorting: ProcessSorting,
    pub reverse: bool,
    pub grouped: bool,
    pub use_simple: bool,
    pub query: String,
    pub search_by_pid: bool,
}

/// The rows to display: the raw rows, and the grouped rows when grouping is on.
pub struct ProcessTables {
    pub process_data: Vec<ProcessHarvest>,
    pub grouped_process_data: Option<Vec<ProcessHarvest>>,
}

/// The sort actually applied: sorting grouped rows by pid means nothing, so
/// that falls back to CPU usage, descending.
pub open spec fn effective_sort_spec(sorting: ProcessSorting, reverse: bool, grouped: bool) -> (ProcessSorting, bool) {
    if grouped && sorting == ProcessSorting::PID {
        (ProcessSorting::CPU, true)
    } else {
        (sorting, reverse)
    }
}

pub fn effective_sort(sorting: ProcessSorting, reverse: bool, grouped: bool) -> (r: (ProcessSorting, bool))
    ensures
        r == effective_sort_spec(sorting, reverse, grouped),
{
    if grouped && sorting == ProcessSorting::PID {
        (ProcessSorting::CPU, true)
    } else {
        (sorting, reverse)
    }
}

/// The rows of `s` that match the lower-cased query `q`.
pub open spec fn simple_filtered(s: Seq<ProcessView>, q: Seq<char>, by_pid: bool) -> Seq<ProcessView> {
    select(s, s.map_values(|p: ProcessView| simple_row_match(p, q, by_pid)))
}

/// `gs` holds the grouped rows of `s`, in some order, sorted by `key`.
pub open spec fn sorted_grouping(s: Seq<ProcessView>, gs: Seq<ProcessView>, key: ProcessSorting, reverse: bool) -> bool {
    exists|g: Seq<ProcessView>| is_grouping(s, g) && #[trigger] g.to_multiset() == gs.to_multiset() && procs_sorted(gs, key, reverse)
}

/// Sorting grouped rows by pid always falls back to CPU usage, descending,
/// whatever direction was asked for; any other key is kept.
pub proof fn lemma_grouped_pid_sort_is_cpu_descending(sorting: ProcessSorting, reverse: bool)
    ensures
        sorting == ProcessSorting::PID ==> effective_sort_spec(sorting, reverse, true) == (ProcessSorting::CPU, true),
        sorting != ProcessSorting::PID ==> effective_sort_spec(sorting, reverse, true) == (sorting, reverse),
        effective_sort_spec(sorting, reverse, false) == (sorting, reverse),
{
}

/// Puts back the default sort (CPU usage, descending) when grouped rows are
/// to be sorted by pid.
pub fn fix_grouped_sort(settings: &mut ProcessSettings)
    ensures
        (final(settings).sorting, final(settings).reverse) == effective_sort_spec(
            old(settings).sorting,
            old(settings).reverse,
            old(settings).grouped,
        ),
        final(settings).grouped == old(settings).grouped,
        final(settings).use_simple == old(settings).use_simple,
        final(settings).query == old(settings).query,
        final(settings).search_by_pid == old(settings).search_by_pid,
{
    let (s, r) = effective_sort(settings.sorting, settings.reverse, settings.grouped);
    settings.sorting = s;
    settings.reverse = r;
}

/// Chooses the sort key. Choosing the key in use again flips the direction;
/// a new key starts descending for CPU and memory usage, ascending for pid
/// and name.
pub fn choose_sort(settings: &mut ProcessSettings, key: ProcessSorting)
    ensures
        final(settings).sorting == key,
        old(settings).sorting == key ==> final(settings).reverse == !old(settings).reverse,
        old(settings).sorting != key ==> final(settings).reverse == (key == ProcessSorting::CPU || key == ProcessSorting::MEM),
        final(settings).grouped == old(settings).grouped,
        final(settings).use_simple == old(settings).use_simple,
        final(settings).query == old(settings).query,
        final(settings).search_by_pid == old(settings).search_by_pid,
{
    if settings.sorting == key {
        settings.reverse = !settings.reverse;
    } else {
        settings.sorting = key;
        settings.reverse = key == ProcessSorting::CPU || key == ProcessSorting::MEM;
    }
}

/// Every row passes when all verdicts are true.
proof fn lemma_select_all(s: Seq<ProcessView>, flags: Seq<bool>)
    requires
        flags.len() >= s.len(),
        forall|i: int| 0 <= i < s.len() ==> #[trigger] flags[i],
    ensures
        select(s, flags) == s,
    decreases s.len(),
{
    if s.len() > 0 {
        lemma_select_all(s.drop_last(), flags);
        assert(s.drop_last().push(s.last()) =~= s);
    }
}

/// A row of the process table: a raw row, or a grouped row with pids.
pub open spec fn well_formed_row(p: ProcessView) -> bool {
    match p.pids {
        Some(ps) => ps.len() > 0,
        None => true,
    }
}

/// The empty query matches every row, by name or by pid, so a simple search
/// for it keeps the table whole.
pub proof fn lemma_empty_query_keeps_all(s: Seq<ProcessView>, by_pid: bool)
    requires
        forall|i: int| 0 <= i < s.len() ==> well_formed_row(#[trigger] s[i]),
    ensures
        simple_filtered(s, lower_seq(Seq::empty()), by_pid) == s,
{
    let q = lower_seq(Seq::<char>::empty());
    assert(q =~= Seq::<char>::empty());
    let flags = s.map_values(|p: ProcessView| simple_row_match(p, q, by_pid));
    assert forall|i: int| 0 <= i < flags.len() implies #[trigger] flags[i] by {
        let p = s[i];
        assert(well_formed_row(p));
        if by_pid {
            match p.pids {
                Some(ps) => {
                    lemma_empty_occurs(decimal(ps[0] as nat));
                },
                None => {
                    lemma_empty_occurs(decimal(p.pid as nat));
                },
            }
        } else {
            lemma_empty_occurs(lower_seq(p.name));
        }
    }
    lemma_select_all(s, flags);
}

/// A stable sort keeps every row as it was, so well-formed rows stay so.
proof fn lemma_stable_keeps_well_formed(s: Seq<ProcessView>, t: Seq<ProcessView>, key: ProcessSorting, reverse: bool)
    requires
        stably_sorted(s, t, key, reverse),
        forall|i: int| 0 <= i < s.len() ==> well_formed_row(#[trigger] s[i]),
    ensures
        forall|i: int| 0 <= i < t.len() ==> well_formed_row(#[trigger] t[i]),
{
    let p = choose|p: Seq<int>| stable_reorder(s, t, p, key);
    assert forall|i: int| 0 <= i < t.len() implies well_formed_row(#[trigger] t[i]) by {
        assert(0 <= p[i] < s.len() && t[i] == s[p[i]]);
    }
}

fn copy_process(p: &ProcessHarvest) -> (r: ProcessHarvest)
    ensures
        r@ == p@,
{
    let pid_vec = match &p.pid_vec {
        Some(ps) => {
            let mut v: Vec<u32> = Vec::new();
            let mut i: usize = 0;
            while i < ps.len()
                invariant
                    i <= ps@.len(),
                    v@ == ps@.subrange(0, i as int),
                decreases ps.len() - i,
            {
                v.push(ps[i]);
                assert(v@ =~= ps@.subrange(0, i + 1));
                i = i + 1;
            }
            assert(ps@.subrange(0, ps@.len() as int) =~= ps@);
            Some(v)
        },
        None => None,
    };
    ProcessHarvest {
        pid: p.pid,
        name: p.name.clone(),
        cpu_usage_percent: p.cpu_usage_percent,
        mem_usage_percent: p.mem_usage_percent,
        pid_vec,
    }
}

/// The rows whose verdict in `flags` is true, in order.
pub fn select_rows(rows: &Vec<ProcessHarvest>, flags: &Vec<bool>) -> (r: Vec<ProcessHarvest>)
    requires
        flags@.len() == rows@.len(),
    ensures
        procs_view(r@) == select(procs_view(rows@), flags@),
{
    let mut r: Vec<ProcessHarvest> = Vec::new();
    let mut i: usize = 0;
    assert(procs_view(r@) =~= select(procs_view(rows@).subrange(0, 0), flags@));
    while i < rows.len()
        invariant
            i <= rows@.len(),
            flags@.len() == rows@.len(),
            procs_view(r@) == select(procs_view(rows@).subrange(0, i as int), flags@),
        decreases rows.len() - i,
    {
        let ghost before = r@;
        let ghost pre = procs_view(rows@).subrange(0, i as int);
        let ghost next = procs_view(rows@).subrange(0, i + 1);
        assert(next.drop_last() =~= pre);
        if flags[i] {
            r.push(copy_process(&rows[i]));
            assert(procs_view(r@) =~= procs_view(before).push(rows@[i as int]@));
        } else {
            assert(procs_view(r@) =~= procs_view(before));
        }
        i = i + 1;
    }
    assert(procs_view(rows@).subrange(0, rows@.len() as int) =~= procs_view(rows@));
    r
}

/// The rows kept by a pattern search. `verdicts` holds, for each row, whether
/// the pattern matched it; `None` stands for an empty or invalid pattern,
/// which filters nothing.
pub fn apply_pattern_verdicts(rows: &Vec<ProcessHarvest>, verdicts: &Option<Vec<bool>>) -> (r: Vec<ProcessHarvest>)
    requires
        verdicts matches Some(v) ==> v@.len() == rows@.len(),
    ensures
        verdicts is None ==> procs_view(r@) == procs_view(rows@),
        verdicts matches Some(v) ==> procs_view(r@) == select(procs_view(rows@), v@),
{
    match verdicts {
        Some(v) => select_rows(rows, v),
        None => {
            let mut r: Vec<ProcessHarvest> = Vec::new();
            let mut i: usize = 0;
            while i < rows.len()
                invariant
                    i <= rows@.len(),
                    procs_view(r@) == procs_view(rows@).subrange(0, i as int),
                decreases rows.len() - i,
            {
                let ghost before = r@;
                r.push(copy_process(&rows[i]));
                assert(procs_view(r@) =~= procs_view(before).push(rows@[i as int]@));
                assert(procs_view(r@) =~= procs_view(rows@).subrange(0, i + 1));
                i = i + 1;
            }
            assert(procs_view(rows@).subrange(0, rows@.len() as int) =~= procs_view(rows@));
            r
        },
    }
}

/// Sorts the raw rows in place and derives the tables to display.
///
/// The raw rows are sorted stably by the requested key, so rows that tie keep
/// the order they came in. The grouped rows, built from the rows as they came
/// in, start in name order and are sorted stably by the effective key (see
/// `effective_sort`), which leaves rows that tie in name order; and are absent when grouping is off. Both tables keep
/// the rows that match the query: as a case-insensitive substring in simple
/// mode, as a regular expression in pattern mode (where an empty or invalid
/// query keeps every row).
pub fn handle_process_sorting(list: &mut Vec<ProcessHarvest>, settings: &ProcessSettings) -> (r: ProcessTables)
    requires
        fits_totals(procs_view(old(list)@)),
    ensures
        procs_view(final(list)@).to_multiset() == procs_view(old(list)@).to_multiset(),
        stably_sorted(procs_view(old(list)@), procs_view(final(list)@), settings.sorting, settings.reverse),
        settings.use_simple ==> procs_view(r.process_data@) == simple_filtered(
            procs_view(final(list)@),
            lower_seq(settings.query@),
            settings.search_by_pid,
        ),
        !settings.use_simple ==> procs_view(r.process_data@) == pattern_filtered(
            procs_view(final(list)@),
            settings.query@,
            settings.search_by_pid,
        ),
        settings.use_simple && settings.query@.len() == 0 && (forall|i: int|
            0 <= i < old(list)@.len() ==> well_formed_row(#[trigger] procs_view(old(list)@)[i]))
            ==> procs_view(r.process_data@) == procs_view(final(list)@),
        r.grouped_process_data is Some <==> settings.grouped,
        r.grouped_process_data matches Some(g) ==> exists|gs: Seq<ProcessView>| {
            &&& #[trigger] sorted_grouping(
                procs_view(old(list)@),
                gs,
                effective_sort_spec(settings.sorting, settings.reverse, true).0,
                effective_sort_spec(settings.sorting, settings.reverse, true).1,
            )
            &&& settings.use_simple ==> procs_view(g@) == simple_filtered(gs, lower_seq(settings.query@), settings.search_by_pid)
            &&& !settings.use_simple ==> procs_view(g@) == pattern_filtered(gs, settings.query@, settings.search_by_pid)
            &&& settings.use_simple && settings.query@.len() == 0 ==> procs_view(g@) == gs
        },
{
    let ghost s0 = procs_view(list@);
    let mut grouped = group_processes(list);
    let ghost g0 = procs_view(grouped@);
    let (gkey, grev) = effective_sort(settings.sorting, settings.reverse, true);
    sort_processes(&mut grouped, &gkey, grev);
    let ghost gs = procs_view(grouped@);
    proof {
        lemma_stable_sort_of_name_order(g0, gs, gkey, grev);
        lemma_grouped_rows_have_pids(s0, g0);
        assert forall|i: int| 0 <= i < g0.len() implies well_formed_row(#[trigger] g0[i]) by {}
        lemma_stable_keeps_well_formed(g0, gs, gkey, grev);
        if settings.query@.len() == 0 {
            assert(settings.query@ =~= Seq::<char>::empty());
            lemma_empty_query_keeps_all(gs, settings.search_by_pid);
        }
    }
    assert(is_grouping(s0, g0) && g0.to_multiset() == gs.to_multiset() && procs_sorted(gs, gkey, grev));
    assert(sorted_grouping(s0, gs, gkey, grev));
    sort_processes(list, &settings.sorting, settings.reverse);
    proof {
        let s1 = procs_view(list@);
        if settings.query@.len() == 0 && (forall|i: int| 0 <= i < s0.len() ==> well_formed_row(#[trigger] s0[i])) {
            lemma_stable_keeps_well_formed(s0, s1, settings.sorting, settings.reverse);
            assert(settings.query@ =~= Seq::<char>::empty());
            lemma_empty_query_keeps_all(s1, settings.search_by_pid);
        }
    }
    let (process_data, grouped_data) = if settings.use_simple {
        let flags = simple_search_flags(list, &settings.query, settings.search_by_pid);
        let rows = select_rows(list, &flags);
        let gflags = simple_search_flags(&grouped, &settings.query, settings.search_by_pid);
        let grows = select_rows(&grouped, &gflags);
        (rows, grows)
    } else {
        let flags = pattern_search_flags(list, &settings.query, settings.search_by_pid);
        let rows = apply_pattern_verdicts(list, &flags);
        let gflags = pattern_search_flags(&grouped, &settings.query, settings.search_by_pid);
        let grows = apply_pattern_verdicts(&grouped, &gflags);
        (rows, grows)
    };
    assert(settings.use_simple && settings.query@.len() == 0 ==> procs_view(grouped_data@) == gs);
    assert(settings.use_simple ==> procs_view(grouped_data@) == simple_filtered(gs, lower_seq(settings.query@), settings.search_by_pid));
    assert(!settings.use_simple ==> procs_view(grouped_data@) == pattern_filtered(gs, settings.query@, settings.search_by_pid));
    assert(sorted_grouping(
        s0,
        gs,
        effective_sort_spec(settings.sorting, settings.reverse, true).0,
        effective_sort_spec(settings.sorting, settings.reverse, true).1,
    ));
    ProcessTables {
        process_data,
        grouped_process_data: if settings.grouped { Some(grouped_data) } else { None },
    }
}

} // verus!

//! Process rows: grouping by name and sorting.
//!
//! CPU and memory usage are fixed-point percentages in hundredths of a percent.
use vstd::prelude::*;
use crate::names::{name_at_most, same_name, name_le, lemma_name_le_total, lemma_name_le_trans, lemma_name_le_antisym, lemma_name_le_refl};

verus! {

#[derive(Clone, Copy, Debug, PartialEq, Eq, Structural)]
pub enum ProcessSorting {
    CPU,
    MEM,
    PID,
    NAME,
}

/// One row of the process table. A raw row has `pid_vec == None`; a grouped
/// row has `pid == 0` and the pids that were merged into it in `pid_vec`.
#[derive(Clone, Debug)]
pub struct ProcessHarvest {
    pub pid: u32,
    pub name: String,
    pub cpu_usage_percent: u64,
    pub mem_usage_percent: u64,
    pub pid_vec: Option<Vec<u32>>,
}

pub struct ProcessView {
    pub pid: int,
    pub name: Seq<char>,
    pub cpu: int,
    pub mem: int,
    pub pids: Option<Seq<u32>>,
}

impl ProcessHarvest {
    pub open spec fn view(&self) -> ProcessView {
        ProcessView {
            pid: self.pid as int,
            name: self.name@,
            cpu: self.cpu_usage_percent as int,
            mem: self.mem_usage_percent as int,
            pids: match self.pid_vec {
                Some(v) => Some(v@),
                None => None,
            },
        }
    }
}

pub open spec fn procs_view(v: Seq<ProcessHarvest>) -> Seq<ProcessView> {
    v.map_values(|p: ProcessHarvest| p@)
}

/// Sum of the CPU usage of the rows named `n`.
pub open spec fn cpu_named(s: Seq<ProcessView>, n: Seq<char>) -> int
    decreases s.len(),
{
    if s.len() == 0 {
        0
    } else {
        cpu_named(s.drop_last(), n) + if s.last().name == n { s.last().cpu } else { 0 }
    }
}

/// Sum of the memory usage of the rows named `n`.
pub open spec fn mem_named(s: Seq<ProcessView>, n: Seq<char>) -> int
    decreases s.len(),
{
    if s.len() == 0 {
        0
    } else {
        mem_named(s.drop_last(), n) + if s.last().name == n { s.last().mem } else { 0 }
    }
}

/// The pids of the rows named `n`, in the order of the rows.
pub open spec fn pids_named(s: Seq<ProcessView>, n: Seq<char>) -> Seq<u32>
    decreases s.len(),
{
    if s.len() == 0 {
        Seq::empty()
    } else if s.last().name == n {
        pids_named(s.drop_last(), n).push(s.last().pid as u32)
    } else {
        pids_named(s.drop_last(), n)
    }
}

pub open spec fn cpu_total(s: Seq<ProcessView>) -> int
    decreases s.len(),
{
    if s.len() == 0 { 0 } else { cpu_total(s.drop_last()) + s.last().cpu }
}

pub open spec fn mem_total(s: Seq<ProcessView>) -> int
    decreases s.len(),
{
    if s.len() == 0 { 0 } else { mem_total(s.drop_last()) + s.last().mem }
}

pub open spec fn fits_totals(s: Seq<ProcessView>) -> bool {
    cpu_total(s) <= u64::MAX && mem_total(s) <= u64::MAX
}

/// Names strictly ascending, hence distinct.
pub open spec fn names_strict(s: Seq<Seq<char>>) -> bool {
    forall|i: int, j: int| 0 <= i < j < s.len() ==> name_le(#[trigger] s[i], #[trigger] s[j]) && s[i] != s[j]
}

/// `g` is the grouping of `s`: one row per distinct name, in name order,
/// with the summed usage and the pids of the rows of that name.
pub open spec fn is_grouping(s: Seq<ProcessView>, g: Seq<ProcessView>) -> bool {
    &&& names_strict(names_of(g))
    &&& names_of(g).to_set() == names_of(s).to_set()
    &&& forall|j: int| 0 <= j < g.len() ==> #[trigger] g[j] == grouped_row(s, g[j].name)
}

/// The grouped row for the name `n`.
pub open spec fn grouped_row(s: Seq<ProcessView>, n: Seq<char>) -> ProcessView {
    ProcessView {
        pid: 0,
        name: n,
        cpu: cpu_named(s, n),
        mem: mem_named(s, n),
        pids: Some(pids_named(s, n)),
    }
}

proof fn lemma_named_bounded(s: Seq<ProcessView>, n: Seq<char>)
    requires
        forall|k: int| 0 <= k < s.len() ==> (#[trigger] s[k]).cpu >= 0 && s[k].mem >= 0,
    ensures
        0 <= cpu_named(s, n) <= cpu_total(s),
        0 <= mem_named(s, n) <= mem_total(s),
    decreases s.len(),
{
    if s.len() > 0 {
        lemma_named_bounded(s.drop_last(), n);
    }
}

proof fn lemma_named_prefix(s: Seq<ProcessView>, n: Seq<char>, i: int)
    requires
        0 <= i <= s.len(),
        forall|k: int| 0 <= k < s.len() ==> (#[trigger] s[k]).cpu >= 0 && s[k].mem >= 0,
    ensures
        cpu_named(s.subrange(0, i), n) <= cpu_named(s, n),
        mem_named(s.subrange(0, i), n) <= mem_named(s, n),
    decreases s.len() - i,
{
    if i < s.len() {
        lemma_named_prefix(s, n, i + 1);
        assert(s.subrange(0, i + 1).drop_last() =~= s.subrange(0, i));
    } else {
        assert(s.subrange(0, i) =~= s);
    }
}

pub open spec fn names_of(s: Seq<ProcessView>) -> Seq<Seq<char>> {
    s.map_values(|p: ProcessView| p.name)
}

pub open spec fn string_views(v: Seq<String>) -> Seq<Seq<char>> {
    v.map_values(|n: String| n@)
}

/// Adds `name` to a list of names kept in strict name order.
fn insert_name(names: &mut Vec<String>, name: &String)
    requires
        names_strict(string_views(old(names)@)),
    ensures
        names_strict(string_views(final(names)@)),
        string_views(final(names)@).to_set() == string_views(old(names)@).to_set().insert(name@),
{
    let ghost s = string_views(names@);
    let mut j: usize = 0;
    while j < names.len()
        invariant
            j <= names@.len(),
            s == string_views(names@),
            names_strict(s),
            forall|m: int| 0 <= m < j ==> (#[trigger] s[m]) != name@,
        decreases names.len() - j,
    {
        if same_name(&names[j], name) {
            proof {
                assert(s[j as int] == name@);
                assert(s.to_set().insert(name@) =~= s.to_set());
            }
            return;
        }
        j = j + 1;
    }
    let mut pos: usize = 0;
    while pos < names.len() && name_at_most(&names[pos], name)
        invariant
            pos <= names@.len(),
            s == string_views(names@),
            forall|m: int| 0 <= m < pos ==> name_le(#[trigger] s[m], name@),
        decreases names.len() - pos,
    {
        pos = pos + 1;
    }
    proof {
        assert forall|m: int| pos <= m < s.len() implies name_le(name@, #[trigger] s[m]) by {
            lemma_name_le_total(s[pos as int], name@);
            if m > pos {
                lemma_name_le_trans(name@, s[pos as int], s[m]);
            }
        }
    }
    names.insert(pos, name.clone());
    proof {
        let t = string_views(names@);
        assert(t =~= s.insert(pos as int, name@));
        assert forall|a: int, b: int| 0 <= a < b < t.len() implies name_le(#[trigger] t[a], #[trigger] t[b]) && t[a] != t[b] by {
            if a < pos && b > pos {
                lemma_name_le_trans(t[a], name@, t[b]);
                if t[a] == t[b] {
                    lemma_name_le_antisym(t[a], name@);
                }
            }
        }
        assert forall|x: Seq<char>| t.contains(x) <==> s.contains(x) || x == name@ by {
            if t.contains(x) {
                let m = choose|m: int| 0 <= m < t.len() && t[m] == x;
                if m < pos {
                    assert(s[m] == x);
                } else if m > pos {
                    assert(s[m - 1] == x);
                }
            }
            if s.contains(x) {
                let m = choose|m: int| 0 <= m < s.len() && s[m] == x;
                if m < pos {
                    assert(t[m] == x);
                } else {
                    assert(t[m + 1] == x);
                }
            }
            if x == name@ {
                assert(t[pos as int] == x);
            }
        }
        assert(t.to_set() =~= s.to_set().insert(name@));
    }
}

proof fn lemma_pids_named_present(s: Seq<ProcessView>, k: int)
    requires
        0 <= k < s.len(),
    ensures
        pids_named(s, s[k].name).len() > 0,
    decreases s.len(),
{
    if k < s.len() - 1 {
        lemma_pids_named_present(s.drop_last(), k);
    }
}

/// Every grouped row holds at least one pid.
pub proof fn lemma_grouped_rows_have_pids(s: Seq<ProcessView>, g: Seq<ProcessView>)
    requires
        is_grouping(s, g),
    ensures
        forall|j: int| 0 <= j < g.len() ==> ((#[trigger] g[j]).pids matches Some(ps) && ps.len() > 0),
{
    assert forall|j: int| 0 <= j < g.len() implies ((#[trigger] g[j]).pids matches Some(ps) && ps.len() > 0) by {
        assert(names_of(g)[j] == g[j].name);
        assert(names_of(g).to_set().contains(g[j].name));
        assert(names_of(s).to_set().contains(g[j].name));
        let k = choose|k: int| 0 <= k < names_of(s).len() && names_of(s)[k] == g[j].name;
        lemma_pids_named_present(s, k);
    }
}

/// The distinct names of `list`, in name order.
fn distinct_names(list: &Vec<ProcessHarvest>) -> (names: Vec<String>)
    ensures
        names_strict(string_views(names@)),
        string_views(names@).to_set() == names_of(procs_view(list@)).to_set(),
{
    let mut names: Vec<String> = Vec::new();
    let mut i: usize = 0;
    assert(string_views(names@) =~= names_of(procs_view(list@)).subrange(0, 0));
    while i < list.len()
        invariant
            i <= list@.len(),
            names_strict(string_views(names@)),
            string_views(names@).to_set() == names_of(procs_view(list@)).subrange(0, i as int).to_set(),
        decreases list.len() - i,
    {
        insert_name(&mut names, &list[i].name);
        proof {
            let ns = names_of(procs_view(list@));
            assert(ns.subrange(0, i + 1) =~= ns.subrange(0, i as int).push(list@[i as int].name@));
            ns.subrange(0, i as int).lemma_push_to_set_commute(list@[i as int].name@);
        }
        i = i + 1;
    }
    assert(names_of(procs_view(list@)).subrange(0, list@.len() as int) =~= names_of(procs_view(list@)));
    names
}

/// The grouped row of the processes of `list` named `name`.
fn group_row(list: &Vec<ProcessHarvest>, name: &String) -> (r: ProcessHarvest)
    requires
        fits_totals(procs_view(list@)),
    ensures
        r@ == grouped_row(procs_view(list@), name@),
{
    let ghost pv = procs_view(list@);
    let mut cpu: u64 = 0;
    let mut mem: u64 = 0;
    let mut pids: Vec<u32> = Vec::new();
    let mut i: usize = 0;
    assert(pv.subrange(0, 0) =~= Seq::<ProcessView>::empty());
    proof {
        lemma_named_bounded(pv, name@);
    }
    while i < list.len()
        invariant
            i <= list@.len(),
            pv == procs_view(list@),
            fits_totals(pv),
            0 <= cpu_named(pv, name@) <= cpu_total(pv),
            0 <= mem_named(pv, name@) <= mem_total(pv),
            cpu as int == cpu_named(pv.subrange(0, i as int), name@),
            mem as int == mem_named(pv.subrange(0, i as int), name@),
            pids@ == pids_named(pv.subrange(0, i as int), name@),
        decreases list.len() - i,
    {
        proof {
            assert(pv.subrange(0, i + 1).drop_last() =~= pv.subrange(0, i as int));
            lemma_named_prefix(pv, name@, i + 1);
        }
        if same_name(&list[i].name, name) {
            cpu = cpu + list[i].cpu_usage_percent;
            mem = mem + list[i].mem_usage_percent;
            pids.push(list[i].pid);
        }
        i = i + 1;
    }
    assert(pv.subrange(0, list@.len() as int) =~= pv);
    ProcessHarvest {
        pid: 0,
        name: name.clone(),
        cpu_usage_percent: cpu,
        mem_usage_percent: mem,
        pid_vec: Some(pids),
    }
}

/// Merges the processes of `list` that share a name into one row each: the
/// usage summed, the pids collected in the order of `list`, the pid set to 0.
/// The rows come in name order.
pub fn group_processes(list: &Vec<ProcessHarvest>) -> (r: Vec<ProcessHarvest>)
    requires
        fits_totals(procs_view(list@)),
    ensures
        is_grouping(procs_view(list@), procs_view(r@)),
{
    let names = distinct_names(list);
    let mut out: Vec<ProcessHarvest> = Vec::new();
    let mut j: usize = 0;
    while j < names.len()
        invariant
            j <= names@.len(),
            fits_totals(procs_view(list@)),
            names_of(procs_view(out@)) == string_views(names@).subrange(0, j as int),
            forall|m: int| 0 <= m < out@.len() ==> #[trigger] procs_view(out@)[m] == grouped_row(procs_view(list@), procs_view(out@)[m].name),
        decreases names.len() - j,
    {
        let row = group_row(list, &names[j]);
        let ghost old_out = out@;
        out.push(row);
        proof {
            assert(procs_view(out@) =~= procs_view(old_out).push(row@));
            assert(names_of(procs_view(out@)) =~= names_of(procs_view(old_out)).push(row@.name));
            assert(row@.name == string_views(names@)[j as int]);
            assert(names_of(procs_view(out@)) =~= string_views(names@).subrange(0, j + 1));
        }
        j = j + 1;
    }
    assert(string_views(names@).subrange(0, names@.len() as int) =~= string_views(names@));
    out
}

/// The value that `key` sorts by (names are compared apart).
pub open spec fn key_of(p: ProcessView, key: ProcessSorting) -> int {
    match key {
        ProcessSorting::CPU => p.cpu,
        ProcessSorting::MEM => p.mem,
        ProcessSorting::PID => p.pid,
        ProcessSorting::NAME => 0,
    }
}

/// Whether row `a` may stand before row `b` when sorting by `key`: by the
/// key, descending when `reverse`, and by name among equal keys.
pub open spec fn proc_le(a: ProcessView, b: ProcessView, key: ProcessSorting, reverse: bool) -> bool {
    if key == ProcessSorting::NAME {
        if reverse { name_le(b.name, a.name) } else { name_le(a.name, b.name) }
    } else if key_of(a, key) == key_of(b, key) {
        name_le(a.name, b.name)
    } else if reverse {
        key_of(a, key) > key_of(b, key)
    } else {
        key_of(a, key) < key_of(b, key)
    }
}

pub open spec fn procs_sorted(s: Seq<ProcessView>, key: ProcessSorting, reverse: bool) -> bool {
    forall|i: int, j: int| 0 <= i < j < s.len() ==> proc_le(#[trigger] s[i], #[trigger] s[j], key, reverse)
}

fn key_value(p: &ProcessHarvest, key: ProcessSorting) -> (r: u64)
    ensures
        r as int == key_of(p@, key),
{
    match key {
        ProcessSorting::CPU => p.cpu_usage_percent,
        ProcessSorting::MEM => p.mem_usage_percent,
        ProcessSorting::PID => p.pid as u64,
        ProcessSorting::NAME => 0,
    }
}

/// Whether row `a` may stand before row `b` when sorting by `key` alone:
/// ascending, or descending when `reverse`.
pub open spec fn key_le(a: ProcessView, b: ProcessView, key: ProcessSorting, reverse: bool) -> bool {
    if key == ProcessSorting::NAME {
        if reverse { name_le(b.name, a.name) } else { name_le(a.name, b.name) }
    } else if reverse {
        key_of(a, key) >= key_of(b, key)
    } else {
        key_of(a, key) <= key_of(b, key)
    }
}

/// Whether two rows tie on `key`.
pub open spec fn same_key(a: ProcessView, b: ProcessView, key: ProcessSorting) -> bool {
    if key == ProcessSorting::NAME { a.name == b.name } else { key_of(a, key) == key_of(b, key) }
}

pub open spec fn key_sorted(s: Seq<ProcessView>, key: ProcessSorting, reverse: bool) -> bool {
    forall|i: int, j: int| 0 <= i < j < s.len() ==> key_le(#[trigger] s[i], #[trigger] s[j], key, reverse)
}

/// `t` is `s` reordered by the permutation `p` (row `k` of `t` is row `p[k]`
/// of `s`), and rows that tie on `key` keep their relative order.
pub open spec fn stable_reorder(s: Seq<ProcessView>, t: Seq<ProcessView>, p: Seq<int>, key: ProcessSorting) -> bool {
    &&& p.len() == s.len()
    &&& t.len() == s.len()
    &&& forall|k: int| 0 <= k < t.len() ==> 0 <= #[trigger] p[k] < s.len() && t[k] == s[p[k]]
    &&& forall|a: int, b: int| 0 <= a < b < t.len() ==> #[trigger] p[a] != #[trigger] p[b]
    &&& forall|a: int, b: int| 0 <= a < b < t.len() && same_key(#[trigger] t[a], #[trigger] t[b], key) ==> p[a] < p[b]
}

/// `t` is a stable sort of `s` by `key`.
pub open spec fn stably_sorted(s: Seq<ProcessView>, t: Seq<ProcessView>, key: ProcessSorting, reverse: bool) -> bool {
    &&& key_sorted(t, key, reverse)
    &&& exists|p: Seq<int>| stable_reorder(s, t, p, key)
}

proof fn lemma_key_le_total(a: ProcessView, b: ProcessView, key: ProcessSorting, reverse: bool)
    ensures
        key_le(a, b, key, reverse) || key_le(b, a, key, reverse),
{
    lemma_name_le_total(a.name, b.name);
}

proof fn lemma_key_le_trans(a: ProcessView, b: ProcessView, c: ProcessView, key: ProcessSorting, reverse: bool)
    requires
        key_le(a, b, key, reverse),
        key_le(b, c, key, reverse),
    ensures
        key_le(a, c, key, reverse),
{
    if key == ProcessSorting::NAME {
        if reverse {
            lemma_name_le_trans(c.name, b.name, a.name);
        } else {
            lemma_name_le_trans(a.name, b.name, c.name);
        }
    }
}

proof fn lemma_same_key_le(a: ProcessView, b: ProcessView, key: ProcessSorting, reverse: bool)
    requires
        same_key(a, b, key),
    ensures
        key_le(a, b, key, reverse),
        key_le(b, a, key, reverse),
{
    lemma_name_le_refl(a.name);
}

/// A stable sort of rows whose names are strictly ascending puts rows that
/// tie on the key in name order.
pub proof fn lemma_stable_sort_of_name_order(s: Seq<ProcessView>, t: Seq<ProcessView>, key: ProcessSorting, reverse: bool)
    requires
        names_strict(names_of(s)),
        stably_sorted(s, t, key, reverse),
    ensures
        procs_sorted(t, key, reverse),
{
    let p = choose|p: Seq<int>| stable_reorder(s, t, p, key);
    assert forall|i: int, j: int| 0 <= i < j < t.len() implies proc_le(#[trigger] t[i], #[trigger] t[j], key, reverse) by {
        assert(key_le(t[i], t[j], key, reverse));
        if key != ProcessSorting::NAME && key_of(t[i], key) == key_of(t[j], key) {
            assert(same_key(t[i], t[j], key));
            assert(p[i] < p[j]);
            assert(0 <= p[i] && p[j] < s.len());
            assert(names_of(s)[p[i]] == t[i].name && names_of(s)[p[j]] == t[j].name);
        }
    }
}

fn key_at_most(a: &ProcessHarvest, b: &ProcessHarvest, key: ProcessSorting, reverse: bool) -> (r: bool)
    ensures
        r == key_le(a@, b@, key, reverse),
{
    if key == ProcessSorting::NAME {
        if reverse { name_at_most(&b.name, &a.name) } else { name_at_most(&a.name, &b.name) }
    } else {
        let ka = key_value(a, key);
        let kb = key_value(b, key);
        if reverse { ka >= kb } else { ka <= kb }
    }
}

/// Sorts the rows by `sorting_method`, descending when `reverse_order`. The
/// sort is stable: rows that tie on the key keep the order they had.
pub fn sort_processes(process_vector: &mut Vec<ProcessHarvest>, sorting_method: &ProcessSorting, reverse_order: bool)
    ensures
        procs_view(final(process_vector)@).to_multiset() == procs_view(old(process_vector)@).to_multiset(),
        stably_sorted(procs_view(old(process_vector)@), procs_view(final(process_vector)@), *sorting_method, reverse_order),
{
    let key = *sorting_method;
    let ghost ov = procs_view(process_vector@);
    let ghost n = ov.len();
    let mut rest: Vec<ProcessHarvest> = Vec::new();
    std::mem::swap(process_vector, &mut rest);
    let ghost p: Seq<int> = Seq::empty();
    let mut i: usize = 0;
    assert(procs_view(rest@) =~= ov.subrange(0, n as int));
    assert(n == rest.len());
    assert(procs_view(process_vector@) =~= ov.subrange(0, 0));
    while rest.len() > 0
        invariant
            0 <= i <= n,
            n == ov.len(),
            n <= usize::MAX,
            procs_view(rest@) == ov.subrange(i as int, n as int),
            procs_view(process_vector@).to_multiset() == ov.subrange(0, i as int).to_multiset(),
            key_sorted(procs_view(process_vector@), key, reverse_order),
            p.len() == i,
            procs_view(process_vector@).len() == i,
            forall|k: int| 0 <= k < i ==> 0 <= #[trigger] p[k] < i && procs_view(process_vector@)[k] == ov[p[k]],
            forall|a: int, b: int| 0 <= a < b < i ==> #[trigger] p[a] != #[trigger] p[b],
            forall|a: int, b: int| 0 <= a < b < i && same_key(#[trigger] procs_view(process_vector@)[a], #[trigger] procs_view(process_vector@)[b], key) ==> p[a] < p[b],
        decreases rest.len(),
    {
        let ghost before = rest@;
        let x = rest.remove(0);
        proof {
            assert(procs_view(before).len() == n - i);
            assert(x@ == procs_view(before)[0]);
            assert(x@ == ov[i as int]);
            assert(rest@ == before.remove(0));
            assert forall|k: int| 0 <= k < rest@.len() implies #[trigger] procs_view(rest@)[k] == ov.subrange(i + 1, n as int)[k] by {
                assert(rest@[k] == before[k + 1]);
                assert(procs_view(before)[k + 1] == ov.subrange(i as int, n as int)[k + 1]);
            }
            assert(procs_view(rest@) =~= ov.subrange(i + 1, n as int));
        }
        let mut pos: usize = 0;
        while pos < process_vector.len() && key_at_most(&process_vector[pos], &x, key, reverse_order)
            invariant
                pos <= process_vector@.len(),
                forall|k: int| 0 <= k < pos ==> key_le(#[trigger] procs_view(process_vector@)[k], x@, key, reverse_order),
            decreases process_vector.len() - pos,
        {
            pos = pos + 1;
        }
        let ghost t = procs_view(process_vector@);
        proof {
            assert forall|k: int| pos <= k < t.len() implies !key_le(#[trigger] t[k], x@, key, reverse_order) by {
                if k > pos {
                    lemma_key_le_total(t[pos as int], x@, key, reverse_order);
                    if key_le(t[k], x@, key, reverse_order) {
                        lemma_key_le_trans(t[pos as int], t[k], x@, key, reverse_order);
                    }
                }
            }
            assert(ov.subrange(0, i + 1) =~= ov.subrange(0, i as int).push(x@));
            vstd::seq_lib::to_multiset_build(ov.subrange(0, i as int), x@);
            vstd::seq_lib::to_multiset_insert(t, pos as int, x@);
        }
        process_vector.insert(pos, x);
        proof {
            let t2 = procs_view(process_vector@);
            let p2 = p.insert(pos as int, i as int);
            assert(t2 =~= t.insert(pos as int, x@));
            assert forall|a: int, b: int| 0 <= a < b < t2.len() implies key_le(#[trigger] t2[a], #[trigger] t2[b], key, reverse_order) by {
                if a == pos {
                    lemma_key_le_total(t2[b], x@, key, reverse_order);
                } else if a < pos && b > pos {
                    lemma_key_le_total(t[b - 1], x@, key, reverse_order);
                    lemma_key_le_trans(t2[a], x@, t2[b], key, reverse_order);
                }
            }
            assert forall|k: int| 0 <= k < i + 1 implies 0 <= #[trigger] p2[k] < i + 1 && t2[k] == ov[p2[k]] by {
                if k < pos {
                    assert(p2[k] == p[k]);
                } else if k > pos {
                    assert(p2[k] == p[k - 1]);
                }
            }
            assert forall|a: int, b: int| 0 <= a < b < i + 1 implies #[trigger] p2[a] != #[trigger] p2[b] by {
                if a != pos && b != pos {
                    let a0 = if a < pos { a } else { a - 1 };
                    let b0 = if b < pos { b } else { b - 1 };
                    assert(p2[a] == p[a0] && p2[b] == p[b0]);
                    assert(p[a0] != p[b0]);
                } else if a == pos {
                    assert(p2[b] == p[b - 1]);
                } else {
                    let a0 = if a < pos { a } else { a - 1 };
                    assert(p2[a] == p[a0]);
                }
            }
            assert forall|a: int, b: int| 0 <= a < b < i + 1 && same_key(#[trigger] t2[a], #[trigger] t2[b], key) implies p2[a] < p2[b] by {
                if a != pos && b != pos {
                    let a0 = if a < pos { a } else { a - 1 };
                    let b0 = if b < pos { b } else { b - 1 };
                    assert(p2[a] == p[a0] && p2[b] == p[b0]);
                    assert(t2[a] == t[a0] && t2[b] == t[b0]);
                } else if a == pos {
                    assert(t2[b] == t[b - 1]);
                    lemma_same_key_le(x@, t2[b], key, reverse_order);
                } else {
                    let a0 = if a < pos { a } else { a - 1 };
                    assert(p2[a] == p[a0]);
                }
            }
            p = p2;
        }
        i = i + 1;
    }
    proof {
        assert(ov.subrange(0, n as int) =~= ov);
        assert(stable_reorder(ov, procs_view(process_vector@), p, key));
    }
}

} // verus!

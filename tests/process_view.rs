use bottom::process::{group_processes, sort_processes, ProcessHarvest, ProcessSorting};
use bottom::pattern::pattern_search_flags;
use bottom::search::simple_search_flags;
use bottom::view::{
    apply_pattern_verdicts, choose_sort, effective_sort, fix_grouped_sort, handle_process_sorting, select_rows,
    ProcessSettings,
};

fn row(pid: u32, name: &str, cpu: u64, mem: u64) -> ProcessHarvest {
    ProcessHarvest {
        pid,
        name: name.to_string(),
        cpu_usage_percent: cpu,
        mem_usage_percent: mem,
        pid_vec: None,
    }
}

fn pids(rows: &[ProcessHarvest]) -> Vec<u32> {
    rows.iter().map(|r| r.pid).collect()
}

fn names(rows: &[ProcessHarvest]) -> Vec<String> {
    rows.iter().map(|r| r.name.clone()).collect()
}

fn settings(sorting: ProcessSorting, reverse: bool, grouped: bool, use_simple: bool, query: &str, by_pid: bool) -> ProcessSettings {
    ProcessSettings { sorting, reverse, grouped, use_simple, query: query.to_string(), search_by_pid: by_pid }
}

#[test]
fn grouping_merges_rows_of_one_name() {
    let list = vec![row(1, "x", 10, 5), row(2, "x", 5, 5), row(3, "y", 1, 1)];
    let g = group_processes(&list);
    assert_eq!(g.len(), 2);
    assert_eq!(g[0].name, "x");
    assert_eq!(g[0].cpu_usage_percent, 15);
    assert_eq!(g[0].mem_usage_percent, 10);
    assert_eq!(g[0].pid, 0);
    assert_eq!(g[0].pid_vec, Some(vec![1, 2]));
    assert_eq!(g[1].name, "y");
    assert_eq!(g[1].cpu_usage_percent, 1);
    assert_eq!(g[1].mem_usage_percent, 1);
    assert_eq!(g[1].pid_vec, Some(vec![3]));
}

#[test]
fn grouping_orders_by_name() {
    let list = vec![row(7, "zsh", 1, 1), row(8, "bash", 2, 2), row(9, "init", 3, 3), row(10, "bash", 4, 4)];
    let g = group_processes(&list);
    assert_eq!(names(&g), vec!["bash", "init", "zsh"]);
    assert_eq!(g[0].pid_vec, Some(vec![8, 10]));
    assert_eq!(g[0].cpu_usage_percent, 6);
}

#[test]
fn grouping_nothing_gives_nothing() {
    assert!(group_processes(&Vec::new()).is_empty());
}

#[test]
fn sort_by_cpu_both_directions() {
    let mut v = vec![row(1, "a", 30, 0), row(2, "b", 10, 0), row(3, "c", 20, 0)];
    sort_processes(&mut v, &ProcessSorting::CPU, false);
    assert_eq!(pids(&v), vec![2, 3, 1]);
    sort_processes(&mut v, &ProcessSorting::CPU, true);
    assert_eq!(pids(&v), vec![1, 3, 2]);
}

#[test]
fn sort_keeps_input_order_on_ties() {
    let mut v = vec![row(1, "zeta", 5, 0), row(2, "alpha", 5, 0), row(3, "mid", 9, 0)];
    sort_processes(&mut v, &ProcessSorting::CPU, true);
    assert_eq!(pids(&v), vec![3, 1, 2]);
    let mut v = vec![row(1, "b", 7, 0), row(2, "a", 7, 0)];
    sort_processes(&mut v, &ProcessSorting::CPU, false);
    assert_eq!(pids(&v), vec![1, 2]);
}

#[test]
fn sort_by_name_keeps_input_order_on_equal_names() {
    let mut v = vec![row(9, "x", 1, 0), row(4, "a", 2, 0), row(6, "x", 3, 0), row(2, "x", 0, 0)];
    sort_processes(&mut v, &ProcessSorting::NAME, false);
    assert_eq!(pids(&v), vec![4, 9, 6, 2]);
    sort_processes(&mut v, &ProcessSorting::NAME, true);
    assert_eq!(pids(&v), vec![9, 6, 2, 4]);
}

#[test]
fn grouped_rows_that_tie_stay_in_name_order() {
    let mut list = vec![row(1, "zsh", 5, 0), row(2, "bash", 5, 0), row(3, "init", 9, 0)];
    let t = handle_process_sorting(&mut list, &settings(ProcessSorting::CPU, true, true, true, "", false));
    assert_eq!(names(&t.grouped_process_data.unwrap()), vec!["init", "bash", "zsh"]);
    assert_eq!(pids(&t.process_data), vec![3, 1, 2]);
}

#[test]
fn sort_by_mem_pid_and_name() {
    let mut v = vec![row(30, "b", 0, 2), row(10, "c", 0, 3), row(20, "a", 0, 1)];
    sort_processes(&mut v, &ProcessSorting::MEM, false);
    assert_eq!(pids(&v), vec![20, 30, 10]);
    sort_processes(&mut v, &ProcessSorting::PID, false);
    assert_eq!(pids(&v), vec![10, 20, 30]);
    sort_processes(&mut v, &ProcessSorting::NAME, false);
    assert_eq!(names(&v), vec!["a", "b", "c"]);
    sort_processes(&mut v, &ProcessSorting::NAME, true);
    assert_eq!(names(&v), vec!["c", "b", "a"]);
}

#[test]
fn grouped_pid_sort_becomes_cpu_descending() {
    let mut list = vec![row(1, "a", 1, 0), row(2, "b", 50, 0), row(3, "c", 20, 0), row(4, "a", 2, 0)];
    let t = handle_process_sorting(&mut list, &settings(ProcessSorting::PID, false, true, true, "", false));
    let g = t.grouped_process_data.unwrap();
    assert_eq!(names(&g), vec!["b", "c", "a"]);
    assert_eq!(g[2].cpu_usage_percent, 3);
    assert_eq!(pids(&t.process_data), vec![1, 2, 3, 4]);
}

#[test]
fn effective_sort_only_changes_grouped_pid() {
    assert_eq!(effective_sort(ProcessSorting::PID, false, true), (ProcessSorting::CPU, true));
    assert_eq!(effective_sort(ProcessSorting::PID, false, false), (ProcessSorting::PID, false));
    assert_eq!(effective_sort(ProcessSorting::MEM, false, true), (ProcessSorting::MEM, false));
}

#[test]
fn fix_grouped_sort_resets_settings() {
    let mut s = settings(ProcessSorting::PID, false, true, false, "q", true);
    fix_grouped_sort(&mut s);
    assert_eq!(s.sorting, ProcessSorting::CPU);
    assert!(s.reverse);
    assert!(s.grouped);
    assert_eq!(s.query, "q");
}

#[test]
fn no_grouped_table_when_grouping_is_off() {
    let mut list = vec![row(1, "a", 1, 0)];
    let t = handle_process_sorting(&mut list, &settings(ProcessSorting::CPU, true, false, true, "", false));
    assert!(t.grouped_process_data.is_none());
    assert_eq!(t.process_data.len(), 1);
}

#[test]
fn simple_search_ignores_case() {
    let rows = vec![row(1, "Firefox", 0, 0), row(2, "bash", 0, 0)];
    assert_eq!(simple_search_flags(&rows, &"fire".to_string(), false), vec![true, false]);
    assert_eq!(simple_search_flags(&rows, &"FIRE".to_string(), false), vec![true, false]);
}

#[test]
fn empty_query_matches_every_row() {
    let rows = vec![row(1, "Firefox", 0, 0), row(2, "bash", 0, 0)];
    assert_eq!(simple_search_flags(&rows, &String::new(), false), vec![true, true]);
    assert_eq!(simple_search_flags(&rows, &String::new(), true), vec![true, true]);
}

#[test]
fn pid_search_matches_decimal_text() {
    let rows = vec![row(123, "a", 0, 0), row(45, "b", 0, 0), row(0, "c", 0, 0)];
    assert_eq!(simple_search_flags(&rows, &"23".to_string(), true), vec![true, false, false]);
    assert_eq!(simple_search_flags(&rows, &"0".to_string(), true), vec![false, false, true]);
    assert_eq!(simple_search_flags(&rows, &"a".to_string(), true), vec![false, false, false]);
}

#[test]
fn pid_search_looks_at_every_grouped_pid() {
    let list = vec![row(11, "x", 0, 0), row(907, "x", 0, 0), row(5, "y", 0, 0)];
    let g = group_processes(&list);
    assert_eq!(simple_search_flags(&g, &"90".to_string(), true), vec![true, false]);
}

#[test]
fn simple_search_filters_both_tables() {
    let mut list = vec![row(1, "Firefox", 10, 0), row(2, "bash", 20, 0), row(3, "firefox", 5, 0)];
    let t = handle_process_sorting(&mut list, &settings(ProcessSorting::CPU, true, true, true, "FIRE", false));
    assert_eq!(pids(&t.process_data), vec![1, 3]);
    assert_eq!(names(&t.grouped_process_data.unwrap()), vec!["Firefox", "firefox"]);
}

#[test]
fn invalid_pattern_filters_nothing() {
    let rows = vec![row(1, "a", 0, 0), row(2, "b", 0, 0)];
    let out = apply_pattern_verdicts(&rows, &None);
    assert_eq!(pids(&out), vec![1, 2]);
}

#[test]
fn pattern_verdicts_select_rows() {
    let rows = vec![row(1, "a", 0, 0), row(2, "b", 0, 0), row(3, "c", 0, 0)];
    let out = apply_pattern_verdicts(&rows, &Some(vec![true, false, true]));
    assert_eq!(pids(&out), vec![1, 3]);
    assert_eq!(pids(&select_rows(&rows, &vec![false, false, false])), Vec::<u32>::new());
}

#[test]
fn pattern_mode_leaves_tables_whole() {
    let mut list = vec![row(2, "b", 1, 0), row(1, "a", 2, 0)];
    let t = handle_process_sorting(&mut list, &settings(ProcessSorting::PID, false, false, false, "(", false));
    assert_eq!(pids(&t.process_data), vec![1, 2]);
    assert_eq!(pids(&list), vec![1, 2]);
}

#[test]
fn pattern_search_matches_regular_expressions() {
    let rows = vec![row(1, "firefox", 0, 0), row(2, "bash", 0, 0), row(3, "fish", 0, 0)];
    assert_eq!(pattern_search_flags(&rows, &"^fi".to_string(), false), Some(vec![true, false, true]));
    assert_eq!(pattern_search_flags(&rows, &"sh$".to_string(), false), Some(vec![false, true, true]));
}

#[test]
fn pattern_search_is_case_sensitive() {
    let rows = vec![row(1, "Firefox", 0, 0)];
    assert_eq!(pattern_search_flags(&rows, &"fire".to_string(), false), Some(vec![false]));
}

#[test]
fn invalid_or_empty_pattern_gives_no_verdicts() {
    let rows = vec![row(1, "a", 0, 0)];
    assert_eq!(pattern_search_flags(&rows, &"(".to_string(), false), None);
    assert_eq!(pattern_search_flags(&rows, &"[a-".to_string(), false), None);
    assert_eq!(pattern_search_flags(&rows, &String::new(), false), None);
}

#[test]
fn pattern_search_by_pid() {
    let rows = vec![row(123, "a", 0, 0), row(45, "b", 0, 0)];
    assert_eq!(pattern_search_flags(&rows, &"^1".to_string(), true), Some(vec![true, false]));
    let g = group_processes(&vec![row(7, "x", 0, 0), row(88, "x", 0, 0), row(9, "y", 0, 0)]);
    assert_eq!(pattern_search_flags(&g, &"8+".to_string(), true), Some(vec![true, false]));
}

#[test]
fn pattern_mode_filters_both_tables() {
    let mut list = vec![row(1, "firefox", 10, 0), row(2, "bash", 20, 0), row(3, "fish", 5, 0), row(4, "fish", 1, 0)];
    let t = handle_process_sorting(&mut list, &settings(ProcessSorting::CPU, true, true, false, "^fi", false));
    assert_eq!(pids(&t.process_data), vec![1, 3, 4]);
    let g = t.grouped_process_data.unwrap();
    assert_eq!(names(&g), vec!["firefox", "fish"]);
    assert_eq!(g[1].cpu_usage_percent, 6);
}

#[test]
fn choosing_the_same_key_flips_direction() {
    let mut s = settings(ProcessSorting::CPU, true, false, true, "", false);
    choose_sort(&mut s, ProcessSorting::CPU);
    assert_eq!((s.sorting, s.reverse), (ProcessSorting::CPU, false));
    choose_sort(&mut s, ProcessSorting::PID);
    assert_eq!((s.sorting, s.reverse), (ProcessSorting::PID, false));
    choose_sort(&mut s, ProcessSorting::PID);
    assert_eq!((s.sorting, s.reverse), (ProcessSorting::PID, true));
    choose_sort(&mut s, ProcessSorting::MEM);
    assert_eq!((s.sorting, s.reverse), (ProcessSorting::MEM, true));
    choose_sort(&mut s, ProcessSorting::NAME);
    assert_eq!((s.sorting, s.reverse), (ProcessSorting::NAME, false));
}

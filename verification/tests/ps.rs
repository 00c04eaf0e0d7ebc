use shmy::ps::{process_tree, run_time_string, tree_roots, truncate_and_pad, ProcInfo};

fn proc(pid: u32, parent: Option<u32>, name: &str) -> ProcInfo {
    ProcInfo { pid, parent, name: name.to_string(), cmd: format!("/bin/{} -x", name) }
}

#[test]
fn ps_tree_orders_children_by_name() {
    let procs = vec![
        proc(1, None, "init"),
        proc(2, Some(1), "b"),
        proc(3, Some(1), "a"),
        proc(4, Some(3), "x"),
        proc(5, Some(99), "orphan"),
    ];
    assert_eq!(tree_roots(&procs), vec![1, 5]);
    assert_eq!(
        process_tree(&procs, false),
        vec![
            "├───┬ 1 (root) init ",
            "│   ├───┬ 3 (1) a ",
            "│   │   └──── 4 (3) x ",
            "│   └──── 2 (1) b ",
            "├──── 5 (99) orphan ",
        ]
    );
}

#[test]
fn ps_tree_long_shows_commands() {
    let procs = vec![proc(7, None, "sh"), proc(8, Some(7), "ls")];
    assert_eq!(process_tree(&procs, true), vec!["├───┬ 7 (root) sh /bin/sh -x", "│   └──── 8 (7) ls /bin/ls -x"]);
}

#[test]
fn ps_tree_cycle_makes_roots() {
    let procs = vec![proc(10, Some(11), "p10"), proc(11, Some(10), "p11")];
    assert_eq!(tree_roots(&procs), vec![10, 11]);
    assert_eq!(process_tree(&procs, false), vec!["├──── 10 (11) p10 ", "├──── 11 (10) p11 "]);
}

#[test]
fn ps_tree_revisited_walk_adds_a_root() {
    // the walk from 3 meets 3 again, seen on the walk from 4: its parent 2 becomes a root
    let procs = vec![proc(4, Some(3), "d"), proc(3, Some(2), "c"), proc(2, Some(1), "b"), proc(1, None, "a")];
    assert_eq!(tree_roots(&procs), vec![1, 2]);
    assert_eq!(
        process_tree(&procs, false),
        vec!["├──── 1 (root) a ", "├───┬ 2 (1) b ", "│   └───┬ 3 (2) c ", "│       └──── 4 (3) d "]
    );
}

#[test]
fn ps_tree_siblings_same_name_by_depth_then_pid() {
    let procs = vec![
        proc(1, None, "root"),
        proc(9, Some(1), "w"),
        proc(3, Some(1), "w"),
        proc(5, Some(1), "w"),
        proc(6, Some(5), "z"),
    ];
    assert_eq!(
        process_tree(&procs, false),
        vec![
            "├───┬ 1 (root) root ",
            "│   ├──── 3 (1) w ",
            "│   ├──── 9 (1) w ",
            "│   └───┬ 5 (1) w ",
            "│       └──── 6 (5) z ",
        ]
    );
}

#[test]
fn ps_run_time_text() {
    assert_eq!(run_time_string(59), "00:00:59");
    assert_eq!(run_time_string(3661), "01:01:01");
    assert_eq!(run_time_string(90061), "1-01:01:01");
    assert_eq!(run_time_string(0), "00:00:00");
}

#[test]
fn ps_truncate_and_pad() {
    assert_eq!(truncate_and_pad("hello", 3), "hel");
    assert_eq!(truncate_and_pad("hi", 5), "   hi");
    assert_eq!(truncate_and_pad("h\u{e9}llo", 3), " h\u{e9}");
    assert_eq!(truncate_and_pad("", 0), "");
}

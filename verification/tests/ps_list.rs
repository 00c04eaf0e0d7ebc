use shmy::ps_list::{header_line, keep_row, parse_sort_spec, row_line, sort_order, ListColumn, ProcRow, SortKey};

fn row(pid: u32, name: &str, uid: Option<u32>, cpu: u32, run_time: u64) -> ProcRow {
    ProcRow {
        uid,
        user: "me".to_string(),
        pid,
        ppid: None,
        name: name.to_string(),
        cpu_order: cpu,
        cpu_text: format!("{:10.2}", cpu as f32),
        mem_order: 0,
        mem_text: format!("{:10.2}", 0.0f32),
        run_time,
        cmd: String::new(),
    }
}

fn args(items: &[&str]) -> Vec<String> {
    items.iter().map(|s| s.to_string()).collect()
}

#[test]
fn sort_spec_parsed() {
    let keys = parse_sort_spec("name, -cpu,+pid", false, &args(&["-s", "name, -cpu,+pid"])).ok().unwrap();
    assert_eq!(
        keys,
        vec![
            SortKey { column: ListColumn::Name, reverse: false },
            SortKey { column: ListColumn::Cpu, reverse: true },
            SortKey { column: ListColumn::Pid, reverse: false },
        ]
    );
}

#[test]
fn sort_spec_errors() {
    let a = args(&["-s", "name,bogus"]);
    let e = parse_sort_spec("name,bogus", false, &a).unwrap_err();
    assert_eq!(e.message, "name,bogus: Invalid sort key: bogus");
    assert_eq!(e.arg, 2);
    let e = parse_sort_spec("mem,-mem", false, &args(&["-al"])).unwrap_err();
    assert_eq!(e.message, "mem,-mem: Duplicate sort key: mem");
    assert_eq!(e.arg, 1);
    // the command line is a column only in the long format
    assert!(parse_sort_spec("cmd", false, &a).is_err());
    assert!(parse_sort_spec("cmd", true, &a).is_ok());
}

#[test]
fn rows_sorted_by_keys_stably() {
    let rows = vec![row(3, "b", None, 5, 0), row(1, "a", None, 5, 0), row(2, "b", None, 9, 0), row(4, "a", None, 1, 0)];
    let by_name = vec![SortKey { column: ListColumn::Name, reverse: false }];
    assert_eq!(sort_order(&rows, &by_name), vec![1, 3, 0, 2]);
    let by_cpu_down_then_pid = vec![
        SortKey { column: ListColumn::Cpu, reverse: true },
        SortKey { column: ListColumn::Pid, reverse: false },
    ];
    assert_eq!(sort_order(&rows, &by_cpu_down_then_pid), vec![2, 1, 0, 3]);
    assert_eq!(sort_order(&rows, &vec![]), vec![0, 1, 2, 3]);
}

#[test]
fn run_time_sorts_by_its_text() {
    // as text right-aligned in 12 places, 23:59:59 has more leading spaces than 1-00:00:00
    let rows = vec![row(1, "a", None, 0, 86399), row(2, "b", None, 0, 86400)];
    let by_time = vec![SortKey { column: ListColumn::Time, reverse: false }];
    assert_eq!(sort_order(&rows, &by_time), vec![0, 1]);
}

#[test]
fn only_own_processes() {
    assert!(keep_row(&row(1, "a", Some(7), 0, 0), Some(7)));
    assert!(!keep_row(&row(1, "a", Some(8), 0, 0), Some(7)));
    assert!(!keep_row(&row(1, "a", None, 0, 0), Some(7)));
    assert!(keep_row(&row(1, "a", None, 0, 0), None));
}

#[test]
fn list_lines() {
    let h = header_line(false);
    assert!(h.starts_with("            USER       PID      PPID"));
    assert!(h.ends_with("      TIME"));
    assert!(header_line(true).ends_with("  CMD"));
    let line = row_line(&row(42, "init", Some(0), 0, 3661), false);
    assert_eq!(
        line,
        format!(
            "{:>16}  {:>8}  {:>8}  {:>32}  {:>10}  {:>10}  {:>12}  ",
            "me", 42, 0, "init", "      0.00", "      0.00", "01:01:01"
        )
    );
}

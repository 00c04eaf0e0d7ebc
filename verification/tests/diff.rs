use shmy::diff::{check_file_count, compare, Diff};
use shmy::edit_graph::{diff, edit_script, Edit};

fn lines(items: &[&str]) -> Vec<String> {
    items.iter().map(|s| s.to_string()).collect()
}

fn shown(src: &[&str], dest: &[&str]) -> Vec<String> {
    compare(&lines(src), &lines(dest), "a\\x.txt", "b.txt")
}

#[test]
fn changed_line_in_the_middle() {
    assert_eq!(
        shown(&["a", "b", "c"], &["a", "x", "c"]),
        lines(&["--- a/x.txt", "+++ b.txt", "@@ -2,1 +2,1 @@", "-b", "+x"])
    );
}

#[test]
fn change_at_the_start_shows_no_names() {
    assert_eq!(shown(&["a", "b"], &["x", "b"]), lines(&["@@ -1,1 +1,1 @@", "-a", "+x"]));
}

#[test]
fn same_text_shows_nothing() {
    assert!(shown(&["a", "b", "c"], &["a", "b", "c"]).is_empty());
    let t = lines(&["a", "b", "a"]);
    let grid = diff(&t, &t);
    assert_eq!(edit_script(&grid, &t, &t), vec![Edit::Keep, Edit::Keep, Edit::Keep]);
}

#[test]
fn all_lines_removed_or_added() {
    assert_eq!(shown(&["a"], &[]), lines(&["@@ -1,1 +1,0 @@", "-a"]));
    assert_eq!(shown(&[], &["a", "b"]), lines(&["@@ -1,0 +1,2 @@", "+a", "+b"]));
}

#[test]
fn two_hunks() {
    assert_eq!(
        shown(&["a", "b", "c", "d"], &["a", "c", "d", "e"]),
        lines(&["--- a/x.txt", "+++ b.txt", "@@ -2,1 +1,0 @@", "-b", "@@ -4,0 +4,1 @@", "+e"])
    );
}

#[test]
fn three_hunks() {
    assert_eq!(
        shown(&["one", "two", "three"], &["zero", "one", "three", "four"]),
        lines(&[
            "--- a/x.txt",
            "+++ b.txt",
            "@@ -1,0 +1,1 @@",
            "+zero",
            "@@ -2,1 +2,0 @@",
            "-two",
            "@@ -3,0 +4,1 @@",
            "+four",
        ])
    );
}

#[test]
fn script_turns_first_text_into_second() {
    let src = lines(&["one", "two", "three"]);
    let dest = lines(&["zero", "one", "three", "four"]);
    let grid = diff(&src, &dest);
    let script = edit_script(&grid, &src, &dest);
    let (mut p, mut q) = (0, 0);
    let mut made: Vec<String> = Vec::new();
    for step in &script {
        match step {
            Edit::Keep => {
                assert_eq!(src[p], dest[q]);
                made.push(src[p].clone());
                p += 1;
                q += 1;
            }
            Edit::Delete => p += 1,
            Edit::Insert => {
                made.push(dest[q].clone());
                q += 1;
            }
        }
    }
    assert_eq!((p, q), (src.len(), dest.len()));
    assert_eq!(made, dest);
    assert_eq!(script, vec![Edit::Insert, Edit::Keep, Edit::Delete, Edit::Keep, Edit::Insert]);
}

#[test]
fn both_empty() {
    assert!(shown(&[], &[]).is_empty());
}

#[test]
fn diff_needs_two_files() {
    assert_eq!(check_file_count(&lines(&["a"])), Err("diff requires exactly two filenames".to_string()));
    assert_eq!(check_file_count(&lines(&["a", "b", "c"])), Err("diff requires exactly two filenames".to_string()));
    assert_eq!(check_file_count(&lines(&["a", "b"])), Ok(()));
}

#[test]
fn diff_help() {
    let d = Diff::new();
    let text = d.help_text("diff");
    assert!(text.starts_with("Usage: diff [OPTION]... FILE1 FILE2\nCompare FILES line by line.\n\nOptions:\n"));
    assert!(text.contains("--color"));
    assert!(text.contains("--help"));
}

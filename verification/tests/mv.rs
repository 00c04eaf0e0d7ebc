use shmy::mv::{check_move_args, move_destination};

fn parts(p: &str) -> Vec<String> {
    let mut v: Vec<String> = Vec::new();
    if p.starts_with('/') {
        v.push("/".to_string());
    }
    for c in p.split('/').filter(|c| !c.is_empty()) {
        v.push(c.to_string());
    }
    v
}

#[test]
fn test_move_file_success() {
    // a file moved to a directory lands in it under its own name
    let src = parts("/tmp/t/source.txt");
    let dest = parts("/tmp/t/dest");
    let r = move_destination(&src, Some("source.txt"), &dest, true, "/tmp/t/source.txt");
    assert_eq!(r, Ok(parts("/tmp/t/dest/source.txt")));
}

#[test]
fn test_move_file_same_source_and_dest() {
    let src = parts("/tmp/t/source.txt");
    let r = move_destination(&src, Some("source.txt"), &src, false, "/tmp/t/source.txt");
    assert_eq!(r, Err(format!("{}: Source and destination are the same", "/tmp/t/source.txt")));
}

#[test]
fn test_move_file_to_subdirectory_of_itself() {
    let src = parts("/tmp/t/source_dir");
    let dest = parts("/tmp/t/source_dir/sub_dir");
    let r = move_destination(&src, Some("source_dir"), &dest, true, "/tmp/t/source_dir");
    assert_eq!(r, Err(format!("Cannot move {} to a subdirectory of itself", "/tmp/t/source_dir")));
}

#[test]
fn test_exec_missing_args() {
    assert_eq!(check_move_args(&vec![]), Err("Missing source and destination".to_string()));
    assert_eq!(check_move_args(&vec!["source.txt".to_string()]), Err("Missing destination".to_string()));
}

#[test]
fn a_rename_to_a_new_name_is_allowed() {
    let src = parts("a/b");
    let dest = parts("a/c");
    assert_eq!(move_destination(&src, Some("b"), &dest, false, "a/b"), Ok(parts("a/c")));
    assert_eq!(check_move_args(&vec!["x".to_string(), "y".to_string()]), Ok(()));
}

#[test]
fn a_source_without_a_name_cannot_go_into_a_directory() {
    let src = parts("/");
    let dest = parts("/tmp");
    assert_eq!(move_destination(&src, None, &dest, true, "/"), Err("Invalid source filename: /".to_string()));
}

#[test]
fn a_prefix_that_is_not_a_whole_component_is_no_subdirectory() {
    let src = parts("a/b");
    let dest = parts("a/bc");
    assert_eq!(move_destination(&src, Some("b"), &dest, false, "a/b"), Ok(parts("a/bc")));
}

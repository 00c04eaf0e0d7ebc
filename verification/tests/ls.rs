use shmy::ls::{detail_line, is_listed, kind_char, permissions, short_listing_text, Dir, EntryInfo, FileKind};

fn names(items: &[&str]) -> Vec<String> {
    items.iter().map(|s| s.to_string()).collect()
}

#[test]
fn permission_letters() {
    assert_eq!(permissions(0o755), "rwxr-xr-x");
    assert_eq!(permissions(0o640), "rw-r-----");
    assert_eq!(permissions(0o100644), "rw-r--r--");
    assert_eq!(permissions(0), "---------");
    assert_eq!(kind_char(FileKind::Dir), 'd');
    assert_eq!(kind_char(FileKind::Link), 'l');
}

#[test]
fn hidden_names() {
    assert!(!is_listed(".git", false));
    assert!(is_listed(".git", true));
    assert!(is_listed("src", false));
}

#[test]
fn names_in_columns() {
    // widest name 4 bytes, columns 8 wide, 20 / 8 = 2 columns
    let text = short_listing_text(&names(&["a", ".h", "bbbb", "cc", "d"]), false, 20, 4);
    assert_eq!(text, "a        bbbb   \ncc       d      \n");
    // a narrow terminal still shows one column
    assert_eq!(short_listing_text(&names(&["abc"]), false, 2, 4), "abc    \n");
    assert_eq!(short_listing_text(&names(&[".x"]), false, 80, 4), "");
}

#[test]
fn long_line() {
    let e = EntryInfo {
        kind: FileKind::File,
        mode: 0o644,
        owner: "root".to_string(),
        group: "wheel".to_string(),
        size: 2048,
        modified: "Jan 02 03:04".to_string(),
        name: "notes.txt".to_string(),
        link_target: None,
    };
    assert_eq!(
        detail_line(&e, false),
        format!("-rw-r--r--  {:16} {:16} {:>12}  Jan 02 03:04  notes.txt", "root", "wheel", "2048")
    );
    let l = EntryInfo { kind: FileKind::Dir, link_target: Some("/x".to_string()), ..e };
    assert!(detail_line(&l, false).ends_with(&format!("{:>12}  Jan 02 03:04  notes.txt -> /x", "")));
}

#[test]
fn ls_help_flags() {
    let text = Dir::new().flags.help();
    assert!(text.contains("--human-readable"));
    assert!(text.contains("--utc"));
}

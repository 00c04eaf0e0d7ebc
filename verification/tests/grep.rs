use shmy::grep::{entry_searched, grep_lines, grep_pattern, show_filename, visit, Grep, GrepOptions, PathKind, Visit, Visited};
use shmy::scope::Scope;

fn opts(ignore_case: bool, line_number: bool, show_filename: bool, invert_match: bool) -> GrepOptions {
    GrepOptions { ignore_case, line_number, show_filename, invert_match }
}

fn lines(text: &str) -> Vec<String> {
    text.lines().map(|l| l.to_string()).collect()
}

#[test]
fn grep_basic_functionality() {
    let out = grep_lines("test", None, &lines("Hello World\nThis is a test\nGoodbye World"), &opts(false, false, false, false));
    assert_eq!(out.unwrap(), vec!["This is a test".to_string()]);
}

#[test]
fn grep_ignore_case_flag() {
    let out = grep_lines("hello", None, &lines("hello World\nTHIS IS A TEST\nGoodbye World\nHELLO"), &opts(true, false, false, false));
    assert_eq!(out.unwrap(), vec!["hello World".to_string(), "HELLO".to_string()]);
    assert_eq!(grep_pattern("hello", true).unwrap(), "(?i)hello");
}

#[test]
fn grep_line_number_flag() {
    let out = grep_lines("Line", None, &lines("Line 1\nLine 2\nLine 3"), &opts(false, true, false, false));
    assert_eq!(out.unwrap(), vec!["1:Line 1".to_string(), "2:Line 2".to_string(), "3:Line 3".to_string()]);
}

#[test]
fn grep_silent_no_match() {
    let out = grep_lines("missing", None, &lines("Test file\nAnother line"), &opts(false, false, false, false));
    assert!(out.unwrap().is_empty());
}

#[test]
fn grep_file_names_and_inversion() {
    let out = grep_lines("Line", Some("a.txt"), &lines("Line 1\nother\nLine 3"), &opts(false, true, true, true));
    assert_eq!(out.unwrap(), vec!["a.txt:2:other".to_string()]);
    assert!(show_filename(false, false, 2));
    assert!(!show_filename(false, false, 1));
    assert!(show_filename(false, true, 1));
    assert!(!show_filename(true, true, 5));
}

#[test]
fn grep_invalid_pattern() {
    assert!(grep_pattern("(", false).is_err());
    assert!(grep_lines("(", None, &lines("x"), &opts(false, false, false, false)).is_err());
}

/// Parse `args` as `grep` does, then search the content of the file named last
/// (which the original test wrote with a final line end).
fn run_grep(args: &[&str], content: &str) -> Result<Vec<String>, String> {
    let mut flags = Grep::new().flags;
    let mut scope = Scope::new();
    let args: Vec<String> = args.iter().map(|a| a.to_string()).collect();
    let rest = flags.parse(&mut scope, &args)?;
    let st = Grep::settings(&flags, &rest)?;
    let file = st.files.last().cloned().unwrap_or_default();
    let opts = GrepOptions {
        ignore_case: st.ignore_case,
        line_number: st.line_number,
        show_filename: show_filename(st.no_filename, st.with_filename, st.files.len()),
        invert_match: st.invert_match,
    };
    grep_lines(&rest[0], Some(&file), &lines(&format!("{}\n", content)), &opts)
}

#[test]
fn test_grep_basic_functionality() {
    let result = run_grep(&["grep", "test", "test_file.txt"], "Hello World\nThis is a test\nGoodbye World");
    assert!(result.is_ok());
}

#[test]
fn test_ignore_case_flag() {
    let result = run_grep(&["grep", "-i", "hello", "test_file.txt"], "hello World\nTHIS IS A TEST\nGoodbye World");
    assert!(result.is_ok());
}

#[test]
fn test_line_number_flag() {
    let result = run_grep(&["grep", "-n", "Line", "test_file.txt"], "Line 1\nLine 2\nLine 3");
    assert!(result.is_ok());
}

#[test]
fn grep_settings_and_errors() {
    let mut flags = Grep::new().flags;
    let mut scope = Scope::new();
    let rest = flags.parse(&mut scope, &vec!["-i".to_string(), "-n".to_string(), "abc".to_string(), "f".to_string()]).unwrap();
    let st = Grep::settings(&flags, &rest).unwrap();
    assert_eq!(st.pattern, "(?i)abc");
    assert_eq!(st.files, vec!["f".to_string()]);
    assert!(st.ignore_case && st.line_number && !st.recursive && st.silent);
    assert_eq!(Grep::settings(&flags, &Vec::new()).err(), Some("Missing search pattern".to_string()));
    let mut flags = Grep::new().flags;
    let rest = flags.parse(&mut scope, &vec!["--messages".to_string(), "x".to_string()]).unwrap();
    assert!(!Grep::settings(&flags, &rest).unwrap().silent);
}

#[test]
fn grep_path_decisions() {
    assert!(matches!(visit("a", PathKind::File, false, false), Visit::Search));
    assert!(matches!(visit("d", PathKind::Dir, false, true), Visit::Descend));
    match visit("d", PathKind::Dir, false, false) {
        Visit::Omit(m) => assert_eq!(m, "Omitting directory (-r/--recursive option not set): d"),
        _ => panic!("expected a warning"),
    }
    match visit("l", PathKind::Symlink, false, true) {
        Visit::Omit(m) => assert_eq!(m, "Omitting symlink (-L/--follow-links option not set): l"),
        _ => panic!("expected a warning"),
    }
    assert!(matches!(visit("l", PathKind::Symlink, true, false), Visit::Resolve));
    assert!(matches!(visit("p", PathKind::Other, true, true), Visit::Ignore));
    assert!(!entry_searched(".git", false));
    assert!(entry_searched(".git", true));
    assert!(entry_searched("src", false));
    let mut seen = Visited::new();
    assert!(seen.insert("/a"));
    assert!(!seen.insert("/a"));
    assert!(seen.insert("/b"));
}

#[test]
fn matches_are_cut_out_for_highlighting() {
    let segs = shmy::grep::match_segments("o+", "foo bar boo").unwrap();
    assert_eq!(
        segs,
        vec![
            ("f".to_string(), false),
            ("oo".to_string(), true),
            (" bar b".to_string(), false),
            ("oo".to_string(), true),
            ("".to_string(), false),
        ]
    );
    assert!(shmy::grep::match_segments("(", "x").is_none());
}

#[test]
fn a_line_without_a_match_is_one_segment() {
    let segs = shmy::grep::match_segments("z", "héllo").unwrap();
    assert_eq!(segs, vec![("héllo".to_string(), false)]);
    let segs = shmy::grep::match_segments("(?i)L+", "héllo").unwrap();
    assert_eq!(segs[1], ("ll".to_string(), true));
}

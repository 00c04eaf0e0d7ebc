use shmy::cat::{process_input, CatHeadTail, Mode};
use shmy::cut::{cut_line, CutCommand};
use shmy::flags::CommandFlags;
use shmy::scope::Scope;
use shmy::sort::Sort;
use shmy::strings::{process_strings, StringsCommand};
use shmy::wc::{count_data, count_lines, CountResult, WordCount};

fn strs(v: &[&str]) -> Vec<String> {
    v.iter().map(|s| s.to_string()).collect()
}

fn parsed(mut flags: CommandFlags, args: &[&str]) -> CommandFlags {
    let mut scope = Scope::new();
    let args = strs(args);
    flags.parse(&mut scope, &args).expect("flags parse");
    flags
}

#[test]
fn sort_orders_lines() {
    let sort = Sort::new();
    let lines = strs(&["pear", "apple", "fig", "apple", "Zebra"]);
    assert_eq!(sort.sort_lines(lines.clone(), false, false), strs(&["Zebra", "apple", "apple", "fig", "pear"]));
    assert_eq!(sort.sort_lines(lines.clone(), true, false), strs(&["Zebra", "apple", "fig", "pear"]));
    assert_eq!(sort.sort_lines(lines.clone(), false, true), strs(&["pear", "fig", "apple", "apple", "Zebra"]));
    assert_eq!(sort.sort_lines(lines, true, true), strs(&["pear", "fig", "apple", "Zebra"]));
}

#[test]
fn sort_prefix_first_and_empty() {
    let sort = Sort::new();
    assert_eq!(sort.sort_lines(strs(&["ab", "a", "", "b"]), false, false), strs(&["", "a", "ab", "b"]));
    assert_eq!(sort.sort_lines(Vec::new(), true, true), Vec::<String>::new());
}

#[test]
fn sort_flags() {
    let flags = parsed(Sort::new().flags, &["-u", "--reverse"]);
    assert!(flags.is_present("unique"));
    assert!(flags.is_present("reverse"));
    assert!(!flags.is_present("numeric-sort"));
}

#[test]
fn strings_finds_printable_runs() {
    let data = b"\x00\x01hello world\xffab\x02abcd\n\x7fxyz";
    assert_eq!(process_strings(data, 4), strs(&["hello world", "abcd\n"]));
    assert_eq!(process_strings(data, 2), strs(&["hello world", "ab", "abcd\n", "xyz"]));
    assert_eq!(process_strings(data, 0), strs(&["hello world", "ab", "abcd\n", "xyz"]));
    assert_eq!(process_strings(b"", 1), Vec::<String>::new());
    assert_eq!(process_strings(b"tail", 4), strs(&["tail"]));
}

#[test]
fn strings_min_length_option() {
    let cmd = StringsCommand::new();
    assert_eq!(cmd.min_length(), Ok(4));
    let cmd = StringsCommand { flags: parsed(StringsCommand::new().flags, &["-n", "7"]) };
    assert_eq!(cmd.min_length(), Ok(7));
    let cmd = StringsCommand { flags: parsed(StringsCommand::new().flags, &["--min-length", "x"]) };
    assert_eq!(cmd.min_length(), Err("x: invalid digit found in string".to_string()));
    assert_eq!(cmd.mode_specific_help(), "Output printable strings from files.");
}

#[test]
fn cat_head_tail_lines() {
    let data = b"one\ntwo\nthree\nfour";
    assert_eq!(process_input(data, Mode::Cat, false, false, 10), strs(&["one", "two", "three", "four"]));
    assert_eq!(process_input(data, Mode::Head, false, false, 2), strs(&["one", "two"]));
    assert_eq!(process_input(data, Mode::Tail, false, false, 2), strs(&["three", "four"]));
    assert_eq!(process_input(data, Mode::Head, false, false, 0), Vec::<String>::new());
    // a count of 0 keeps every line for tail
    assert_eq!(process_input(data, Mode::Tail, false, false, 0), strs(&["one", "two", "three", "four"]));
}

#[test]
fn cat_numbers_and_ascii() {
    let data = b"a\n\nb\xc3\xa9\x00c\n";
    assert_eq!(process_input(data, Mode::Cat, true, false, 10), strs(&["     1: a", "     2: ", "     3: b\u{e9}\u{0}c"]));
    assert_eq!(process_input(data, Mode::Tail, true, true, 1), strs(&["     3: bc"]));
    assert_eq!(process_input(b"\xffz", Mode::Cat, false, false, 10), strs(&["\u{fffd}z"]));
    assert_eq!(process_input(b"", Mode::Cat, true, false, 10), Vec::<String>::new());
}

#[test]
fn cat_flags_and_counts() {
    let head = CatHeadTail::new(Mode::Head);
    assert_eq!(head.line_count(), Ok(10));
    assert_eq!(head.mode_specific_help(), "Output the first part of files.");
    let head = CatHeadTail { flags: parsed(CatHeadTail::new(Mode::Head).flags, &["-l", "3", "-n"]), mode: Mode::Head };
    assert_eq!(head.line_count(), Ok(3));
    assert!(head.flags.is_present("number"));
    let tail = CatHeadTail { flags: parsed(CatHeadTail::new(Mode::Tail).flags, &["--lines", ""]), mode: Mode::Tail };
    assert_eq!(tail.line_count(), Err(": cannot parse integer from empty string".to_string()));
    let cat = CatHeadTail::new(Mode::Cat);
    assert_eq!(cat.mode_specific_help(), "Concatenate FILE(s) to standard output.");
}

#[test]
fn cut_fields() {
    let cmd = CutCommand { flags: parsed(CutCommand::new().flags, &["-d", "\\s+", "-f", "4,2"]) };
    let options = cmd.options().expect("options");
    assert_eq!(options.fields, vec![4, 2]);
    assert_eq!(cut_line("  a b   c d", &options), Ok("d b".to_string()));
    assert_eq!(cut_line("a b", &options), Err("Field index 4 is out of range".to_string()));
}

#[test]
fn cut_default_tab_and_errors() {
    let cmd = CutCommand { flags: parsed(CutCommand::new().flags, &["-f", "1"]) };
    let options = cmd.options().expect("options");
    assert_eq!(options.delimiter, "\t");
    assert_eq!(cut_line("x\ty", &options), Ok("x".to_string()));
    let cmd = CutCommand { flags: parsed(CutCommand::new().flags, &["-f", "0"]) };
    let options = cmd.options().expect("options");
    assert_eq!(cut_line("x", &options), Err("Field index 0 is out of range".to_string()));
    let cmd = CutCommand::new();
    assert_eq!(cmd.options().err(), Some("Fields option is required.".to_string()));
    let cmd = CutCommand { flags: parsed(CutCommand::new().flags, &["-f", "1,,2"]) };
    assert_eq!(cmd.options().err(), Some("Invalid field number: cannot parse integer from empty string".to_string()));
    let cmd = CutCommand { flags: parsed(CutCommand::new().flags, &["-f", "1", "-d", "("]) };
    assert!(cmd.options().err().unwrap().starts_with("Invalid regex delimiter: "));
}

#[test]
fn test_count_file() {
    let result = count_data(b"Hello world\nThis is a test\n");
    assert_eq!(result.lines, 2);
    assert_eq!(result.words, 6);
    assert_eq!(result.chars, 25);
    assert_eq!(result.bytes, 27); // Assuming UTF-8 encoding, include newlines
}

#[test]
fn wc_stdin_counts_and_report() {
    let result = count_lines(&strs(&["h\u{e9}llo  w\u{f6}rld", "", " x"]));
    assert_eq!((result.lines, result.words, result.chars, result.bytes), (3, 3, 14, 16));
    let flags = WordCount::new().flags;
    assert_eq!(WordCount::print_result(&result, None, &flags), "         3           3            16");
    let flags = parsed(WordCount::new().flags, &["-m", "-l"]);
    assert_eq!(WordCount::print_result(&result, Some("in.txt"), &flags), "         3            14 in.txt");
}

#[test]
fn wc_totals_add() {
    let mut total = CountResult::new();
    total.add(&count_data(b"a b\n"));
    total.add(&count_data(b"c\nd"));
    assert_eq!((total.lines, total.words, total.chars, total.bytes), (3, 4, 5, 7));
}

use shmy::pager::{file_title, next_file, FileAction, Key, Less, Viewer, LESS_HELP};

fn viewer(n: usize, height: usize) -> Viewer {
    let lines: Vec<String> = (1..=n).map(|i| format!("line {}", i)).collect();
    Viewer::new(Some("file (1 of 1)".to_string()), lines, 80, height + 1)
}

fn press(v: &mut Viewer, key: Key) -> FileAction {
    let mut state = v.state.clone();
    v.process_key_code(&key, &mut state)
}

#[test]
fn paging() {
    let mut v = viewer(100, 10);
    assert_eq!(v.screen_height, 10);
    assert_eq!(v.line_num_width, 4);
    press(&mut v, Key::PageDown);
    assert_eq!(v.state.current_line, 10);
    press(&mut v, Key::Char(' '));
    assert_eq!(v.state.current_line, 20);
    press(&mut v, Key::Char('b'));
    assert_eq!(v.state.current_line, 10);
    press(&mut v, Key::Char('G'));
    assert_eq!(v.state.current_line, 90);
    press(&mut v, Key::PageDown);
    assert_eq!(v.state.current_line, 99);
    press(&mut v, Key::Down);
    assert_eq!(v.state.current_line, 99);
    press(&mut v, Key::Up);
    assert_eq!(v.state.current_line, 98);
    press(&mut v, Key::PageUp);
    press(&mut v, Key::PageUp);
    assert_eq!(v.state.current_line, 78);
}

#[test]
fn actions() {
    let mut v = viewer(5, 10);
    assert!(press(&mut v, Key::Char('q')) == FileAction::Quit);
    assert!(press(&mut v, Key::Command(":n".trim_start_matches(':').to_string())) == FileAction::NextFile);
    assert!(press(&mut v, Key::Command("p".to_string())) == FileAction::PrevFile);
    assert!(press(&mut v, Key::Command(" q ".to_string())) == FileAction::Quit);
    assert!(press(&mut v, Key::Char('x')) == FileAction::NoAction);
}

#[test]
fn goto_line() {
    let mut v = viewer(50, 10);
    press(&mut v, Key::Command("42".to_string()));
    assert_eq!(v.state.current_line, 41);
    press(&mut v, Key::Command("51".to_string()));
    assert_eq!(v.state.current_line, 41);
    assert_eq!(v.state.status_line.as_deref(), Some("\x1b[7m51 is out of range: [1..50]\x1b[0m"));
    press(&mut v, Key::Command("abc".to_string()));
    assert_eq!(v.state.status_line.as_deref(), Some("\x1b[7mInvalid line number\x1b[0m"));
}

#[test]
fn searching() {
    let mut v = viewer(30, 10);
    press(&mut v, Key::Search(true, "line 2".to_string()));
    assert_eq!(v.state.current_line, 1);
    assert_eq!(v.state.last_search.as_deref(), Some("line 2"));
    press(&mut v, Key::Char('n'));
    assert_eq!(v.state.current_line, 19);
    press(&mut v, Key::Char('n'));
    assert_eq!(v.state.current_line, 20);
    press(&mut v, Key::Search(false, "line 1".to_string()));
    assert_eq!(v.state.current_line, 18);
    press(&mut v, Key::Search(true, "nothing".to_string()));
    assert_eq!(v.state.status_line.as_deref(), Some("\x1b[7mPattern not found: nothing\x1b[0m"));
    press(&mut v, Key::Esc);
    assert!(v.state.last_search.is_none());
}

#[test]
fn hints_and_numbers() {
    let mut v = viewer(3, 10);
    press(&mut v, Key::Char('h'));
    let hints = v.state.status_line.clone().unwrap();
    assert!(hints.starts_with("\x1b[7m\x1b[7mb\x1b[0m Prev Page | "));
    assert!(hints.ends_with(" Quit\x1b[0m"));
    press(&mut v, Key::Char('l'));
    assert!(v.state.show_line_numbers);
    let mut state = v.state.clone();
    v.process_key_code(&Key::Command(String::new()), &mut state);
    assert!(state.redraw);
}

#[test]
fn scrolling_to_a_match() {
    let long = format!("{}needle", "x".repeat(100));
    let mut v = Viewer::new(None, vec![long], 40, 11);
    press(&mut v, Key::Search(true, "needle".to_string()));
    // the match ends past the screen: scroll so that it shows
    assert_eq!(v.state.horizontal_scroll, 100 - 40 + 6 + v.line_num_width + 2);
    press(&mut v, Key::Right);
    press(&mut v, Key::Left);
    press(&mut v, Key::Left);
    assert_eq!(v.state.horizontal_scroll, 100 - 40 + 6 + v.line_num_width + 1);
}

#[test]
fn less_file_navigation() {
    assert_eq!(next_file(0, FileAction::PrevFile, 3), Some(0));
    assert_eq!(next_file(2, FileAction::PrevFile, 3), Some(1));
    assert_eq!(next_file(1, FileAction::NextFile, 3), Some(2));
    assert_eq!(next_file(2, FileAction::NextFile, 3), Some(2));
    assert_eq!(next_file(1, FileAction::NoAction, 3), Some(1));
    assert_eq!(next_file(1, FileAction::Quit, 3), None);
    assert_eq!(file_title("notes.txt", 1, 3), "notes.txt (2 of 3)");
}

#[test]
fn less_help_and_flags() {
    let text = Less::help_text("less");
    assert!(text.starts_with("Usage: less [OPTION]... [FILE]...\nView FILE(s) or the standard input (stdin) in a pager.\n"));
    assert!(text.contains("    :N                   Go to line number N (1-based).\n"));
    assert!(text.ends_with(LESS_HELP));
    let less = Less::new();
    let mut flags = less.flags;
    let mut scope = shmy::scope::Scope::new();
    let rest = flags.parse(&mut scope, &vec!["-L".to_string(), "-n".to_string(), "f".to_string()]).unwrap();
    assert_eq!(rest, vec!["f".to_string()]);
    assert!(flags.is_present("follow-links") && flags.is_present("number"));
}

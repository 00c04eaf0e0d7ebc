use shmy::help::{available_commands, interpreter_help, HOOKS_HELP, INTERPRETER_HELP_HEAD, INTERPRETER_HELP_TAIL};

#[test]
fn command_table() {
    let names = vec!["cd".to_string(), "echo".to_string(), "ls".to_string()];
    let text = available_commands(&names, 4, 4, 40);
    assert_eq!(text, "BUILT-IN COMMANDS\n    cd      echo    ls      \n\n");
    // two columns fit in 20 - 4 = 16
    let text = available_commands(&names, 4, 4, 20);
    assert_eq!(text, "BUILT-IN COMMANDS\n    cd      echo    \n    ls      \n\n");
    // nothing registered
    let text = available_commands(&Vec::new(), 4, 4, 80);
    assert_eq!(text, "\n");
}

#[test]
fn manual() {
    let names = vec!["cd".to_string()];
    let text = interpreter_help(&names, 80);
    assert!(text.starts_with("NAME\n    shmy - Lightweight command line interpreter\n"));
    assert!(text.contains("HOOKS\n"));
    assert!(text.contains("BUILT-IN COMMANDS\n    cd    \n\n"));
    assert!(text.ends_with("AUTHOR\n    Written by Cristian Vlasceanu\n\n"));
    assert_eq!(text.len(), INTERPRETER_HELP_HEAD.len() + HOOKS_HELP.len() + "BUILT-IN COMMANDS\n    cd    \n\n".len() + INTERPRETER_HELP_TAIL.len());
}

#[test]
fn lines_like_str_lines() {
    assert_eq!(shmy::text::lines_of("a\r\nb\n\nc\r"), vec!["a", "b", "", "c\r"]);
    assert_eq!(shmy::text::lines_of("one\n"), vec!["one"]);
    assert!(shmy::text::lines_of("").is_empty());
}

#[test]
fn manual_page_from_help_output() {
    let out = "Usage: cp [OPTIONS] SRC DEST\nCopy files.\n\nOptions:\n-r, --recursive  Copy directories\n\nMore text\n";
    assert_eq!(
        shmy::help::help_page("cp", out),
        "NAME\n    cp\n\nSYNOPSIS\n    Usage: cp [OPTIONS] SRC DEST\n\nDESCRIPTION\n    Copy files.\n\nOPTIONS\n    -r, --recursive  Copy directories\n\nMore text\n"
    );
    assert_eq!(shmy::help::help_page("cp", ""), "");
    assert_eq!(shmy::help::longest_name(&vec!["ab".to_string(), "abcd".to_string()]), 4);
}

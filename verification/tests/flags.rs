use shmy::flags::CommandFlags;
use shmy::scope::Scope;

fn create_test_flags() -> CommandFlags {
    let mut flags = CommandFlags::new();
    flags.add_flag('v', "verbose", "Enable verbose output");
    flags.add_option('o', "output", "Specify output file");
    flags.add_with_default(Some('d'), "debug", true, "Set debug level", Some("0"));
    flags
}

fn strings(v: &[&str]) -> Vec<String> {
    v.iter().map(|s| s.to_string()).collect()
}

#[test]
fn test_default_values() {
    let flags = create_test_flags();
    assert_eq!(flags.option("verbose"), None);
    assert_eq!(flags.option("debug"), Some("0"));
    assert_eq!(flags.option("output"), None);
}

#[test]
fn test_parse_long_flags() {
    let mut flags = create_test_flags();
    let mut scope = Scope::new();
    let args = strings(&["--verbose", "--output", "file.txt"]);
    let result = flags.parse(&mut scope, &args);
    assert!(result.is_ok());
    assert!(flags.is_present("verbose"));
    assert_eq!(flags.option("output"), Some("file.txt"));
}

#[test]
fn test_parse_short_flags() {
    let mut flags = create_test_flags();
    let mut scope = Scope::new();
    let args = strings(&["-v", "-o", "file.txt"]);
    let result = flags.parse(&mut scope, &args);
    assert!(result.is_ok());
    assert!(flags.is_present("verbose"));
    assert_eq!(flags.option("output"), Some("file.txt"));
}

#[test]
fn test_boolean_flag_negation() {
    let mut flags = create_test_flags();
    let mut scope = Scope::new();
    let args = strings(&["--no-verbose"]);
    let result = flags.parse(&mut scope, &args);
    assert!(result.is_ok());
    assert!(!flags.is_present("verbose"));
}

#[test]
fn test_boolean_flag_negation_after() {
    let mut flags = create_test_flags();
    let mut scope = Scope::new();
    let args = strings(&["--verbose", "--no-verbose"]);
    let result = flags.parse(&mut scope, &args);
    assert!(result.is_ok());
    assert!(!flags.is_present("verbose"));

    let args = strings(&["--verbose", "--no-verbose", "--verbose"]);
    let result = flags.parse(&mut scope, &args);
    assert!(result.is_ok());
    assert!(flags.is_present("verbose"));
}

#[test]
fn test_invalid_negation() {
    let mut flags = create_test_flags();
    let mut scope = Scope::new();
    let args = strings(&["--no-output", "file.txt"]);
    let result = flags.parse(&mut scope, &args);
    assert!(result.is_err());
}

#[test]
fn test_override_default_value() {
    let mut flags = create_test_flags();
    let mut scope = Scope::new();
    let args = strings(&["--debug", "2"]);
    let result = flags.parse(&mut scope, &args);
    assert!(result.is_ok());
    assert_eq!(flags.option("debug"), Some("2"));
}

#[test]
fn test_help_output() {
    let flags = create_test_flags();
    let help_text = flags.help();
    assert!(help_text.contains("Enable verbose output"));
    assert!(help_text.contains("Specify output file"));
    assert!(help_text.contains("Set debug level (default: 0)"));
}

#[test]
fn test_is_present() {
    let mut flags = create_test_flags();
    let mut scope = Scope::new();
    let args = strings(&["--verbose"]);
    let result = flags.parse(&mut scope, &args);
    assert!(result.is_ok());
    assert!(flags.is_present("verbose"));
    assert!(!flags.is_present("output"));
}

#[test]
fn test_parse_all() {
    let mut flags = create_test_flags();
    let mut scope = Scope::new();
    let args = strings(&["--verbose", "--unknown", "--output", "file.txt"]);
    let non_flag_args = flags.parse_all(&mut scope, &args);
    assert!(flags.is_present("verbose"));
    assert_eq!(flags.option("output"), Some("file.txt"));
    assert_eq!(non_flag_args, vec!["--unknown"]);
}

#[test]
fn test_short_flag_with_separate_value() {
    let mut flags = CommandFlags::new();
    let mut scope = Scope::new();
    flags.add_option('d', "debug", "Set debug level");
    let args = strings(&["-d", "2"]);
    let result: Result<Vec<String>, String> = flags.parse(&mut scope, &args);
    assert!(result.is_ok(), "Expected the parser to succeed");
    assert_eq!(flags.option("debug"), Some("2"));
}

#[test]
fn test_concatenated_short_flag_with_value() {
    let mut flags = CommandFlags::new();
    let mut scope = Scope::new();
    flags.add_option('d', "debug", "Set debug level");
    let args = strings(&["-d2"]);
    let result = flags.parse(&mut scope, &args);
    assert!(result.is_ok(), "Expected the parser to succeed");
    assert_eq!(flags.option("debug"), Some("2"));
}

#[test]
fn test_parse_all_valid_flags() {
    let mut flags = create_test_flags();
    let mut scope = Scope::new();
    let args = strings(&["--verbose", "--output", "file.txt", "--debug", "2"]);
    let non_flag_args = flags.parse_all(&mut scope, &args);
    assert!(non_flag_args.is_empty(), "Expected no non-flag arguments");
    assert!(flags.is_present("verbose"));
    assert_eq!(flags.option("output"), Some("file.txt"));
    assert_eq!(flags.option("debug"), Some("2"));
}

#[test]
fn test_parse_all_with_unknown_flags() {
    let mut flags = create_test_flags();
    let mut scope = Scope::new();
    let args = strings(&["--verbose", "--unknown", "-x", "--output", "file.txt"]);
    let non_flag_args = flags.parse_all(&mut scope, &args);
    assert_eq!(non_flag_args, vec!["--unknown", "-x"]);
    assert!(flags.is_present("verbose"));
    assert_eq!(flags.option("output"), Some("file.txt"));
}

#[test]
fn test_parse_all_with_missing_value() {
    let mut flags = create_test_flags();
    let mut scope = Scope::new();
    let args = strings(&["--output"]);
    let non_flag_args = flags.parse_all(&mut scope, &args);
    assert_eq!(non_flag_args, vec!["--output"]);
    assert!(!flags.is_present("output"));
}

#[test]
fn test_parse_all_with_mixed_valid_and_invalid() {
    let mut flags = create_test_flags();
    let mut scope = Scope::new();
    let args = strings(&[
        "--verbose",
        "--unknown",
        "-o",
        "file.txt",
        "-x",
        "--debug",
        "2",
        "non-flag-arg",
    ]);
    let non_flag_args = flags.parse_all(&mut scope, &args);
    assert_eq!(non_flag_args, vec!["--unknown", "-x", "non-flag-arg"]);
    assert!(flags.is_present("verbose"));
    assert_eq!(flags.option("output"), Some("file.txt"));
    assert_eq!(flags.option("debug"), Some("2"));
}

#[test]
fn test_parse_all_with_double_dash() {
    let mut flags = create_test_flags();
    let mut scope = Scope::new();
    let args = strings(&["--verbose", "--", "--output", "file.txt"]);
    let non_flag_args = flags.parse_all(&mut scope, &args);
    assert_eq!(non_flag_args, vec!["--", "--output", "file.txt"]);
    assert!(flags.is_present("verbose"));
    assert!(!flags.is_present("output"));
}

#[test]
fn test_parse_all_with_short_flags() {
    let mut flags = create_test_flags();
    let mut scope = Scope::new();
    let args = strings(&["-v", "-o", "file.txt", "-d2"]);
    let non_flag_args = flags.parse_all(&mut scope, &args);
    assert!(non_flag_args.is_empty(), "Expected no non-flag arguments");
    assert!(flags.is_present("verbose"));
    assert_eq!(flags.option("output"), Some("file.txt"));
    assert_eq!(flags.option("debug"), Some("2"));
}

#[test]
fn flags_help_lines_are_sorted_and_padded() {
    let flags = create_test_flags();
    assert_eq!(
        flags.help(),
        "-d, --debug                Set debug level (default: 0)\n\
         -o, --output               Specify output file\n\
         -v, --verbose              Enable verbose output\n"
    );
}

#[test]
fn flags_unknown_long_flag_message_and_error_index() {
    let mut flags = create_test_flags();
    let mut scope = Scope::new();
    let args = strings(&["a", "--bug"]);
    assert_eq!(flags.parse(&mut scope, &args), Err("Unknown flag: --bug".to_string()));
    assert_eq!(scope.err_arg(), 2);
}

#[test]
fn flags_short_flag_errors() {
    let mut flags = create_test_flags();
    let mut scope = Scope::new();
    assert_eq!(
        flags.parse(&mut scope, &strings(&["-vx"])),
        Err("Unknown flag: -x".to_string())
    );
    assert!(flags.is_present("verbose"));
    let mut flags = create_test_flags();
    assert_eq!(
        flags.parse(&mut scope, &strings(&["-o"])),
        Err("Flag -o requires a value".to_string())
    );
    assert_eq!(
        flags.parse(&mut scope, &strings(&["--output"])),
        Err("Flag --output requires a value".to_string())
    );
    assert_eq!(
        flags.parse(&mut scope, &strings(&["--no-output"])),
        Err("Flag --no-output is not valid for option that takes a value".to_string())
    );
}

#[test]
fn flags_dash_flag_takes_the_rest() {
    let mut flags = CommandFlags::new();
    let mut scope = Scope::new();
    flags.add_option('-', "args", "Arguments");
    let rest = flags.parse(&mut scope, &strings(&["x", "--", "a", "b"])).unwrap();
    assert_eq!(rest, vec!["x"]);
    assert_eq!(flags.option("args"), Some("a b"));
    assert!(!flags.is_empty());
}

#[test]
fn a_flag_enabled_by_default_reads_true() {
    let mut flags = CommandFlags::new();
    flags.add_flag_enabled('c', "color", "Use colors");
    assert_eq!(flags.option("color"), Some("true"));
    assert!(!flags.is_present("color"));
    assert!(flags.help().ends_with(" (default: true)\n") || flags.help().contains("(default: true)"));
}

#[test]
fn adding_a_flag_keeps_the_values_of_the_others() {
    let mut flags = create_test_flags();
    let mut scope = Scope::new();
    let args = strings(&["--output", "file.txt"]);
    assert!(flags.parse(&mut scope, &args).is_ok());
    flags.add_with_default(None, "level", true, "Level", Some("3"));
    assert_eq!(flags.option("output"), Some("file.txt"));
    assert_eq!(flags.option("debug"), Some("0"));
    assert_eq!(flags.option("level"), Some("3"));
}

use shmy::chmod::{verbose_line, windows_attributes, Chmod};

#[test]
fn test_parse_mode() {
    let mode = Chmod::parse_mode("755").unwrap();
    assert_eq!(mode, 0o755);

    let mode = Chmod::parse_mode("u+rwx").unwrap();
    assert_eq!(mode, 0o700);

    let mode = Chmod::parse_mode("g+r").unwrap();
    assert_eq!(mode, 0o040);

    let mode = Chmod::parse_mode("o+r").unwrap();
    assert_eq!(mode, 0o004);
}

#[test]
fn test_invalid_mode() {
    let result = Chmod::parse_mode("invalid");
    assert!(result.is_err());
}

#[test]
fn chmod_modes_combine() {
    assert_eq!(Chmod::parse_mode("go-w").unwrap(), 0);
    assert_eq!(Chmod::parse_mode("a=r").unwrap(), 0o444);
    assert_eq!(Chmod::parse_mode("u+x,g+w").unwrap_err(), "Invalid mode character: ,");
    assert_eq!(Chmod::parse_mode("0644").unwrap(), 0o644);
}

#[test]
fn chmod_verbose_line_is_octal() {
    assert_eq!(verbose_line("a.txt", 0o755), "changing permissions of 'a.txt' to 755");
    assert_eq!(verbose_line("b", 0), "changing permissions of 'b' to 0");
    assert_eq!(verbose_line("c", 0o4711), "changing permissions of 'c' to 4711");
}

#[test]
fn chmod_windows_attributes() {
    // read-only when no one may write; hidden and system cleared
    assert_eq!(windows_attributes(0x20 | 0x2 | 0x4, 0o444), 0x21);
    assert_eq!(windows_attributes(0x1, 0o644), 0);
    // the normal attribute alone becomes none
    assert_eq!(windows_attributes(0x80 | 0x1, 0o600), 0);
    assert_eq!(windows_attributes(0x80, 0o400), 0x81);
}

#[test]
fn a_symbolic_mode_changes_the_current_bits() {
    assert_eq!(Chmod::apply_mode(0o644, "u+x").unwrap(), 0o744);
    assert_eq!(Chmod::apply_mode(0o755, "go-w").unwrap(), 0o755);
    assert_eq!(Chmod::apply_mode(0o777, "o-rwx").unwrap(), 0o770);
    assert_eq!(Chmod::apply_mode(0o600, "g=r").unwrap(), 0o640);
    assert_eq!(Chmod::apply_mode(0o600, "640").unwrap(), 0o640);
}

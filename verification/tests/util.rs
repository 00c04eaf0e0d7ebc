use shmy::util::{format_size, process_answer, Answer, InterruptEvent};

/// The formatting that sizes for people follow, computed with floating point.
fn float_format(size: u64) -> String {
    let units = ["B", "K", "M", "G", "T", "P", "E", "Z", "Y"];
    let mut index = 0;
    let mut formatted_size = size as f64;
    while formatted_size >= 1024.0 && index < units.len() - 1 {
        formatted_size /= 1024.0;
        index += 1;
    }
    format!("{:.1} {}", formatted_size, units[index])
}

#[test]
fn format_size_blocks() {
    assert_eq!(format_size(4096, 1024, false), "4");
    assert_eq!(format_size(1023, 1024, false), "0");
    assert_eq!(format_size(12345, 1, false), "12345");
}

#[test]
fn format_size_human() {
    assert_eq!(format_size(0, 1, true), "0.0 B");
    assert_eq!(format_size(1023, 1, true), "1023.0 B");
    assert_eq!(format_size(1024, 1, true), "1.0 K");
    assert_eq!(format_size(1536, 1, true), "1.5 K");
    assert_eq!(format_size(1048576, 1, true), "1.0 M");
    assert_eq!(format_size(u64::MAX, 1, true), float_format(u64::MAX));
}

#[test]
fn format_size_matches_float_formatting() {
    let samples: [u64; 14] = [
        0, 1, 999, 1023, 1024, 1025, 1075, 1126, 1177, 10 * 1024 + 51, 1 << 20, (1 << 30) + 12345,
        123456789012, (1 << 50) + (1 << 45),
    ];
    for s in samples {
        assert_eq!(format_size(s, 1, true), float_format(s), "size {}", s);
    }
    // ties of the one-decimal rounding
    for s in [1024 + 51 + 1, 1024 * 5 / 100 + 1024, 2048 + 256, 3 * 1024 + 128] {
        assert_eq!(format_size(s, 1, true), float_format(s), "size {}", s);
    }
}

#[test]
fn answers() {
    assert!(process_answer("y", false) == Answer::Yes);
    assert!(process_answer("  Yes\n", false) == Answer::Yes);
    assert!(process_answer("n", true) == Answer::No);
    assert!(process_answer("a", true) == Answer::All);
    assert!(process_answer("a", false) == Answer::No);
    assert!(process_answer("Q", true) == Answer::Quit);
    assert!(process_answer("", true) == Answer::No);
    assert!(process_answer("x", true) == Answer::No);
}

#[test]
fn interrupt_flag() {
    let mut e = InterruptEvent::new();
    assert!(!e.is_set());
    e.set();
    assert!(e.is_set());
    e.clear();
    assert!(!e.is_set());
}

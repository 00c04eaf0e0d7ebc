use shmy::expand::{char_index_exec, cut_at_spans};

fn chars(s: &str) -> Vec<char> {
    s.chars().collect()
}

#[test]
fn byte_offsets_become_character_positions() {
    let t = chars("héllo wörld");
    assert_eq!(char_index_exec(&t, 0), 0);
    assert_eq!(char_index_exec(&t, 1), 1);
    // 'é' takes two bytes: byte 3 is the start of the first 'l'
    assert_eq!(char_index_exec(&t, 3), 2);
    assert_eq!(char_index_exec(&t, 13), 11);
    assert_eq!(char_index_exec(&t, 99), 11);
}

#[test]
fn text_is_cut_between_matches_with_groups() {
    let t = chars("héllo wörld");
    // match 1: "éll" = bytes 1..5, group 1 = "ll" bytes 3..5
    // match 2: "ö" = bytes 8..10, group 1 absent
    let spans = vec![
        vec![Some((1usize, 5usize)), Some((3usize, 5usize))],
        vec![Some((8usize, 10usize)), None],
    ];
    let r = cut_at_spans(&t, &spans);
    assert_eq!(r.pieces, vec!["h".to_string(), "o w".to_string(), "rld".to_string()]);
    assert_eq!(r.captures, vec![vec![Some("ll".to_string())], vec![None]]);
}

#[test]
fn no_match_leaves_the_whole_text() {
    let t = chars("abc");
    let r = cut_at_spans(&t, &Vec::new());
    assert_eq!(r.pieces, vec!["abc".to_string()]);
    assert!(r.captures.is_empty());
}

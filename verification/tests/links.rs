use shmy::links::{LinkStep, LinkWalk};

#[test]
fn a_chain_of_links_ends_at_a_path_that_is_none() {
    let mut walk = LinkWalk::new();
    match walk.step("a".to_string(), Some("b".to_string())) {
        LinkStep::Follow(t) => assert_eq!(t, "b"),
        _ => panic!("expected to follow the link"),
    }
    match walk.step("b".to_string(), None) {
        LinkStep::Done(p) => assert_eq!(p, "b"),
        _ => panic!("expected the end of the chain"),
    }
}

#[test]
fn a_link_met_twice_is_a_cycle() {
    let mut walk = LinkWalk::new();
    assert!(matches!(walk.step("a".to_string(), Some("b".to_string())), LinkStep::Follow(_)));
    assert!(matches!(walk.step("b".to_string(), Some("a".to_string())), LinkStep::Follow(_)));
    match walk.step("a".to_string(), Some("b".to_string())) {
        LinkStep::Cycle(m) => assert_eq!(m, "Cyclical symbolic link: a"),
        _ => panic!("expected a cycle"),
    }
}

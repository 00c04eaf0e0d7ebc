use shmy::completions::{suggest, CompletionNode};

fn node(name: &str) -> CompletionNode {
    CompletionNode { name: Some(name.to_string()), text: None, commands: None, subcommands: None, options: None }
}

fn text(t: &str) -> CompletionNode {
    CompletionNode { name: None, text: Some(t.to_string()), commands: None, subcommands: None, options: None }
}

fn command(name: &str, subcommands: Vec<CompletionNode>) -> CompletionNode {
    CompletionNode { subcommands: Some(subcommands), ..node(name) }
}

fn subcommand(name: &str, options: &[&str]) -> CompletionNode {
    CompletionNode { options: Some(options.iter().map(|o| text(o)).collect()), ..node(name) }
}

fn config(commands: Vec<CompletionNode>) -> CompletionNode {
    CompletionNode { name: None, text: None, commands: Some(commands), subcommands: None, options: None }
}

/// commands git (commit, clone) and docker (run, build), without options.
fn git_docker() -> CompletionNode {
    config(vec![
        command("git", vec![node("commit"), node("clone")]),
        command("docker", vec![node("run"), node("build")]),
    ])
}

/// command git with subcommands commit (amend, no-verify) and clone (depth, branch).
fn git_with_options() -> CompletionNode {
    config(vec![command(
        "git",
        vec![subcommand("commit", &["amend", "no-verify"]), subcommand("clone", &["depth", "branch"])],
    )])
}

#[test]
fn test_suggest_empty_input() {
    let config = git_docker();
    // Test that no suggestions are returned for empty input
    let suggestions = suggest(&config, "");
    assert!(suggestions.is_empty());
}

#[test]
fn test_suggest_top_level_command() {
    let config = git_docker();
    // Test that suggestions are returned for top-level commands
    let suggestions = suggest(&config, "git");
    assert_eq!(suggestions, vec!["git commit", "git clone"]);
}

#[test]
fn test_suggest_subcommands_exact_match() {
    let config = git_with_options();
    // Test suggestions for exact subcommand match
    let suggestions = suggest(&config, "git commit");
    assert_eq!(suggestions, vec!["git commit amend", "git commit no-verify"]);

    let suggestions = suggest(&config, "git clone");
    assert_eq!(suggestions, vec!["git clone depth", "git clone branch"]);
}

#[test]
fn test_suggest_subcommands_partial_match() {
    let config = git_with_options();
    // Test partial match for subcommands
    let suggestions = suggest(&config, "git c");
    assert_eq!(suggestions, vec!["git commit", "git clone"]);

    // Test partial match for subcommands with no exact match
    let suggestions = suggest(&config, "git co");
    assert_eq!(suggestions, vec!["git commit"]);
}

#[test]
fn test_suggest_subcommands_partial_option() {
    let config = git_with_options();
    // Test partial match for subcommands with no exact match
    let suggestions = suggest(&config, "git commit a");
    assert_eq!(suggestions, vec!["git commit amend"]);
}

#[test]
fn test_unknown_command() {
    let config = git_docker();
    // Test unknown command, should return an empty vector
    let suggestions = suggest(&config, "unknown");
    assert!(suggestions.is_empty());
}

#[test]
fn test_exhaust_options() {
    let config = config(vec![
        command("git", vec![subcommand("clone", &["--verbose", "--no-hard-links"]), node("commit")]),
        command("docker", vec![node("run"), node("build")]),
    ]);
    let suggestions = suggest(&config, "git clone --verbose --n");
    assert_eq!(suggestions, vec!["git clone --verbose --no-hard-links"]);
}

#[test]
fn suggest_top_level_prefix_and_trimmed_names() {
    let config = config(vec![command(" git ", vec![node("commit")]), command("gitk", vec![]), command("docker", vec![])]);
    // a partial first word lists the commands it begins, without a prefix
    assert_eq!(suggest(&config, "gi"), vec!["git", "gitk"]);
    // names are trimmed; words are split at any white space
    assert_eq!(suggest(&config, "\tgit\u{a0}"), vec!["git commit"]);
}

use shmy::cd::ChangeDir;

fn words(items: &[&str]) -> Vec<String> {
    items.iter().map(|s| s.to_string()).collect()
}

#[test]
fn test_popd_empty_stack() {
    let mut chdir = ChangeDir::new();

    let result = chdir.target("popd", &vec![], "/home/me", "/work");

    assert!(result.is_err());
    assert_eq!(result.unwrap_err(), "popd: directory stack empty".to_string());
}

#[test]
fn test_pushd_and_popd() {
    let mut chdir = ChangeDir::new();
    let initial_dir = "/work/project";
    let new_dir = "/work";

    let result_pushd = chdir.target("pushd", &words(&[new_dir]), "/home/me", initial_dir);
    assert!(result_pushd.is_ok());
    assert_eq!(result_pushd.unwrap(), new_dir);

    let result_popd = chdir.target("popd", &vec![], "/home/me", new_dir);
    assert!(result_popd.is_ok());
    assert_eq!(result_popd.unwrap(), initial_dir);
}

#[test]
fn cd_without_arguments_goes_home() {
    let mut chdir = ChangeDir::new();
    assert_eq!(chdir.target("cd", &vec![], "/home/me", "/tmp"), Ok("/home/me".to_string()));
    assert_eq!(chdir.target("chdir", &vec![], "/home/me", "/tmp"), Ok("/home/me".to_string()));
}

#[test]
fn cd_joins_its_arguments() {
    let mut chdir = ChangeDir::new();
    assert_eq!(chdir.target("cd", &words(&["My", "Documents"]), "/home/me", "/tmp"), Ok("My Documents".to_string()));
    // cd leaves the stack alone
    assert!(chdir.target("popd", &vec![], "/home/me", "/tmp").is_err());
}

#[test]
fn pushd_needs_a_directory() {
    let mut chdir = ChangeDir::new();
    assert_eq!(chdir.target("pushd", &vec![], "/home/me", "/tmp"), Err("pushd: no directory specified".to_string()));
    assert!(chdir.target("popd", &vec![], "/home/me", "/tmp").is_err());
}

#[test]
fn stack_is_last_in_first_out() {
    let mut chdir = ChangeDir::new();
    assert_eq!(chdir.target("pushd", &words(&["b"]), "", "a"), Ok("b".to_string()));
    assert_eq!(chdir.target("pushd", &words(&["c"]), "", "b"), Ok("c".to_string()));
    assert_eq!(chdir.target("popd", &vec![], "", "c"), Ok("b".to_string()));
    assert_eq!(chdir.target("popd", &vec![], "", "b"), Ok("a".to_string()));
    assert!(chdir.target("popd", &vec![], "", "a").is_err());
}

#[test]
fn directory_help() {
    let chdir = ChangeDir::new();
    let help = chdir.flags().help();
    assert_eq!(
        chdir.help_text("cd"),
        format!("Usage: cd [DIR]\nChange the current directory to DIR.\n\nOptions:\n{}", help)
    );
    assert_eq!(
        chdir.help_text("popd"),
        format!("Usage: popd\nPop the top directory from the stack and change to it.\n\nOptions:\n{}", help)
    );
    assert!(help.contains("--follow-links"));
    assert!(help.contains("--help"));
}

use shmy::scope::Scope;
use shmy::value::Value;
use shmy::vars::{shown_names, vars_lines, Vars, VARS_USAGE};

fn scopes() -> (Scope, usize) {
    let mut s = Scope::new();
    s.insert_at(0, "b".to_string(), Value::Int(1));
    s.insert_at(0, "a".to_string(), Value::Str("outer".to_string()));
    let child = s.new_child(0);
    s.insert_at(child, "a".to_string(), Value::Str("inner".to_string()));
    s.insert_at(child, "c".to_string(), Value::Int(-3));
    (s, child)
}

#[test]
fn innermost_variables_by_name() {
    let (s, child) = scopes();
    assert_eq!(vars_lines(&s, child, false), vec!["a=inner", "b=1", "c=-3"]);
    assert_eq!(shown_names(&s, child, false), vec!["a", "b", "c"]);
}

#[test]
fn local_variables_only() {
    let (s, child) = scopes();
    assert_eq!(vars_lines(&s, child, true), vec!["a=inner", "c=-3"]);
    assert_eq!(vars_lines(&s, 0, true), vec!["a=outer", "b=1"]);
}

#[test]
fn vars_help() {
    let v = Vars::new();
    let text = format!("{}{}", VARS_USAGE, v.flags.help());
    assert!(text.starts_with("Usage: vars [-l]\nDisplay variables visible in the current scope.\n\nOptions:\n"));
    assert!(text.contains("--local"));
}

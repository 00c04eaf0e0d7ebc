use shmy::flags::CommandFlags;
use shmy::interp::{CommandError, Host, Interp, Redirect};
use shmy::parser::EvalError;
use shmy::scope::Scope;
use shmy::value::Value;

/// A host that runs a few commands in memory: `echo`, `cat`, `ls`, `cp` (which
/// only checks its arguments) and `basename`; a child shell is another
/// interpreter in the same process.
struct TestHost {
    captures: Vec<String>,
    printed: String,
    input: Option<String>,
    env: Vec<(String, String)>,
    errors: Vec<String>,
    answers: Vec<String>,
}

impl TestHost {
    fn new(input: Option<String>) -> Self {
        TestHost { captures: Vec::new(), printed: String::new(), input, env: Vec::new(), errors: Vec::new(), answers: Vec::new() }
    }

    fn write(&mut self, s: &str) {
        match self.captures.last_mut() {
            Some(top) => top.push_str(s),
            None => self.printed.push_str(s),
        }
    }
}

fn text_of(v: &Value) -> String {
    match v {
        Value::Int(i) => i.to_string(),
        Value::Str(s) => s.clone(),
        Value::Stat(_) => String::new(),
    }
}

fn visible_vars(scope: &Scope, frame: usize) -> Vec<(String, String)> {
    let mut out: Vec<(String, String)> = Vec::new();
    let mut f = Some(frame);
    while let Some(g) = f {
        for v in &scope.frames[g].vars {
            if !out.iter().any(|(n, _)| n == &v.name) {
                out.push((v.name.clone(), text_of(&v.value)));
            }
        }
        f = scope.frames[g].parent;
    }
    out
}

fn cp_flags() -> CommandFlags {
    let mut flags = CommandFlags::new();
    flags.add_flag('?', "help", "Display this help message");
    flags.add_flag('d', "debug", "Show debugging details");
    flags.add_flag('v', "progress", "Show progress bar");
    flags.add_flag('r', "recursive", "Copy directories recursively");
    flags.add_flag('f', "force", "Overwrite without prompting");
    flags.add_flag('i', "interactive", "Prompt before overwrite (default)");
    flags.add_flag('P', "no-dereference", "Ignore symbolic links in SOURCE");
    flags.add(None, "no-hidden", false, "Ignore hidden files");
    flags.add(None, "no-preserve", false, "Do not preserve permissions and time stamps");
    flags
}

impl Host for TestHost {
    fn exec(
        &mut self,
        name: &str,
        args: &Vec<String>,
        _stdout: &Redirect,
        _stderr: &Redirect,
        _scope: &Scope,
        _frame: usize,
    ) -> Result<Value, CommandError> {
        match name {
            "echo" => {
                let line = format!("{}\n", args.join(" "));
                self.write(&line);
                Ok(Value::Int(0))
            }
            "cat" => {
                let text = self.input.take().unwrap_or_default();
                self.write(&text);
                Ok(Value::Int(0))
            }
            "ls" => Ok(Value::Int(0)),
            "env" => {
                let mut text = String::new();
                for (k, v) in &self.env {
                    text.push_str(&format!("{}={}\n", k, v));
                }
                self.write(&text);
                Ok(Value::Int(0))
            }
            "grep" => {
                let input = self.input.take().unwrap_or_default();
                let pattern = args.first().cloned().unwrap_or_default();
                let mut text = String::new();
                for line in input.lines() {
                    if line.contains(&pattern) {
                        text.push_str(line);
                        text.push('\n');
                    }
                }
                self.write(&text);
                Ok(Value::Int(0))
            }
            "basename" => {
                if args.iter().any(|a| a == "-?") {
                    self.write("Usage: basename PATH\nPrint the last component of PATH.\n\nOptions:\n-?, --help     Display this help message\n");
                    return Ok(Value::Int(0));
                }
                if args.iter().any(|a| a == "." || a == "..") {
                    Err(CommandError { message: "Failed to get file name".to_string(), arg: 1 })
                } else {
                    Ok(Value::Int(0))
                }
            }
            "cp" => {
                let mut flags = cp_flags();
                let mut scope = Scope::new();
                match flags.parse(&mut scope, args) {
                    Err(message) => Err(CommandError { message, arg: scope.err_arg() }),
                    Ok(paths) => {
                        if paths.is_empty() {
                            Err(CommandError { message: "Missing source and destination".to_string(), arg: 0 })
                        } else if paths.len() < 2 {
                            Err(CommandError { message: "Missing destination".to_string(), arg: 0 })
                        } else {
                            Ok(Value::Int(0))
                        }
                    }
                }
            }
            _ => Err(CommandError { message: format!("{}: command not found", name), arg: 0 }),
        }
    }

    fn start_capture(&mut self) -> Result<(), String> {
        self.captures.push(String::new());
        Ok(())
    }

    fn end_capture(&mut self) -> String {
        self.captures.pop().unwrap_or_default()
    }

    fn run_child(&mut self, program: &str, input: Option<String>, scope: &Scope, frame: usize) -> Result<(String, i32), String> {
        let mut child = new_interp();
        for (name, value) in visible_vars(scope, frame) {
            child.set_var(name, value);
        }
        let mut host = TestHost::new(input);
        host.env = self.env.clone();
        let r = child.eval_status(program, &mut host);
        let code = if r.is_ok() { 0 } else { 1 };
        Ok((host.printed, code))
    }

    fn print(&mut self, text: &str) {
        self.write(text);
    }

    fn begin_write(&mut self, _path: &str, _append: bool) -> Result<bool, String> {
        Ok(false)
    }

    fn end_write(&mut self) {}

    fn read_input(&mut self) -> Result<String, String> {
        Ok(self.input.take().unwrap_or_default())
    }

    fn interrupted(&mut self) -> bool {
        false
    }

    fn read_script(&mut self, path: &str) -> Result<String, String> {
        match path {
            "sum.my" => Ok("${1} + ${2}".to_string()),
            "count.my" => Ok("\"${#}\"".to_string()),
            "all.my" => Ok("${@}".to_string()),
            "plain.my" => Ok("$1".to_string()),
            _ => Err("No such file or directory".to_string()),
        }
    }

    fn show_error(&mut self, _input: &str, err: &EvalError) {
        self.errors.push(err.to_text());
    }

    fn unset_env(&mut self, name: &str) {
        self.env.retain(|(k, _)| k != name);
    }

    fn read_answer(&mut self, _question: &str) -> Result<String, String> {
        Ok(self.answers.pop().unwrap_or_default())
    }

    fn print_error(&mut self, text: &str) {
        self.errors.push(text.to_string());
    }

    fn terminal_width(&mut self) -> usize {
        40
    }

    fn sync_env(&mut self, scope: &Scope) {
        self.env = scope.frames[0].vars.iter().map(|v| (v.name.clone(), text_of(&v.value))).collect();
    }
}

fn new_interp() -> Interp {
    let mut interp = Interp::new();
    for name in ["echo", "cat", "ls", "cp", "basename", "env", "grep", "eval", "alias", "help", "man"] {
        interp.register_command(name.to_string(), false);
    }
    interp
}

fn eval(input: &str) -> Result<Value, EvalError> {
    let mut interp = new_interp();
    interp.set_var("NO_COLOR".to_string(), "1".to_string());
    let mut host = TestHost::new(None);
    interp.eval_status(input, &mut host)
}

/// Evaluate `input` in a new interpreter that reads its variables from the
/// environment of `host`, as a new shell would.
fn eval_with(host: &mut TestHost, input: &str) -> Result<Value, EvalError> {
    let mut interp = new_interp();
    for (k, v) in host.env.clone() {
        interp.load_var(k, &v);
    }
    interp.set_var("NO_COLOR".to_string(), "1".to_string());
    interp.eval_status(input, host)
}

fn assert_int(input: &str, n: i64) {
    match eval(input) {
        Ok(Value::Int(v)) => assert_eq!(v, n, "input: {}", input),
        Ok(other) => panic!("{}: expected {}, got {:?}", input, n, other),
        Err(e) => panic!("{}: expected {}, got error {}", input, n, e.message),
    }
}

fn assert_str(input: &str, s: &str) {
    match eval(input) {
        Ok(Value::Str(v)) => assert_eq!(v, s, "input: {}", input),
        Ok(other) => panic!("{}: expected {:?}, got {:?}", input, s, other),
        Err(e) => panic!("{}: expected {:?}, got error {}", input, s, e.message),
    }
}

fn assert_err(input: &str, message: &str) {
    match eval(input) {
        Err(e) => assert_eq!(e.message, message, "input: {}", input),
        Ok(v) => panic!("Expected an error for expression '{}', but got Ok({:?})", input, v),
    }
}

fn assert_cmd_ok(input: &str) {
    let mut interp = new_interp();
    let mut host = TestHost::new(None);
    let result = interp.eval_status(input, &mut host);
    match result {
        Ok(Value::Stat(h)) => assert_eq!(interp.status_succeeded(h), Some(true)),
        Ok(other) => panic!("{}: expected a command status, got {:?}", input, other),
        Err(e) => panic!("{}: expected a command status, got error {}", input, e.message),
    }
}

#[test]
fn test_add() {
    assert_int("i = 2; $i + 1", 3);
    assert_str("hello + 0", "hello0");
    assert_str("hello + \" world!\"", "hello world!");
    assert_err("1 + (echo)", "Cannot add number and command status");
    assert_err("(echo) + 1", "Cannot add to command status");
}

#[test]
fn testeval_test_assign() {
    assert_int("i = 3; $i", 3);
}

#[test]
fn testeval_test_assign_chain() {
    assert_int("i = j = 3; $i == $j && $i == 3 && $j == 3", 1);
}

#[test]
fn testeval_test_equals() {
    assert_int("i = 42; $i == 42", 1);
    assert_int("i = 42; $i != 13", 1);
}

#[test]
fn test_gt() {
    assert_int("i = 42; $i > 42", 0);
    assert_int("i = 50; $i > 42", 1);
    assert_int("i = 42; $i >= 42", 1);
}

#[test]
fn testeval_test_if() {
    assert_str("if (42) (My_True) else (My_False);", "My_True");
    assert_str("TEST_VAR = 1; if ($TEST_VAR) (My_True) else (My_False);", "My_True");
    assert_str("TEST_VAR = 0; if ($TEST_VAR == 0) (My_True) else (My_False);", "My_True");
    assert_str("TEST_VAR = 1; if ($TEST_VAR > 0) (My_True) else (My_False);", "My_True");
    assert_str("TEST_VAR = 1; if ($TEST_VAR >= 0) (My_True) else (My_False);", "My_True");
    assert_str("TEST_VAR = -1; if ($TEST_VAR < 0) (My_True) else (My_False);", "My_True");
    assert_str("TEST_VAR = -1; if ($TEST_VAR <= 0) (My_True) else (My_False);", "My_True");
}

#[test]
fn testeval_test_if_no_group() {
    assert_err("i = 1; if $i true", "Parentheses are required around IF body")
}

#[test]
fn testeval_test_else() {
    assert_str("i = 1; if ($i < 0) (Apple) else (Orange)", "Orange");
}

#[test]
fn testeval_test_else_no_if() {
    assert_err("else fail", "ELSE without IF")
}

#[test]
fn testeval_test_else_no_group() {
    assert_err("i = 1; if $i (1) else 0", "Parentheses are required around ELSE body")
}

#[test]
fn testeval_test_for() {
    assert_str("i = \"\"; for j in a b c d; ($i = $i + $j);", "abcd");
}

#[test]
fn testeval_test_for_tilde() {
    let mut interp = new_interp();
    interp.set_var("HOME".to_string(), "abc".to_string());
    let mut host = TestHost::new(None);
    let result = interp.eval_status("for i in ~/foo; ($i)", &mut host);
    assert!(matches!(result, Ok(ref v) if text_of(v) == "abc/foo"));
}

#[test]
fn testeval_test_for_no_group() {
    assert_err("for i in _; hello", "Parentheses are required around FOR body")
}

#[test]
fn test_for_with_expr_args() {
    assert_str(
        "acc = \"\"; x = 3; for i in x ($x + 2) (2 - $x * 2) y; ($acc = $acc + _ + $i)",
        "_x_5_-4_y",
    );
}

#[test]
fn test_for_slash() {
    assert_str("for i in /; ($i)", "/");
}

#[test]
fn test_break_for() {
    assert_int("for i in 0 1 2 3 4 5 6 8 9; ($i; if ($i >= 5) (break))", 5);
}

#[test]
fn test_continue_for() {
    assert_int("for i in 0 1 2 3 4 5 6 8 9; (echo $i; if ($i < 5) (continue); $i)", 9);
}

#[test]
fn test_break_while() {
    assert_int("i = 0; while ($i < 10) ($i = $i + 1; if ($i >= 5) (break))", 5);
}

#[test]
fn test_continue_while() {
    assert_int(
        "i = 0; j = 0; while ($i < 10) ($i = $i + 1; if ($i > 5) (continue); $j = $j + 1); $i - $j",
        5,
    );
}

#[test]
fn testeval_test_while() {
    assert_int("i = 3; j = 0; while ($i > 0) ($i = $i - 1; $j = $j + 1)", 3);
    // nested loops
    assert_int(
        "i = 5; while ($i > 0) (j = $i; $i = $i - 1; k = $j; while ($j > 1) ($j = $j - 1); $k)",
        1,
    );
}

#[test]
fn testeval_test_while_no_group() {
    assert_err("while (1) hello", "Parentheses are required around WHILE body")
}

#[test]
fn testeval_test_var_subst() {
    assert_str("TESTVAR=/tmp/foobar/baz/bam; $TESTVAR", "/tmp/foobar/baz/bam");
    assert_str("TESTVAR=/tmp/foobar/baz/bam; ${TESTVAR}", "/tmp/foobar/baz/bam");
    assert_str("TESTVAR=/tmp/foobar/baz/bam; aaa${TESTVAR}bbb", "aaa/tmp/foobar/baz/bambbb");
    assert_str("TESTVAR=/tmp/foobar/baz/bam; aaa${TESTVAR/.a/}", "aaa/tmp/foor/z/m");
    assert_str("TESTVAR=\"/tmp/f  bar/baz/bam\"; \"${TESTVAR/ +/_}\"", "/tmp/f_bar/baz/bam");
    assert_str("TESTVAR=/tmp/foobar.txt; \"${TESTVAR/(.txt)/\\\\1.tmp}\"", "/tmp/foobar.txt.tmp");
    assert_str("NAME=\"John Doe\"; \"${NAME}\"", "John Doe");
    assert_str("GREETING=\"Hello, World!\"; \"$GREETING\"", "Hello, World!");
    assert_str("NAME=\"John Doe\"; \"${NAME/John/Jane}\"", "Jane Doe");
    assert_str("GREETING=\"Hello, World!\"; \"${GREETING/World/Universe}\"", "Hello, Universe!");
    assert_str("NAME=\"John Doe\"; \"${NAME/[aeiou]/X}\"", "JXhn DXX");
    assert_str("NAME=\"John Doe\"; \"${NAME/(\\\\w+) (\\\\w+)/\\\\2, \\\\1}\"", "Doe, John");
    assert_str(
        "GREETING=\"Hello, World!\"; \"${GREETING/(Hello), (World)!/\\\\2 says \\\\1}\"",
        "World says Hello",
    );
    assert_str("\"${UNDEFINED_VAR}\"", "$UNDEFINED_VAR");
    assert_str("\"${UNDEFINED_VAR/foo/bar}\"", "$UNDEFINED_VAR");
    assert_str("$UNDEFINED", "$UNDEFINED");
    assert_str("foo=\"blah blah\"; bar = hu; ${foo/bla/$bar}", "huh huh");
}

#[test]
fn test_command_error_handling() {
    assert_err("cp", "Missing source and destination");
    assert_int("if (cp)()", 0);
    assert_int("if (cp)() else (-1)", -1);
    assert_int("if ((cp))()", 0);
    assert_int("if (!(cp))(123)", 123);
    assert_int("if ((echo Hello; cp x))() else (-1)", -1);
    assert_err("if (cp; echo Ok)() else ()", "Missing source and destination");
    assert_str("if (cp)() else (fail)", "fail");
    assert_cmd_ok("for i in (if(cp)(); foo); (echo $i)");
    assert_err("while (1) (cp x; break)", "Missing destination");
    assert_int("while (1) (if (cp)() else (-1); break)", -1);
}

#[test]
fn test_status_as_arg() {
    assert_err("for i in (cp); ()", "Missing source and destination");
    assert_err("for i in (cp); (echo $i)", "Missing source and destination");
    assert_err("for i in (cp --bug); ()", "Unknown flag: --bug");
    assert_err("for i in (echo ok) foo; (echo $i)", "Command status argument is not allowed");
}

#[test]
fn test_mul() {
    assert_err("x = 2; y = 3; x * y", "Cannot multiply strings");
    assert_int("x = 2; y = 3; $x * $y", 6);
    assert_err("x * 2", "Cannot multiply string by number");
    assert_err("2 * x", "Cannot multiply number by string");
    assert_err("(echo) * 2", "Cannot multiply command statuses");
}

#[test]
fn test_arithmetic() {
    assert_int("2+2", 4);
    assert_int("1 - 2 * 2 + 3", 0);
}

#[test]
fn test_error() {
    assert_str("if (echo Hello && cp x) () else ($__errors)", "cp x: Missing destination");
    assert_str(
        "if (!(0 || cp -x || cp)) ($__errors)",
        "cp -x: Unknown flag: -x\ncp: Missing source and destination",
    );
}

#[test]
fn test_erase() {
    assert_int("x = 123; $x = ", 123);
    assert_err("x = 123; $x = ; $x = 0", "Variable not found: $x");
}

#[test]
fn test_logical_or_error() {
    assert_str("(basename . || echo $__errors) | x; $x", "basename .: Failed to get file name");
}

#[test]
fn test_pipeline_rewrite() {
    assert_str("echo World | (echo Hello; cat) | cat | x; $x", "Hello\nWorld");
}

#[test]
fn test_status_and() {
    assert_err("(echo Hello && cp x && ls .)", "Missing destination");
}

#[test]
fn test_status_or() {
    // Expect the error of the last of any that failed
    assert_err("(0 || cp -x || cp)", "Missing source and destination");
    assert_str(
        "if (0 || cp -x || cp) (ok) else ($__errors)",
        "cp -x: Unknown flag: -x\ncp: Missing source and destination",
    );
}

#[test]
fn test_negated_status() {
    assert_str(
        "if (!(0 || cp -x || cp)) ($__errors)",
        "cp -x: Unknown flag: -x\ncp: Missing source and destination",
    );
}

#[test]
fn test_dash_parse() {
    assert_str("echo ---Hello--- | x; $x", "---Hello---");
}

#[test]
fn test_pass_vars_thru_pipes() {
    assert_int("i = 2; echo hello | echo $i | x; $x", 2);
}

#[test]
fn test_hash_tag() {
    assert_str("x = hey#world; $x", "hey");
    assert_str("x = \"hey#world\"; $x", "hey#world");
}

#[test]
fn test_raw_strings() {
    assert_str("r\"(_;)( \" )\"", "_;)( \" ");
}

#[test]
fn test_trailing_equals() {
    assert_err("FOO=", "Variable expected on left hand-side of assignment");
}

#[test]
fn test_escape_unicode() {
    assert_str("\"\\u{1b}\"", "\x1b");
}

#[test]
fn test_invalid_escapes() {
    assert_err("\"\\u{1b\"", "Invalid unicode escape sequence");
    assert_err("\"\\uac\"", "Invalid unicode escape sequence");
    assert_err("\"\\u{x}\"", "Invalid unicode escape sequence");
    assert_err("\"\\xyz\"", "Invalid hex escape sequence");
    assert_err("\"\\xabc", "Unbalanced quotes");
}

#[test]
fn tests_test_assign() {
    assert_int("i = 3; $i", 3);
}

#[test]
fn tests_test_assign_chain() {
    assert_int("i = j = 3; $i == $j && $i == 3 && $j == 3", 1);
}

#[test]
fn tests_test_equals() {
    assert_int("i = 42; $i == 42", 1);
}

#[test]
fn tests_test_else() {
    assert_str("i = 1; if ($i < 0) (Apple) else (Orange)", "Orange");
}

#[test]
fn tests_test_else_no_if() {
    assert_err("else fail", "ELSE without IF")
}

#[test]
fn tests_test_for() {
    assert_str("i = \"\"; for j in a b c d; ($i = $i + $j)", "abcd");
}

#[test]
fn tests_test_for_tilde() {
    let mut interp = new_interp();
    interp.set_var("HOME".to_string(), "abc".to_string());
    let mut host = TestHost::new(None);
    let result = interp.eval_status("for i in ~/foo; ($i)", &mut host);
    assert!(matches!(result, Ok(ref v) if text_of(v) == "abc/foo"));
}

#[test]
fn tests_test_for_no_group() {
    assert_err("for i in _; hello", "Parentheses are required around FOR body")
}

#[test]
fn tests_test_while() {
    assert_int("i = 3; j = 0; while ($i > 0) ($i = $i - 1; $j = $j + 1)", 3);
}

#[test]
fn tests_test_while_no_group() {
    assert_err("while (1) hello", "Parentheses are required around WHILE body")
}

fn expect_int(r: Result<Value, EvalError>, n: i64) {
    match r {
        Ok(Value::Int(v)) => assert_eq!(v, n),
        Ok(other) => panic!("expected {}, got {:?}", n, other),
        Err(e) => panic!("expected {}, got error {}", n, e.message),
    }
}

fn expect_str(r: Result<Value, EvalError>, s: &str) {
    match r {
        Ok(Value::Str(v)) => assert_eq!(v, s),
        Ok(other) => panic!("expected {:?}, got {:?}", s, other),
        Err(e) => panic!("expected {:?}, got error {}", s, e.message),
    }
}

#[test]
fn test_export() {
    let mut host = TestHost::new(None);
    expect_int(eval_with(&mut host, "eval --export \"FOO=123\"; $FOO"), 123);
    // Expect value to be preserved across evals.
    expect_int(eval_with(&mut host, "$FOO"), 123);
    // Expect to find it in the environment
    expect_str(eval_with(&mut host, "env | grep FOO | bar; $bar"), "FOO=123");
    // Erase it
    expect_int(eval_with(&mut host, "$FOO ="), 123);
    // Should be gone from the env.
    expect_str(eval_with(&mut host, "env | grep FOO | bar; $bar"), "");
    // Should not be found (not expanded)
    expect_str(eval_with(&mut host, "$FOO"), "$FOO");
}

#[test]
fn eval_command_shows_each_value() {
    let mut host = TestHost::new(None);
    let r = eval_with(&mut host, "eval \"1 + 2\" \"x = 5\" \"echo hi\"");
    assert!(matches!(r, Ok(Value::Stat(_))));
    // the status of a command that nothing checked gives the command's own result
    assert_eq!(host.printed, "3\n5\nhi\n0\n");
}

#[test]
fn eval_command_quiet_and_unexported() {
    let mut host = TestHost::new(None);
    let r = eval_with(&mut host, "eval --quiet \"y = 7\"; $y");
    expect_str(r, "$y");
    assert_eq!(host.printed, "");
    assert!(host.env.is_empty());
}

#[test]
fn eval_command_error_stops() {
    let mut host = TestHost::new(None);
    let r = eval_with(&mut host, "eval \"1 + 1\" \"2 +\" \"3\"");
    match r {
        Err(e) => assert_eq!(e.message, "Error evaluating '2 +'"),
        Ok(v) => panic!("expected an error, got {:?}", v),
    }
    assert_eq!(host.printed, "2\n");
    assert_eq!(host.errors.len(), 1);
}

#[test]
fn eval_command_source_arguments() {
    let mut host = TestHost::new(None);
    assert!(eval_with(&mut host, "eval --source sum.my 40 2").is_ok());
    assert!(eval_with(&mut host, "eval --source count.my a b c").is_ok());
    assert!(eval_with(&mut host, "eval --source all.my a b").is_ok());
    // only a name that starts with a letter or `_` expands without braces
    assert!(eval_with(&mut host, "eval --source plain.my a").is_ok());
    assert_eq!(host.printed, "42\n3\nall.my a b\n$1\n");
}

#[test]
fn eval_command_missing_script() {
    let mut host = TestHost::new(None);
    match eval_with(&mut host, "eval --source nothing.my") {
        Err(e) => assert_eq!(e.message, "nothing.my: No such file or directory"),
        Ok(v) => panic!("expected an error, got {:?}", v),
    }
}

#[test]
fn eval_command_help() {
    let mut host = TestHost::new(None);
    assert!(eval_with(&mut host, "eval --help").is_ok());
    assert!(host.printed.starts_with("Usage: eval EXPR...\n"));
    assert!(host.printed.contains("--export"));
    assert!(host.printed.contains("Without quotes"));
}

#[test]
fn eval_command_unknown_flag() {
    let mut host = TestHost::new(None);
    assert!(eval_with(&mut host, "eval --bogus \"1\"").is_err());
}

#[test]
fn error_text_has_location() {
    let e = EvalError::new(shmy::lexer::Location { line: 3, col: 14 }, "Unexpected end of input");
    assert_eq!(e.to_text(), "3:14: Unexpected end of input");
}

/// An interpreter that answers yes to every question, as the alias tests set up.
fn alias_setup() -> (Interp, TestHost) {
    let mut interp = new_interp();
    interp.set_var("NO_COLOR".to_string(), "1".to_string());
    interp.set_var("NO_CONFIRM".to_string(), "1".to_string());
    (interp, TestHost::new(None))
}

fn strs(v: &[&str]) -> Vec<String> {
    v.iter().map(|s| s.to_string()).collect()
}

#[test]
fn test_add_alias() {
    let (mut interp, _host) = alias_setup();
    let name = "la";
    interp.register_alias(name.to_string(), strs(&["ls", "-al"]));
    assert!(interp.get_command(name));
}

#[test]
fn test_remove_alias() {
    let (mut interp, mut host) = alias_setup();
    let name = "la";
    interp.register_alias(name.to_string(), strs(&["ls", "-al"]));
    let result = interp.remove_alias(name, 0, &mut host);
    assert!(result.is_ok());
    assert!(!interp.get_command(name));
}

#[test]
fn test_remove_non_existent_alias() {
    let (mut interp, mut host) = alias_setup();
    let name = "non_existent".to_string();
    let result = interp.remove_alias(&name, 0, &mut host);
    assert!(result.is_err());
    assert_eq!(result.err().unwrap(), name + ": alias not found");
}

#[test]
fn test_remove_with_confirmation() {
    let (mut interp, mut host) = alias_setup();
    let name = "ll";
    interp.register_alias(name.to_string(), strs(&["ls", "-al"]));
    let result = interp.remove_alias(name, 0, &mut host);
    assert!(result.is_ok());
    assert!(!interp.get_command(name));
}

#[test]
fn test_exec_with_list_flag() {
    let (mut interp, mut host) = alias_setup();
    interp.register_alias("la".to_string(), strs(&["ls", "-al"]));
    let result = interp.eval_status("alias --list", &mut host);
    assert!(result.is_ok());
    assert_eq!(host.printed, "la: ls -al\n");
}

#[test]
fn alias_runs_with_raw_arguments() {
    let (mut interp, mut host) = alias_setup();
    assert!(interp.eval_status("alias hi \"echo hello\"", &mut host).is_ok());
    assert!(interp.eval_status("hi \"big world\"", &mut host).is_ok());
    // the alias goes through `eval`, which shows the command's unchecked result
    assert_eq!(host.printed, "hello big world\n0\n");
}

#[test]
fn alias_restores_the_command_it_replaced() {
    let (mut interp, mut host) = alias_setup();
    interp.register_alias("echo".to_string(), strs(&["ls"]));
    assert!(interp.remove_alias("echo", 0, &mut host).is_ok());
    assert!(interp.eval_status("echo back", &mut host).is_ok());
    assert_eq!(host.printed, "back\n");
    // removing something that is not an alias
    assert_eq!(interp.remove_alias("cat", 0, &mut host).err(), Some("cat: is not an alias".to_string()));
}

#[test]
fn alias_asks_before_replacing_and_removing() {
    let mut interp = new_interp();
    let mut host = TestHost::new(None);
    host.answers = vec!["n".to_string()];
    assert!(interp.eval_status("alias echo \"ls\"", &mut host).is_ok());
    // declined: echo is still the command
    assert!(interp.eval_status("echo kept", &mut host).is_ok());
    assert_eq!(host.printed, "kept\n");
    host.answers = vec!["y".to_string()];
    assert!(interp.eval_status("alias zz \"echo z\"", &mut host).is_ok());
    host.answers = vec!["no".to_string()];
    assert!(interp.eval_status("alias --remove zz", &mut host).is_ok());
    assert!(interp.get_command("zz"));
}

#[test]
fn alias_command_errors() {
    let (mut interp, mut host) = alias_setup();
    let err = |r: Result<Value, EvalError>| match r {
        Err(e) => e.message,
        Ok(v) => panic!("expected an error, got {:?}", v),
    };
    assert_eq!(err(interp.eval_status("alias", &mut host)), "NAME not specified");
    assert_eq!(err(interp.eval_status("alias x", &mut host)), "EXPRESSION not specified");
    assert_eq!(err(interp.eval_status("alias --remove", &mut host)), "Please specify an alias to remove");
}

#[test]
fn help_without_arguments_shows_the_manual() {
    let mut interp = new_interp();
    let mut host = TestHost::new(None);
    assert!(interp.eval_status("help", &mut host).is_ok());
    assert!(host.printed.starts_with("NAME\n    shmy - Lightweight command line interpreter\n"));
    assert!(host.printed.contains("BUILT-IN COMMANDS\n"));
    assert!(host.printed.contains("basename"));
    assert!(host.printed.ends_with("AUTHOR\n    Written by Cristian Vlasceanu\n\n"));
}

#[test]
fn help_for_exit_and_echo() {
    let mut interp = new_interp();
    let mut host = TestHost::new(None);
    assert!(interp.eval_status("help exit echo", &mut host).is_ok());
    assert_eq!(host.printed, format!("{}\n{}\n", shmy::help::EXIT_HELP, shmy::help::ECHO_HELP));
}

#[test]
fn help_for_unknown_command() {
    let mut interp = new_interp();
    let mut host = TestHost::new(None);
    let err = interp.eval_status("man no_such_command_here", &mut host).unwrap_err();
    assert_eq!(err.message, "Unknown command: no_such_command_here");
}

#[test]
fn help_for_builtin_uses_its_own_help() {
    let mut interp = new_interp();
    let mut host = TestHost::new(None);
    assert!(interp.eval_status("help basename", &mut host).is_ok());
    assert_eq!(
        host.printed,
        "NAME\n    basename\n\nSYNOPSIS\n    Usage: basename PATH\n\nDESCRIPTION\n    Print the last component of PATH.\n\nOPTIONS\n    -?, --help     Display this help message\n\n"
    );
}

#[test]
fn help_of_help() {
    let mut interp = new_interp();
    let mut host = TestHost::new(None);
    assert!(interp.eval_status("help -?", &mut host).is_ok());
    assert!(host.printed.starts_with("Usage: help [COMMAND]\nDisplay information about the interpreter or specific commands.\n\nOptions:\n"));
}

#[test]
fn test_int_div_and_mod() {
    assert_int("7 // 2", 3);
    assert_int("7 % 2", 1);
    assert_int("-7 // 2", -3);
    assert_int("-7 % 2", -1);
    assert_err("7 // 0", "Division by zero");
    assert_err("7 % 0", "Division by zero");
}

#[test]
fn test_empty_input() {
    assert_int("", 0);
}

#[test]
fn test_leading_right_paren() {
    assert_err(")", "Unmatched right parenthesis");
    assert_err("else fail", "ELSE without IF");
}

#[test]
fn removing_an_alias_brings_back_the_alias_it_replaced() {
    let (mut interp, mut host) = alias_setup();
    interp.register_alias("hi".to_string(), strs(&["echo", "first"]));
    interp.register_alias("hi".to_string(), strs(&["echo", "second"]));
    assert!(interp.remove_alias("hi", 0, &mut host).is_ok());
    assert!(interp.eval_status("hi", &mut host).is_ok());
    assert_eq!(host.printed, "first\n0\n");
}

#[test]
fn assigning_a_command_status_is_refused() {
    let mut interp = new_interp();
    interp.set_var("NO_COLOR".to_string(), "1".to_string());
    let mut host = TestHost::new(None);
    match interp.eval_status("x = ls", &mut host) {
        Err(e) => assert!(e.message.starts_with("Assignment of command status to variable is not allowed.")),
        Ok(v) => panic!("expected an error, got {:?}", v),
    }
    assert!(interp.global_scope().lookup_from_frame(0, "x").is_none());
    assert!(interp.global_scope().lookup_from_frame(1, "x").is_none());
}

#[test]
fn quotient_and_remainder_give_back_the_dividend() {
    let num = |n: i64| if n < 0 { format!("0 - {}", -n) } else { n.to_string() };
    for (i, j) in [(7i64, 2i64), (-7, 2), (7, -2), (-7, -2), (0, 5), (i64::MAX, 3)] {
        let setup = format!("i = {}; j = {}; ", num(i), num(j));
        let q = match eval(&format!("{}$i // $j", setup)) {
            Ok(Value::Int(q)) => q,
            other => panic!("{} // {}: {:?}", i, j, other.map_err(|e| e.message)),
        };
        let r = match eval(&format!("{}$i % $j", setup)) {
            Ok(Value::Int(r)) => r,
            other => panic!("{} % {}: {:?}", i, j, other.map_err(|e| e.message)),
        };
        assert_eq!(q * j + r, i);
        assert!(r.abs() < j.abs());
    }
}

#[test]
fn a_quoted_word_evaluates_to_its_value() {
    assert_str("\"hello world\"", "hello world");
    assert_int("\"42\"", 42);
    assert_str("\"$NO_COLOR and more\"", "1 and more");
    assert_err("\"BREAK\"", "BREAK outside loop");
}

#[test]
fn outcomes_of_logical_operators_on_plain_values() {
    let mut interp = Interp::new();
    assert!(!interp.status_failed(&Value::Int(0)));
    assert!(matches!(interp.and_outcome(Value::Int(1), Value::Int(2), 0), Value::Int(1)));
    assert!(matches!(interp.and_outcome(Value::Int(1), Value::Int(0), 0), Value::Int(0)));
    assert!(matches!(interp.or_outcome(Value::Int(0), 0), Value::Int(0)));
    assert!(matches!(interp.or_outcome(Value::Str("x".to_string()), 0), Value::Int(1)));
    assert!(interp.value_as_bool(&Value::Int(5), 0));
    assert!(!interp.value_as_bool(&Value::Int(0), 0));
}

#[test]
fn an_unchecked_result_that_is_no_status_passes_through() {
    let mut interp = Interp::new();
    assert!(matches!(interp.check_result(Ok(Value::Int(7)), true), Ok(Value::Int(7))));
}

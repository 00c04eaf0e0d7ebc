//! The text of `help`: the manual of the interpreter, the table of built-in
//! commands, and the manual page made from a command's own help output.
use vstd::prelude::*;
use crate::registry::names_of;
use crate::interp::Interp;
use crate::text::{
    chars_of, concat, concat3, lines_of, push_str, spec_trim, str_eq, string_of, text_lines, texts, trim, vec_eq,
    vec_extend,
};

verus! {

/// The manual of the interpreter, up to the hooks.
pub const INTERPRETER_HELP_HEAD: &'static str = "NAME
    shmy - Lightweight command line interpreter

SYNOPSIS
    shmy [-c COMMAND [ARGS]]
    shmy SCRIPT_FILE

DESCRIPTION
    shmy is a simple, lightweight command line interpreter with a few Unix-like built-in commands.
    It supports variable assignment and evaluation; conditional statements; loops; arithmetic and
    logical operations; command execution evaluation; output redirection and pipes.

EXPRESSIONS
    Variable Assignment and Evaluation
        Example: i = 5; echo $i
    Conditional Statements
        Example: if ($i > 0) (echo \"i is positive\") else (echo \"i is not positive\")
    Loops
        Example: while ($i > 0) (echo $i; $i = $i - 1)
        Example: for f in *.rs; (echo $f; ls -l $f)

    Arithmetic Operators
        '+': add, '-': subtract, '/': divide, '//': divide integers, '%': modulo, '*': multiply, '^': exponent
    Logical Operators
        '||': or, '&&': and

COMMAND EXECUTION
    A command evaluates to true if it succeeds (exit code 0) and false otherwise.
    Errors from failed commands are stored in the special variable $__errors.
    If a command fails and its status is not evaluated, execution stops.

REDIRECTS
    Output to file: <command> => <file path>
    Append to file: <command> =>> <file path>

PIPES
    Pipe output between commands:
        <expression> | <expression>
    Example:
        ls -al | (echo \"\\t\\tHEADER\"; cat; echo \"\\t\\tFOOTER\")

COMMAND HISTORY
    The command history is saved in ~/.shmy/history.txt
    The maximum number of entries saved in the history is controlled by $HISTFILESIZE
    $HISTFILESIZE needs to be set in the environment before the shell starts.
    Modifying $HISTFILESIZE from a shell session has no effect (this behavior may change).

PROMPT CUSTOMIZATION
    The prompt can be customized using escape sequences prefixed with '\\'.
    Supported sequences:
        \\b  - Value of $GIT_BRANCH variable, if defined
        \\u  - Insert the current username
        \\H  - Insert the full hostname
        \\h  - Insert the short hostname (up to the first dot)
        \\w  - Insert the current working directory
        \\$  - Insert '#' if the user is root, otherwise '$'

    Examples:
        $__prompt = \\u@\\h:\\w\\_
        $__prompt = \"\\\\u@\\h|\\\\w\\\\$ \"

SPECIAL VARIABLES
    Redirect stdout: $__stdout
    Redirect stderr: $__stderr
    Examples:
        __stderr = NULL; ls
        __stderr = log.txt; ls -al
        __stderr = __stdout; ls -al /
        __stdout = some/path/file.txt; __stderr = 1; ls -al

";

/// The section on hooks.
pub const HOOKS_HELP: &'static str = "HOOKS
    The shell supports a 'hooks' feature, which allows the execution of custom actions
    upon specific events. These hooks are configured using a config.yaml file, located
    in ~/.shmy/hooks. Each hook is triggered by an event such as changing directories.

    Configuration Example:
    hooks:
      on_change_dir:
      - action: \"detect_git_branch.my\"

    This example defines a hook that runs the script detect_git_branch.my when the
    on_change_dir event occurs.

    Supported Events:
        on_change_dir: Executes whenever the working directory changes.
        on_start_eval_loop: Executes when the evaluation loop of the shell starts.
        on_external_command: Executes after successful completion of an external command.

    Hook Script Example:
    if $__interactive (
        __stderr = NULL;  # Suppress git errors
        if (git branch --show-current | b && eval -x \"GIT_BRANCH = $b\") ()
        else (if (defined GIT_BRANCH) ($GIT_BRANCH=));
    )

    This script updates the GIT_BRANCH environment variable based on the current
    Git branch or clears it if no branch is found.

";

/// The end of the manual of the interpreter, after the table of commands.
pub const INTERPRETER_HELP_TAIL: &'static str = "SEE ALSO
    help [COMMAND]
    https://github.com/cristivlas/shmy

AUTHOR
    Written by Cristian Vlasceanu

";

/// `n` spaces.
pub open spec fn spaces(n: nat) -> Seq<char> {
    Seq::new(n, |i: int| ' ')
}

/// `s` padded with spaces to at least `w` characters.
pub open spec fn pad_to(s: Seq<char>, w: nat) -> Seq<char> {
    if s.len() >= w {
        s
    } else {
        s + spaces((w - s.len()) as nat)
    }
}

/// The length of the longest name (0 for none).
pub open spec fn max_len(names: Seq<Seq<char>>) -> nat
    decreases names.len(),
{
    if names.len() == 0 {
        0
    } else {
        let m = max_len(names.drop_last());
        if names.last().len() > m {
            names.last().len()
        } else {
            m
        }
    }
}

/// The table of names from the `k`-th on, in `ncol` columns of width `colw`,
/// each row indented; `col` names are in the current row.
pub open spec fn layout_from(names: Seq<Seq<char>>, k: int, col: nat, ncol: nat, colw: nat, indent: nat) -> Seq<char>
    decreases names.len() - k,
{
    if k < 0 || k >= names.len() {
        if col != 0 {
            seq!['\n']
        } else {
            Seq::empty()
        }
    } else {
        let pre = if col == 0 {
            spaces(indent)
        } else {
            Seq::empty()
        };
        let cell = pad_to(names[k], colw);
        if col + 1 >= ncol {
            pre + cell + seq!['\n'] + layout_from(names, k + 1, 0, ncol, colw, indent)
        } else {
            pre + cell + layout_from(names, k + 1, col + 1, ncol, colw, indent)
        }
    }
}

/// The table of built-in commands: a heading (if any), the names in as many
/// columns (each as wide as the longest name plus `spacing`) as fit in `width`
/// less the indentation, and an empty line.
pub open spec fn commands_layout(names: Seq<Seq<char>>, indent: nat, spacing: nat, width: nat) -> Seq<char> {
    let max_width: nat = if width >= indent { (width - indent) as nat } else { 0 };
    let colw = max_len(names) + spacing;
    let ncol = max_width / colw;
    let head = if names.len() > 0 {
        "BUILT-IN COMMANDS\n"@
    } else {
        Seq::empty()
    };
    head + layout_from(names, 0, 0, ncol, colw, indent) + seq!['\n']
}

/// `n` spaces, executable.
fn push_spaces(out: &mut Vec<char>, n: usize)
    ensures
        final(out)@ == old(out)@ + spaces(n as nat),
{
    let mut i: usize = 0;
    while i < n
        invariant
            i <= n,
            out@ == old(out)@ + spaces(i as nat),
        decreases n - i,
    {
        out.push(' ');
        i += 1;
        assert(out@ =~= old(out)@ + spaces(i as nat));
    }
}

/// The length of the longest of `names` (0 for none).
pub fn longest_name(names: &Vec<String>) -> (res: usize)
    ensures
        res == max_len(names_of(names@)),
{
    let ghost nv = names_of(names@);
    let mut m: usize = 0;
    let mut i: usize = 0;
    while i < names.len()
        invariant
            i <= names.len(),
            nv == names_of(names@),
            m == max_len(nv.take(i as int)),
        decreases names.len() - i,
    {
        let c = chars_of(names[i].as_str());
        assert(nv.take(i + 1).drop_last() =~= nv.take(i as int));
        if c.len() > m {
            m = c.len();
        }
        i += 1;
    }
    assert(nv.take(names.len() as int) =~= nv);
    m
}

/// The table of built-in commands (see [`commands_layout`]).
pub fn available_commands(names: &Vec<String>, indent: usize, spacing: usize, width: usize) -> (res: String)
    requires
        max_len(names_of(names@)) + spacing > 0,
        max_len(names_of(names@)) + spacing < usize::MAX,
    ensures
        res@ == commands_layout(names_of(names@), indent as nat, spacing as nat, width as nat),
{
    let ghost nv = names_of(names@);
    let mut m: usize = 0;
    let mut i: usize = 0;
    let mut cells: Vec<Vec<char>> = Vec::new();
    while i < names.len()
        invariant
            i <= names.len(),
            nv == names_of(names@),
            m == max_len(nv.take(i as int)),
            cells.len() == i,
            forall|j: int| 0 <= j < i ==> #[trigger] cells@[j]@ == nv[j],
            max_len(nv) + spacing < usize::MAX,
        decreases names.len() - i,
    {
        let c = chars_of(names[i].as_str());
        assert(nv.take(i + 1).drop_last() =~= nv.take(i as int));
        if c.len() > m {
            m = c.len();
        }
        cells.push(c);
        i += 1;
    }
    assert(nv.take(names.len() as int) =~= nv);
    let colw = m + spacing;
    let max_width = if width >= indent { width - indent } else { 0 };
    let ncol = max_width / colw;
    let mut out: Vec<char> = Vec::new();
    if names.len() > 0 {
        let h = chars_of("BUILT-IN COMMANDS\n");
        vec_extend(&mut out, &h);
    }
    let ghost head = out@;
    let mut col: usize = 0;
    let mut k: usize = 0;
    while k < cells.len()
        invariant
            k <= cells.len(),
            cells.len() == nv.len(),
            forall|j: int| 0 <= j < cells.len() ==> #[trigger] cells@[j]@ == nv[j],
            col < ncol || col == 0,
            out@ + layout_from(nv, k as int, col as nat, ncol as nat, colw as nat, indent as nat)
                == head + layout_from(nv, 0, 0, ncol as nat, colw as nat, indent as nat),
        decreases cells.len() - k,
    {
        let ghost before = out@;
        if col == 0 {
            push_spaces(&mut out, indent);
        }
        let c = &cells[k];
        vec_extend(&mut out, c);
        if c.len() < colw {
            push_spaces(&mut out, colw - c.len());
        }
        assert(out@ =~= before + (if col == 0 { spaces(indent as nat) } else { Seq::empty() }) + pad_to(nv[k as int], colw as nat));
        if col + 1 >= ncol {
            out.push('\n');
            col = 0;
        } else {
            col = col + 1;
        }
        k += 1;
    }
    if col != 0 {
        out.push('\n');
    }
    out.push('\n');
    proof {
        reveal_strlit("BUILT-IN COMMANDS\n");
    }
    string_of(&out)
}

/// The manual of the interpreter, with the table of built-in commands `names`
/// (see [`available_commands`]) laid out for a terminal `width` wide.
pub fn interpreter_help(names: &Vec<String>, width: usize) -> (res: String)
    requires
        max_len(names_of(names@)) + 4 < usize::MAX,
    ensures
        res@ == INTERPRETER_HELP_HEAD@ + HOOKS_HELP@ + commands_layout(names_of(names@), 4, 4, width as nat)
            + INTERPRETER_HELP_TAIL@,
{
    let mut out = chars_of(INTERPRETER_HELP_HEAD);
    let h = chars_of(HOOKS_HELP);
    vec_extend(&mut out, &h);
    let t = chars_of(available_commands(names, 4, 4, width).as_str());
    vec_extend(&mut out, &t);
    let e = chars_of(INTERPRETER_HELP_TAIL);
    vec_extend(&mut out, &e);
    string_of(&out)
}

/// The manual page of `exit`.
pub const EXIT_HELP: &'static str = "NAME
    exit - Exit the command line interpreter

SYNOPSIS
    exit [<exit code>]

DESCRIPTION
    Exit the command line interpreter with an optional exit code.
";

/// The manual page of `echo`.
pub const ECHO_HELP: &'static str = "NAME
    echo - Print arguments to the console

SYNOPSIS
    echo [argument]...

DESCRIPTION
    Print the given arguments to the console.
";

/// The usage of `help` itself, before its options.
pub const HELP_USAGE: &'static str = "Usage: help [COMMAND]
Display information about the interpreter or specific commands.

Options:
";

/// The description part of a manual page, from line `k` of a command's help
/// output on: lines are indented until an empty line; the line `Options:`
/// becomes the heading `OPTIONS` and starts the indentation again.
pub open spec fn description_from(ls: Seq<Seq<char>>, k: int, indent: bool) -> Seq<char>
    decreases ls.len() - k,
{
    if k < 0 || k >= ls.len() {
        Seq::empty()
    } else {
        let line = ls[k];
        let ind = if line.len() == 0 {
            false
        } else {
            indent
        };
        if spec_trim(line) == "Options:"@ {
            "OPTIONS\n"@ + description_from(ls, k + 1, true)
        } else if ind {
            "    "@ + line + "\n"@ + description_from(ls, k + 1, ind)
        } else {
            line + "\n"@ + description_from(ls, k + 1, ind)
        }
    }
}

/// The manual page made of command `name`'s help output: nothing for no
/// output; else its name, its first line as the synopsis, and the other lines
/// as the description.
pub open spec fn help_page_text(name: Seq<char>, output: Seq<char>) -> Seq<char> {
    let ls = text_lines(output);
    if ls.len() == 0 {
        Seq::empty()
    } else {
        "NAME\n    "@ + name + "\n\nSYNOPSIS\n    "@ + ls[0] + "\n\nDESCRIPTION\n"@ + description_from(ls, 1, true)
    }
}

/// The manual page made of command `name`'s help output (see [`help_page_text`]).
pub fn help_page(name: &str, output: &str) -> (res: String)
    ensures
        res@ == help_page_text(name@, output@),
{
    let ls = lines_of(output);
    let ghost lv = texts(ls@);
    if ls.len() == 0 {
        return String::new();
    }
    let mut out = concat3("NAME\n    ", name, "\n\nSYNOPSIS\n    ");
    push_str(&mut out, ls[0].as_str());
    push_str(&mut out, "\n\nDESCRIPTION\n");
    let ghost head = out@;
    proof {
        assert(lv[0] == ls@[0]@);
    }
    let mut indent = true;
    let mut k: usize = 1;
    let options = chars_of("Options:");
    while k < ls.len()
        invariant
            lv == texts(ls@),
            lv == text_lines(output@),
            options@ == "Options:"@,
            1 <= k <= ls.len(),
            out@ + description_from(lv, k as int, indent) == head + description_from(lv, 1, true),
        decreases ls.len() - k,
    {
        let line = chars_of(ls[k].as_str());
        assert(line@ == lv[k as int]);
        if line.len() == 0 {
            indent = false;
        }
        let t = trim(&line);
        if vec_eq(&t, &options) {
            push_str(&mut out, "OPTIONS\n");
            indent = true;
        } else if indent {
            push_str(&mut out, "    ");
            push_str(&mut out, ls[k].as_str());
            push_str(&mut out, "\n");
        } else {
            push_str(&mut out, ls[k].as_str());
            push_str(&mut out, "\n");
        }
        k += 1;
    }
    proof {
        assert(description_from(lv, k as int, indent) =~= Seq::<char>::empty());
        assert(out@ =~= help_page_text(name@, output@));
    }
    out
}

/// Where the manual page of a command comes from.
pub enum HelpSource {
    /// A page written here.
    Page(&'static str),
    /// A program of the system: this message is shown instead of a page.
    External(String),
    /// A built-in command: its page is made from its own help output (see
    /// [`help_page`]), which running it with `-?` prints.
    Run,
}

/// Where the manual page of `command` comes from: `exit` and `echo` have
/// pages of their own; another command is looked up (see
/// [`Interp::get_command`]), an unknown one is an error.
pub fn help_source(interp: &mut Interp, command: &str) -> (res: Result<HelpSource, String>)
    requires
        old(interp).inv(),
    ensures
        final(interp).inv(),
        final(interp).scopes() == old(interp).scopes(),
        final(interp).alias_view() == old(interp).alias_view(),
        final(interp).steps() == old(interp).steps(),
        command@ == "exit"@ || command@ == "echo"@ ==> final(interp).commands() == old(interp).commands(),
        command@ == "exit"@ ==> (res matches Ok(HelpSource::Page(p)) && p@ == EXIT_HELP@),
        command@ == "echo"@ ==> (res matches Ok(HelpSource::Page(p)) && p@ == ECHO_HELP@),
        command@ != "exit"@ && command@ != "echo"@ ==> {
            &&& old(interp).commands()@.dom().contains(command@) ==> final(interp).commands()@ == old(
                interp,
            ).commands()@
            &&& final(interp).commands()@.dom().contains(command@) || final(interp).commands()@ == old(
                interp,
            ).commands()@
            &&& (res is Err <==> !final(interp).commands()@.dom().contains(command@))
            &&& res matches Err(e) ==> e@ == "Unknown command: "@ + command@
            &&& res matches Ok(HelpSource::External(m)) ==> final(interp).commands()@[command@] && m@ == command@
                + " is an external program, try: "@ + command@ + " -h (or --help)"@
            &&& res matches Ok(HelpSource::Run) ==> !final(interp).commands()@[command@]
            &&& res matches Ok(src) ==> !(src is Page)
            &&& final(interp).commands()@.dom().contains(command@) ==> (res matches Ok(src) && (src is External
                <==> final(interp).commands()@[command@]))
        },
{
    proof {
        reveal_strlit("exit");
        reveal_strlit("echo");
        assert("exit"@.len() == 4 && "echo"@.len() == 4);
        assert("exit"@[1] != "echo"@[1]);
    }
    if str_eq(command, "exit") {
        return Ok(HelpSource::Page(EXIT_HELP));
    }
    if str_eq(command, "echo") {
        return Ok(HelpSource::Page(ECHO_HELP));
    }
    if !interp.get_command(command) {
        return Err(concat("Unknown command: ", command));
    }
    match interp.lookup_command(command) {
        Some(true) => {
            let mut m = concat3(command, " is an external program, try: ", command);
            push_str(&mut m, " -h (or --help)");
            Ok(HelpSource::External(m))
        },
        _ => Ok(HelpSource::Run),
    }
}

} // verus!

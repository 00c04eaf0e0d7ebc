//! The evaluator: walks the syntax tree and computes values.
//!
//! A command's status is delayed: a command that fails yields a status, whose
//! error is reported only if nothing checks it (an IF, `&&`, `||`, `!`). What
//! lies outside the language (running commands and programs, output, files) is
//! asked of a [`Host`].
use vstd::prelude::*;
use crate::ast::{Ast, Node, node_frame};
use crate::expand::value_chars;
use crate::lexer::{Location, Op, Token, bare_word, lead_token, quoted_to_end, upper_word};
use crate::ops::{value_compare, value_div, value_int_div, value_mod, value_minus, value_mul, value_neg, value_plus, truthy};
use crate::parser::{EvalError, Jump, Parser};
use crate::alias::{alias_added, alias_removed, alias_spec, copy_alias, copy_strings, AliasEntry, AliasTable};
use crate::registry::Registry;
use crate::help::{help_page, help_source, interpreter_help, longest_name, HelpSource, HELP_USAGE};
use crate::util::{process_answer, Answer};
use crate::scope::Scope;
use crate::text::{
    chars_of, is_prefix, push_words, str_eq, str_eq_vec, string_of, to_owned_string, trim, vec_extend,
    vec_range, concat, concat3, u64_to_string,
};
use crate::value::{Value, value_from_text};
use crate::flags::{CommandFlags, FlagSpec, find_long, lemma_insertion_absent};

verus! {

/// Where a standard stream of a command goes.
pub enum Redirect {
    /// Where it goes already.
    Keep,
    /// Nowhere.
    Null,
    /// Into the other standard stream.
    ToOther,
    /// Into a file (which the host creates, after asking if it exists).
    File(String),
}

/// A command's failure: its message, and the (1-based) position of the
/// argument at fault, or 0.
pub struct CommandError {
    pub message: String,
    pub arg: usize,
}

/// What the evaluator asks of its environment. Nothing is assumed of the
/// answers: the evaluator is verified for whatever comes back.
pub trait Host {
    /// Run command `name` with `args`, its standard streams redirected as given;
    /// `scope` and `frame` are the variables it sees.
    fn exec(
        &mut self,
        name: &str,
        args: &Vec<String>,
        stdout: &Redirect,
        stderr: &Redirect,
        scope: &Scope,
        frame: usize,
    ) -> Result<Value, CommandError>;

    /// From now on, keep standard output instead of showing it.
    fn start_capture(&mut self) -> Result<(), String>;

    /// Stop keeping standard output; returns what was kept.
    fn end_capture(&mut self) -> String;

    /// Run `program` (text of this language) in a new shell process that sees
    /// the variables of `scope` from `frame`, with `input` as its standard input
    /// if given; returns its standard output and exit code.
    fn run_child(&mut self, program: &str, input: Option<String>, scope: &Scope, frame: usize) -> Result<(String, i32), String>;

    /// Show `text` on standard output.
    fn print(&mut self, text: &str);

    /// Send standard output to file `path` (appending, or replacing it, after
    /// asking if it exists); returns false if the user declined.
    fn begin_write(&mut self, path: &str, append: bool) -> Result<bool, String>;

    /// Send standard output back where it went before [`Host::begin_write`].
    fn end_write(&mut self);

    /// Read all of standard input.
    fn read_input(&mut self) -> Result<String, String>;

    /// Was the user's interrupt (Ctrl+C) received?
    fn interrupted(&mut self) -> bool;

    /// The text of the script file at `path` (links followed).
    fn read_script(&mut self, path: &str) -> Result<String, String>;

    /// Show error `err`, met while reading or evaluating `input`, on standard
    /// error, with the line of `input` where it stands.
    fn show_error(&mut self, input: &str, err: &EvalError);

    /// Show `question` and read the line that the user answers.
    fn read_answer(&mut self, question: &str) -> Result<String, String>;

    /// Show `text` on standard error.
    fn print_error(&mut self, text: &str);

    /// The width of the terminal, in characters.
    fn terminal_width(&mut self) -> usize;

    /// Remove variable `name` from the process environment.
    fn unset_env(&mut self, name: &str);

    /// Make the process environment hold the variables of the global scope
    /// (frame 0 of `scope`), and nothing else.
    fn sync_env(&mut self, scope: &Scope);
}

/// The status of a command execution. It is checked once something tests it
/// (or reports its error); negated by `!`.
pub struct Status {
    pub checked: bool,
    pub cmd: String,
    pub negated: bool,
    pub result: Result<Value, EvalError>,
    pub loc: Location,
}

/// The flags of `alias`, in order of their long names.
pub open spec fn alias_flag_specs() -> Seq<FlagSpec> {
    seq![FlagSpec { short: Some('?'), long: "help"@, help: "Display this help message"@, takes_value: false, default_value: None }, FlagSpec { short: Some('l'), long: "list"@, help: "List all aliases"@, takes_value: false, default_value: None }, FlagSpec { short: Some('r'), long: "remove"@, help: "Remove an existing alias"@, takes_value: false, default_value: None }]
}

/// How `alias` reads its arguments (forgiving: unknown flags are not errors).
pub open spec fn alias_parse(argv: Seq<String>) -> crate::flags::ParsedAll {
    crate::flags::parse_all_from(
        alias_flag_specs(),
        Map::<Seq<char>, Seq<char>>::empty(),
        0,
        crate::flags::args_view(argv),
        0,
        Seq::empty(),
        false,
        None,
    )
}

/// How `help` reads its arguments: its one flag is `-?`, `--help`.
pub open spec fn help_parse(argv: Seq<String>) -> crate::flags::Parsed {
    crate::flags::parse_from(
        seq![
            FlagSpec {
                short: Some('?'),
                long: "help"@,
                help: "Display this help message"@,
                takes_value: false,
                default_value: None,
            },
        ],
        Map::<Seq<char>, Seq<char>>::empty(),
        0,
        crate::flags::args_view(argv),
        0,
        Seq::empty(),
    )
}

/// Do the scopes of `a` and `b` have the same variables and parents?
spec fn same_vars(a: Scope, b: Scope) -> bool {
    &&& a.frames.len() == b.frames.len()
    &&& forall|g: int| 0 <= g < a.frames.len() ==> #[trigger] b.frames@[g].vars == a.frames@[g].vars && b.frames@[g].parent
        == a.frames@[g].parent
}

/// Scopes with the same variables and parents see the same values.
proof fn lemma_lookup_same_vars(a: Scope, b: Scope, f: int, name: Seq<char>)
    requires
        same_vars(a, b),
    ensures
        b.lookup_from(f, name) == a.lookup_from(f, name),
    decreases f,
{
    if 0 <= f < a.frames.len() {
        assert(b.frames@[f].vars == a.frames@[f].vars);
        assert(b.vars_of(f) == a.vars_of(f));
        match a.frames@[f].parent {
            Some(p) => if p < f {
                lemma_lookup_same_vars(a, b, p as int, name);
            },
            None => {},
        }
    }
}

/// What a result says: the value, or the error's message and location.
pub open spec fn result_view(r: Result<Value, EvalError>) -> Result<crate::value::SValue, (Seq<char>, Location)> {
    match r {
        Ok(v) => Ok(v@),
        Err(e) => Err((e.message@, e.loc)),
    }
}

/// The error that reading `input` gives before anything is evaluated, where
/// its first token decides it: a `)` that closes nothing, or an ELSE with no IF.
pub open spec fn leading_parse_error(input: Seq<char>) -> Option<Seq<char>> {
    if lead_token(input, 0) == Some((Token::RightParen, 1int)) {
        Some("Unmatched right parenthesis"@)
    } else if exists|q: int| #![trigger bare_word(input, 0, q)]
        bare_word(input, 0, q) && upper_word(input.subrange(0, q)) == "ELSE"@ {
        Some("ELSE without IF"@)
    } else {
        None
    }
}

/// What evaluating the quoted word `word` gives, seen from scope `f` of `sc`:
/// the word's value (its variables replaced, read as an integer if it is
/// one), unless that is the word BREAK or CONTINUE, which leaves the block,
/// Is `after` the scope table `before` with the variables of scope `f` cleared
/// (or already none) and everything else kept?
pub open spec fn cleared_frame(before: Scope, after: Scope, f: int) -> bool {
    &&& after.frames.len() == before.frames.len()
    &&& 0 <= f < after.frames.len()
    &&& after.frames@[f].vars@.len() == 0
    &&& after.frames@[f].parent == before.frames@[f].parent
    &&& forall|g: int| 0 <= g < before.frames.len() && g != f ==> #[trigger] after.frames@[g] == before.frames@[g]
}

/// an error outside a loop.
pub open spec fn word_result(res: Result<Value, EvalError>, word: Seq<char>, sc: Scope, f: int) -> bool {
    let w = crate::expand::spec_parse_value(word, sc, f);
    if w == crate::value::SValue::Str("BREAK"@) || w == crate::value::SValue::Str("CONTINUE"@) {
        res is Err
    } else {
        res matches Ok(v) && v@ == w
    }
}

/// The result of an expression made only of words and value operators
/// (arithmetic and comparison, see [`crate::ops::is_value_op`]), with its words
/// read in the scopes `sc`, and the evaluation steps it takes; `None` for any
/// other expression, or one nested deeper than `depth`. The left side is
/// evaluated first, and its error is the result.
pub open spec fn pure_value(nodes: Seq<Node>, i: int, sc: Scope, depth: nat) -> Option<
    (Result<crate::value::SValue, Seq<char>>, nat),
>
    decreases depth,
{
    if depth == 0 || !(0 <= i < nodes.len()) {
        None
    } else {
        match nodes[i] {
            Node::Leaf { text, frame, .. } => if text.value@.len() < usize::MAX {
                Some((Ok(crate::expand::spec_parse_value(text.value@, sc, frame as int)), 1))
            } else {
                None
            },
            Node::Bin { op, lhs, rhs, .. } => if crate::ops::is_value_op(op) && lhs != 0 && rhs != 0 {
                match pure_value(nodes, lhs as int, sc, (depth - 1) as nat) {
                    Some((Ok(l), nl)) => match pure_value(nodes, rhs as int, sc, (depth - 1) as nat) {
                        Some((Ok(r), nr)) => Some((crate::ops::apply_value_op(op, l, r), nl + nr + 2)),
                        Some((Err(m), nr)) => Some((Err(m), nl + nr + 2)),
                        None => None,
                    },
                    Some((Err(m), nl)) => Some((Err(m), nl + 2)),
                    None => None,
                }
            } else {
                None
            },
            _ => None,
        }
    }
}

/// A deeper bound changes nothing once an expression is within the bound.
pub proof fn lemma_pure_value_deeper(nodes: Seq<Node>, i: int, sc: Scope, d: nat, e: nat)
    requires
        d <= e,
        pure_value(nodes, i, sc, d) is Some,
    ensures
        pure_value(nodes, i, sc, e) == pure_value(nodes, i, sc, d),
    decreases d,
{
    if d > 0 && 0 <= i < nodes.len() {
        match nodes[i] {
            Node::Bin { lhs, rhs, .. } => {
                lemma_pure_value_deeper(nodes, lhs as int, sc, (d - 1) as nat, (e - 1) as nat);
                match pure_value(nodes, lhs as int, sc, (d - 1) as nat) {
                    Some((Ok(_), _)) => {
                        lemma_pure_value_deeper(nodes, rhs as int, sc, (d - 1) as nat, (e - 1) as nat);
                    },
                    _ => {},
                }
            },
            _ => {},
        }
    }
}

/// Does `res` give the value, or the error message, of `r`?
pub open spec fn gives(res: Result<Value, EvalError>, r: Result<crate::value::SValue, Seq<char>>) -> bool {
    match r {
        Ok(v) => res matches Ok(x) && x@ == v,
        Err(m) => res matches Err(e) && e.message@ == m,
    }
}

/// Is `w` one quoted word with no `$` in it, to the end (see
/// [`crate::lexer::quoted_to_end`])?
pub open spec fn plain_quoted(w: Seq<char>) -> bool {
    &&& w.len() < usize::MAX
    &&& quoted_to_end(w, 0)
    &&& forall|k: int| 0 <= k < w.len() ==> #[trigger] w[k] != '$'
}

/// The question that asks for a confirmation of `prompt`, with the answers
/// allowed.
pub open spec fn question_text(prompt: Seq<char>, many: bool) -> Seq<char> {
    prompt + "? ("@ + (if many {
        "[Y]es/[N]o/[A]ll/[Q]uit"@
    } else {
        "[Y]es/[N]o"@
    }) + ") "@
}

/// The question that asks for a confirmation (see [`question_text`]).
pub fn confirm_question(prompt: &str, many: bool) -> (res: String)
    ensures
        res@ == question_text(prompt@, many),
{
    let options = if many { "[Y]es/[N]o/[A]ll/[Q]uit" } else { "[Y]es/[N]o" };
    let mut q = concat3(prompt, "? (", options);
    crate::text::push_str(&mut q, ") ");
    q
}

/// The answer that the user's reply gives: what the line says, or no when
/// nothing could be read.
pub fn reply_answer(reply: &Result<String, String>, many: bool) -> (res: Answer)
    ensures
        res == match reply {
            Ok(line) => crate::util::spec_answer(line@, many),
            Err(_) => Answer::No,
        },
{
    match reply {
        Ok(line) => process_answer(line.as_str(), many),
        Err(_) => Answer::No,
    }
}

/// `after` is `before` with status `h` checked, and nothing else changed.
pub open spec fn marked_checked(before: Seq<Status>, after: Seq<Status>, h: int) -> bool {
    &&& after.len() == before.len()
    &&& forall|k: int| 0 <= k < before.len() && k != h ==> after[k] == before[k]
    &&& after[h] == (Status { checked: true, ..before[h] })
}

/// A copy of an evaluation result.
fn dup_result(r: &Result<Value, EvalError>) -> (res: Result<Value, EvalError>)
    ensures
        r is Ok <==> res is Ok,
        r matches Ok(v) ==> (res matches Ok(w) && w@ == v@),
        r matches Err(e) ==> (res matches Err(f) && f.message@ == e.message@ && f.loc == e.loc),
{
    match r {
        Ok(v) => Ok(v.duplicate()),
        Err(e) => Err(dup_error(e)),
    }
}

/// A copy of an error.
fn dup_error(e: &EvalError) -> (res: EvalError)
    ensures
        res.message@ == e.message@,
        res.loc == e.loc,
{
    let jump = match &e.jump {
        Some(Jump::Break(v)) => Some(Jump::Break(v.duplicate())),
        Some(Jump::Continue(v)) => Some(Jump::Continue(v.duplicate())),
        None => None,
    };
    EvalError { loc: e.loc, message: e.message.clone(), jump }
}

/// The interpreter: the global scope (frame 0) with the scopes of the current
/// evaluation, the known commands, and the statuses of the commands run.
pub struct Interp {
    scope: Scope,
    registry: Registry,
    aliases: AliasTable,
    statuses: Vec<Status>,
    budget: u64,
    quit: bool,
}

/// The error for an evaluation that ran out of steps.
fn out_of_steps(loc: Location) -> (res: EvalError)
    ensures
        res.message@ == "Evaluation step limit reached"@,
{
    proof {
        reveal_strlit("Evaluation step limit reached");
    }
    EvalError::new(loc, "Evaluation step limit reached")
}

impl Interp {
    /// The invariant: the scopes and the command table are well formed.
    pub closed spec fn inv(&self) -> bool {
        &&& self.scope.wf()
        &&& self.registry.wf()
        &&& self.aliases.wf()
        &&& self.scope.current == 0
    }

    /// The scopes: the global one at position 0.
    pub closed spec fn scopes(&self) -> Scope {
        self.scope
    }

    /// The statuses of the commands run so far, by handle.
    pub closed spec fn status_log(&self) -> Seq<Status> {
        self.statuses@
    }

    /// The known commands.
    pub closed spec fn commands(&self) -> Registry {
        self.registry
    }

    /// Was QUIT read?
    pub closed spec fn has_quit(&self) -> bool {
        self.quit
    }

    /// The scopes: the global one at position 0.
    pub fn global_scope(&self) -> (res: &Scope)
        ensures
            *res == self.scopes(),
    {
        &self.scope
    }

    /// Was QUIT read?
    pub fn quit(&self) -> (res: bool)
        ensures
            res == self.has_quit(),
    {
        self.quit
    }

    /// The aliases.
    pub closed spec fn alias_view(&self) -> Map<Seq<char>, crate::alias::AliasSpec> {
        self.aliases@
    }

    /// Register command `name` (see [`Registry::register_command`]); an alias
    /// of that name is replaced.
    pub fn register_command(&mut self, name: String, external: bool) -> (res: bool)
        requires
            old(self).inv(),
        ensures
            final(self).inv(),
            final(self).commands()@ == old(self).commands()@.insert(name@, external),
            final(self).alias_view() == old(self).alias_view().remove(name@),
            res == old(self).commands()@.dom().contains(name@),
            final(self).scopes() == old(self).scopes(),
    {
        self.aliases.remove(name.as_str());
        self.registry.register_command(name, external)
    }

    /// Forget command `name` (see [`Registry::unregister_command`]), an alias too.
    pub fn unregister_command(&mut self, name: &str)
        requires
            old(self).inv(),
        ensures
            final(self).inv(),
            final(self).commands()@ == old(self).commands()@.remove(name@),
            final(self).alias_view() == old(self).alias_view().remove(name@),
            final(self).scopes() == old(self).scopes(),
    {
        self.aliases.remove(name);
        self.registry.unregister_command(name)
    }

    /// Does `name` name a command: a registered one, or a program on the
    /// search path, which is then registered (see [`Registry::get_command`])?
    pub fn get_command(&mut self, name: &str) -> (res: bool)
        requires
            old(self).inv(),
        ensures
            final(self).inv(),
            final(self).scopes() == old(self).scopes(),
            final(self).alias_view() == old(self).alias_view(),
            final(self).steps() == old(self).steps(),
            old(self).commands()@.dom().contains(name@) ==> res && final(self).commands()@ == old(self).commands()@,
            !old(self).commands()@.dom().contains(name@) ==> (if res {
                final(self).commands()@ == old(self).commands()@.insert(name@, true)
            } else {
                final(self).commands()@ == old(self).commands()@
            }),
    {
        self.registry.get_command(name)
    }

    /// Is `name` a known command, and if so, is it a program of the system?
    pub fn lookup_command(&self, name: &str) -> (res: Option<bool>)
        requires
            self.inv(),
        ensures
            res == (if self.commands()@.dom().contains(name@) {
                Some(self.commands()@[name@])
            } else {
                None
            }),
    {
        self.registry.lookup(name)
    }

    /// Make `name` an alias for the words `args` (as the `alias` command does
    /// without asking): the command of that name, if any, is kept to come back
    /// when the alias is removed.
    pub fn register_alias(&mut self, name: String, args: Vec<String>)
        requires
            old(self).inv(),
        ensures
            final(self).inv(),
            final(self).scopes() == old(self).scopes(),
            final(self).steps() == old(self).steps(),
            final(self).commands()@.dom().contains(name@),
            !final(self).commands()@[name@],
            final(self).alias_view().dom().contains(name@),
            final(self).alias_view()[name@].args == crate::expand::strings_view(args@),
            final(self).alias_view() == alias_added(
                old(self).alias_view(),
                name@,
                crate::expand::strings_view(args@),
                final(self).alias_view()[name@].overridden,
            ),
            old(self).commands()@.dom().contains(name@) ==> final(self).alias_view()[name@].overridden == Some(
                old(self).commands()@[name@],
            ),
    {
        let existing = self.registry.get_command(name.as_str());
        let overridden = if existing {
            self.registry.lookup(name.as_str())
        } else {
            None
        };
        let previous = match self.aliases.get(name.as_str()) {
            Some(e) => Some(Box::new(copy_alias(e))),
            None => None,
        };
        self.registry.register_command(to_owned_string(name.as_str()), false);
        self.aliases.set(AliasEntry { name, args, overridden, previous });
    }

    /// The names of the known commands, in order (see [`Registry::registered_commands`]).
    pub fn registered_commands(&self, internal_only: bool) -> (res: Vec<String>)
        requires
            self.inv(),
        ensures
            crate::registry::sorted_strictly(crate::registry::names_of(res@)),
            forall|k: Seq<char>| #[trigger] crate::registry::names_of(res@).contains(k) <==> (self.commands()@.dom().contains(k)
                && !(internal_only && self.commands()@[k])),
    {
        self.registry.registered_commands(internal_only)
    }

    /// The steps left to the current evaluation.
    pub closed spec fn steps(&self) -> u64 {
        self.budget
    }

    /// Does `after` keep the scope table's size and spend steps (at least one,
    /// unless none were left)?
    pub closed spec fn spent(&self, after: &Interp) -> bool {
        &&& after.inv()
        &&& after.scope.frames.len() == self.scope.frames.len()
        &&& after.steps() <= self.steps()
        &&& self.steps() > 0 ==> after.steps() < self.steps()
    }

    /// Can node `i` of `ast` be evaluated here?
    pub closed spec fn fits(&self, ast: &Ast, i: int) -> bool {
        &&& self.inv()
        &&& ast.wf()
        &&& ast.frames_below(self.scope.frames.len() as nat)
        &&& 0 <= i < ast.nodes.len()
    }

    /// An interpreter with an empty global scope and no commands.
    pub fn new() -> (res: Interp)
        ensures
            res.inv(),
            res.scopes().frames.len() == 1,
            res.commands()@ == Map::<Seq<char>, bool>::empty(),
            !res.has_quit(),
    {
        Interp {
            scope: Scope::new(),
            registry: Registry::new(),
            aliases: AliasTable::new(),
            statuses: Vec::new(),
            budget: 0,
            quit: false,
        }
    }

    /// Set variable `name` to the string `value` in the global scope.
    pub fn set_var(&mut self, name: String, value: String)
        requires
            old(self).inv(),
        ensures
            final(self).inv(),
            final(self).scopes().vars_of(0) == old(self).scopes().vars_of(0).insert(name@, crate::value::SValue::Str(value@)),
            final(self).scopes().frames.len() == old(self).scopes().frames.len(),
    {
        self.scope.insert(name, Value::Str(value));
    }

    /// Set variable `name` in the global scope to the value that `text` denotes
    /// (an integer if it reads as one, else the text), as the variables of the
    /// environment are read.
    pub fn load_var(&mut self, name: String, text: &str)
        requires
            old(self).inv(),
        ensures
            final(self).inv(),
            final(self).scopes().vars_of(0) == old(self).scopes().vars_of(0).insert(
                name@,
                crate::value::spec_value_from_text(text@),
            ),
            final(self).scopes().frames.len() == old(self).scopes().frames.len(),
            final(self).commands() == old(self).commands(),
    {
        let t = chars_of(text);
        self.scope.insert(name, value_from_text(&t));
    }

    /// Read and evaluate `input` in a new scope below the global one; the
    /// status of a command that is the result is not checked. The scopes of the
    /// previous evaluation are dropped first.
    pub fn eval_unchecked<H: Host>(&mut self, input: &str, host: &mut H) -> (res: Result<Value, EvalError>)
        requires
            old(self).inv(),
        ensures
            final(self).inv(),
            final(self).scopes().frames.len() >= 2,
            leading_parse_error(input@) matches Some(m) ==> (res matches Err(e) && e.message@ == m
                && *final(host) == *old(host)),
            input@.len() == 0 ==> (res matches Ok(v) && v@ == crate::value::SValue::Int(0) && *final(host)
                == *old(host)),
            input@.len() < usize::MAX && quoted_to_end(input@, 0) ==> word_result(
                res,
                input@.subrange(1, input@.len() - 1),
                final(self).scopes(),
                1,
            ) && *final(host) == *old(host),
    {
        self.statuses = Vec::new();
        self.budget = u64::MAX;
        if self.scope.frames.len() > 1 {
            self.scope.truncate(1);
        }
        let f = self.scope.new_child(0);
        self.eval_text(input, f, host)
    }

    /// Read `input` and evaluate it, its statements in scope `f` (which is
    /// cleared first); the scopes that it opens stay.
    fn eval_text<H: Host>(&mut self, input: &str, f: usize, host: &mut H) -> (res: Result<Value, EvalError>)
        requires
            old(self).inv(),
            f < old(self).scope.frames.len(),
        ensures
            final(self).inv(),
            final(self).scope.frames.len() >= old(self).scope.frames.len(),
            final(self).steps() <= old(self).steps(),
            old(self).steps() > 0 ==> final(self).steps() < old(self).steps(),
            old(self).steps() > 0 ==> (leading_parse_error(input@) matches Some(m) ==> (res matches Err(e)
                && e.message@ == m && *final(host) == *old(host))),
            old(self).steps() > 2 && input@.len() == 0 ==> (res matches Ok(v) && v@ == crate::value::SValue::Int(0)
                && *final(host) == *old(host)),
            old(self).steps() > 3 && input@.len() < usize::MAX && quoted_to_end(input@, 0) ==> word_result(
                res,
                input@.subrange(1, input@.len() - 1),
                final(self).scopes(),
                f as int,
            ) && *final(host) == *old(host),
        decreases old(self).steps(),
    {
        self.tick(Location { line: 1, col: 1 })?;
        let mut scope = Scope::new();
        std::mem::swap(&mut scope, &mut self.scope);
        let mut parser = Parser::new(input, scope, f);
        proof {
            if exists|q: int| #![trigger bare_word(input@, 0, q)]
                bare_word(input@, 0, q) && upper_word(input@.subrange(0, q)) == "ELSE"@ {
                let q = choose|q: int| #![trigger bare_word(input@, 0, q)]
                    bare_word(input@, 0, q) && upper_word(input@.subrange(0, q)) == "ELSE"@;
                assert(bare_word(parser.input(), 0, q));
            }
        }
        let r = parser.parse(&mut self.registry, &mut self.quit);
        let (ast, scope) = parser.into_parts();
        self.scope = scope;
        let root = match r {
            Ok(root) => root,
            Err(e) => {
                return Err(e);
            },
        };
        self.eval(&ast, root, host)
    }

    /// Read and evaluate `input` (see [`Interp::eval_unchecked`]); a command
    /// status that is the result and was not checked gives its own result.
    pub fn eval_input<H: Host>(&mut self, input: &str, host: &mut H) -> (res: Result<Value, EvalError>)
        requires
            old(self).inv(),
        ensures
            final(self).inv(),
            leading_parse_error(input@) matches Some(m) ==> (res matches Err(e) && e.message@ == m
                && *final(host) == *old(host)),
            input@.len() == 0 ==> (res matches Ok(v) && v@ == crate::value::SValue::Int(0) && *final(host)
                == *old(host)),
            input@.len() < usize::MAX && quoted_to_end(input@, 0) ==> word_result(
                res,
                input@.subrange(1, input@.len() - 1),
                final(self).scopes(),
                1,
            ) && *final(host) == *old(host),
    {
        let r = self.eval_unchecked(input, host);
        self.check_result(r, false)
    }

    /// Read and evaluate `input` (see [`Interp::eval_unchecked`]); a command
    /// status that is the result gives its error if it failed and was not
    /// checked, and stays a status otherwise.
    pub fn eval_status<H: Host>(&mut self, input: &str, host: &mut H) -> (res: Result<Value, EvalError>)
        requires
            old(self).inv(),
        ensures
            final(self).inv(),
            leading_parse_error(input@) matches Some(m) ==> (res matches Err(e) && e.message@ == m
                && *final(host) == *old(host)),
            input@.len() == 0 ==> (res matches Ok(v) && v@ == crate::value::SValue::Int(0) && *final(host)
                == *old(host)),
            input@.len() < usize::MAX && quoted_to_end(input@, 0) ==> word_result(
                res,
                input@.subrange(1, input@.len() - 1),
                final(self).scopes(),
                1,
            ) && *final(host) == *old(host),
    {
        let r = self.eval_unchecked(input, host);
        self.check_failure(r)
    }

    /// Spend one step.
    fn tick(&mut self, loc: Location) -> (res: Result<(), EvalError>)
        requires
            old(self).inv(),
        ensures
            final(self).inv(),
            final(self).scope == old(self).scope,
            final(self).registry == old(self).registry,
            final(self).statuses == old(self).statuses,
            old(self).steps() > 0 ==> res is Ok && final(self).steps() == old(self).steps() - 1,
            old(self).steps() == 0 ==> res is Err && final(self).steps() == 0,
    {
        if self.budget == 0 {
            Err(out_of_steps(loc))
        } else {
            self.budget = self.budget - 1;
            Ok(())
        }
    }

    /// Check a result: an unchecked status gives its own result, and is checked
    /// from now on; a successful status is not allowed as an argument.
    pub fn check_result(&mut self, result: Result<Value, EvalError>, as_arg: bool) -> (res: Result<Value, EvalError>)
        requires
            old(self).inv(),
        ensures
            final(self).inv(),
            final(self).scopes() == old(self).scopes(),
            final(self).commands() == old(self).commands(),
            final(self).steps() == old(self).steps(),
            match result {
                Ok(Value::Stat(h)) => if h < old(self).status_log().len() {
                    let st = old(self).status_log()[h as int];
                    if as_arg && st.result is Ok {
                        &&& res matches Err(e) && e.message@ == "Command status argument is not allowed"@ && e.loc == st.loc
                        &&& final(self).status_log() == old(self).status_log()
                    } else if !st.checked {
                        &&& result_view(res) == result_view(st.result)
                        &&& marked_checked(old(self).status_log(), final(self).status_log(), h as int)
                    } else {
                        res == result && final(self).status_log() == old(self).status_log()
                    }
                } else {
                    res == result && final(self).status_log() == old(self).status_log()
                },
                _ => res == result && final(self).status_log() == old(self).status_log(),
            },
    {
        match result {
            Ok(Value::Stat(h)) => {
                if h < self.statuses.len() {
                    let ok = self.statuses[h].result.is_ok();
                    if as_arg && ok {
                        return Err(EvalError::new(self.statuses[h].loc, "Command status argument is not allowed"));
                    }
                    if !self.statuses[h].checked {
                        let mut st = self.statuses.remove(h);
                        st.checked = true;
                        let r = dup_result(&st.result);
                        self.statuses.insert(h, st);
                        return r;
                    }
                }
                Ok(Value::Stat(h))
            },
            other => other,
        }
    }

    /// Check a result for a failure: an unchecked status of a failed command
    /// gives its error, and is checked from now on; anything else stays.
    fn check_failure(&mut self, result: Result<Value, EvalError>) -> (res: Result<Value, EvalError>)
        requires
            old(self).inv(),
        ensures
            final(self).inv(),
            final(self).scope == old(self).scope,
            final(self).budget == old(self).budget,
            match result {
                Ok(Value::Stat(h)) => if h < old(self).statuses.len() && !old(self).statuses@[h as int].checked
                    && old(self).statuses@[h as int].result is Err {
                    &&& result_view(res) == result_view(old(self).statuses@[h as int].result)
                    &&& marked_checked(old(self).statuses@, final(self).statuses@, h as int)
                } else {
                    res == result && final(self).statuses@ == old(self).statuses@
                },
                _ => res == result && final(self).statuses@ == old(self).statuses@,
            },
    {
        match result {
            Ok(Value::Stat(h)) => {
                if h < self.statuses.len() && !self.statuses[h].checked && self.statuses[h].result.is_err() {
                    let mut st = self.statuses.remove(h);
                    st.checked = true;
                    let r = dup_result(&st.result);
                    self.statuses.insert(h, st);
                    return r;
                }
                Ok(Value::Stat(h))
            },
            other => other,
        }
    }

    /// The results of the commands run by the last evaluation, in order.
    pub closed spec fn command_results(&self) -> Seq<bool> {
        self.statuses@.map_values(|st: Status| st.result is Ok)
    }

    /// Did the command whose status is `h` succeed? `None` for no such status.
    pub fn status_succeeded(&self, h: usize) -> (res: Option<bool>)
        ensures
            h < self.command_results().len() ==> res == Some(self.command_results()[h as int]),
            h >= self.command_results().len() ==> res is None,
    {
        if h < self.statuses.len() {
            Some(self.statuses[h].result.is_ok())
        } else {
            None
        }
    }

    /// Append line `info` to variable `name` of scope `f` (creating it).
    fn append_line_to(&mut self, f: usize, name: &str, info: &Vec<char>)
        requires
            old(self).inv(),
            f < old(self).scope.frames.len(),
        ensures
            final(self).inv(),
            final(self).scope.frames.len() == old(self).scope.frames.len(),
            final(self).budget == old(self).budget,
            final(self).statuses == old(self).statuses,
            final(self).scope.vars_of(f as int) == old(self).scope.vars_of(f as int).insert(
                name@,
                crate::value::SValue::Str(
                    if old(self).scope.vars_of(f as int).dom().contains(name@) {
                        crate::expand::value_text(old(self).scope.vars_of(f as int)[name@]) + seq!['\n'] + info@
                    } else {
                        info@
                    },
                ),
            ),
            forall|g: int|
                0 <= g < old(self).scope.frames.len() && g != f ==> final(self).scope.frames@[g] == old(
                    self,
                ).scope.frames@[g],
    {
        let text = match self.scope.lookup_in(f, name) {
            Some(v) => {
                let mut t = value_chars(&v);
                t.push('\n');
                vec_extend(&mut t, info);
                t
            },
            None => {
                let mut t: Vec<char> = Vec::new();
                vec_extend(&mut t, info);
                t
            },
        };
        assert(text@ =~= (if old(self).scope.vars_of(f as int).dom().contains(name@) {
            crate::expand::value_text(old(self).scope.vars_of(f as int)[name@]) + seq!['\n'] + info@
        } else {
            info@
        }));
        let val = Value::Str(string_of(&text));
        assert(val@ == crate::value::SValue::Str(text@));
        self.scope.insert_at(f, to_owned_string(name), val);
    }

    /// Copy variable `name` of scope `f` to its parent, unless the parent is the
    /// global scope.
    fn hoist(&mut self, f: usize, name: &str)
        requires
            old(self).inv(),
            f < old(self).scope.frames.len(),
        ensures
            final(self).inv(),
            final(self).scope.frames.len() == old(self).scope.frames.len(),
            final(self).budget == old(self).budget,
            final(self).statuses == old(self).statuses,
            ({
                let sc = old(self).scope;
                match sc.frames@[f as int].parent {
                    Some(p) => if sc.vars_of(f as int).dom().contains(name@) && sc.frames@[p as int].parent is Some {
                        &&& final(self).scope.vars_of(p as int) == sc.vars_of(p as int).insert(
                            name@,
                            sc.vars_of(f as int)[name@],
                        )
                        &&& forall|g: int| 0 <= g < sc.frames.len() && g != p ==> final(self).scope.frames@[g] == sc.frames@[g]
                    } else {
                        final(self).scope == sc
                    },
                    None => final(self).scope == sc,
                }
            }),
    {
        match self.scope.lookup_in(f, name) {
            Some(v) => {
                match self.scope.frames[f].parent {
                    Some(p) => {
                        if self.scope.frames[p].parent.is_some() {
                            self.scope.insert_at(p, to_owned_string(name), v);
                        }
                    },
                    None => {},
                }
            },
            None => {},
        }
    }

    /// Is value `v` true, seen from scope `f`? A status is true if its command
    /// succeeded (failed, if negated), and is checked; a failure is noted in
    /// `__errors`, which moves up one scope.
    pub fn value_as_bool(&mut self, v: &Value, f: usize) -> (res: bool)
        requires
            old(self).inv(),
            f < old(self).scopes().frames.len(),
        ensures
            final(self).inv(),
            final(self).scopes().frames.len() == old(self).scopes().frames.len(),
            final(self).steps() == old(self).steps(),
            !(v is Stat) ==> res == crate::ops::spec_truthy(v@),
            match *v {
                Value::Stat(h) => h < old(self).status_log().len() ==> {
                let st = old(self).status_log()[h as int];
                &&& res == if st.negated {
                    st.result is Err
                } else {
                    st.result is Ok
                }
                &&& marked_checked(old(self).status_log(), final(self).status_log(), h as int)
                &&& st.result matches Err(e) ==> {
                    let line = st.cmd@ + seq![':', ' '] + e.message@;
                    let before = old(self).scopes().vars_of(f as int);
                    final(self).scopes().vars_of(f as int) == before.insert(
                        "__errors"@,
                        crate::value::SValue::Str(
                            if before.dom().contains("__errors"@) {
                                crate::expand::value_text(before["__errors"@]) + seq!['\n'] + line
                            } else {
                                line
                            },
                        ),
                    )
                }
            },
                _ => true,
            },
    {
        let r = match v {
            Value::Stat(h) => {
                if *h < self.statuses.len() {
                    let mut st = self.statuses.remove(*h);
                    match &st.result {
                        Err(e) => {
                            let mut line = chars_of(st.cmd.as_str());
                            line.push(':');
                            line.push(' ');
                            let m = chars_of(e.message.as_str());
                            vec_extend(&mut line, &m);
                            assert(line@ =~= st.cmd@ + seq![':', ' '] + e.message@);
                            self.append_line_to(f, "__errors", &line);
                        },
                        Ok(_) => {},
                    }
                    st.checked = true;
                    let b = if st.negated { st.result.is_err() } else { st.result.is_ok() };
                    self.statuses.insert(*h, st);
                    b
                } else {
                    false
                }
            },
            _ => truthy(v),
        };
        self.hoist(f, "__errors");
        r
    }

    /// The location of node `i`.
    fn loc_of(ast: &Ast, i: usize) -> (res: Location)
        requires
            i < ast.nodes.len(),
        ensures
            res == crate::ast::node_loc(ast.nodes@[i as int], Location { line: 0, col: 0 }),
    {
        ast.loc(i, Location { line: 0, col: 0 })
    }

    /// Evaluate node `i` of `ast`.
    pub fn eval<H: Host>(&mut self, ast: &Ast, i: usize, host: &mut H) -> (res: Result<Value, EvalError>)
        requires
            old(self).fits(ast, i as int),
        ensures
            old(self).spent(&*final(self)),
            old(self).steps() > 1 && (ast.nodes@[i as int] matches Node::Group(g) && g.content@.len() == 0) ==> (
            res matches Ok(v) && v@ == crate::value::SValue::Int(0) && *final(host) == *old(host)),
            old(self).steps() > 1 ==> match ast.nodes@[i as int] {
                Node::Bin { op, lhs, rhs, .. } => rhs == 0 ==> if op == Op::Assign {
                    !(ast.nodes@[lhs as int] matches Node::Leaf { text, .. } && text.value@.len() > 0
                        && text.value@[0] == '$') ==> (res matches Err(e) && e.message@
                        == "Variable expected on left hand-side of assignment"@)
                } else {
                    res matches Err(e) && e.message@ == "Expecting right hand-side operand"@
                },
                _ => true,
            },
            match pure_value(ast.nodes@, i as int, old(self).scopes(), ast.nodes.len() as nat) {
                Some((r, n)) => n <= old(self).steps() ==> gives(res, r) && final(self).scopes() == old(self).scopes()
                    && *final(host) == *old(host) && final(self).steps() == old(self).steps() - n,
                None => true,
            },
            old(self).steps() > 0 ==> match ast.nodes@[i as int] {
                Node::Leaf { text, frame, .. } => text.value@.len() < usize::MAX ==> (res matches Ok(v) && v@
                    == crate::expand::spec_parse_value(text.value@, old(self).scopes(), frame as int) && *final(host)
                    == *old(host) && final(self).scopes() == old(self).scopes()
                    && final(self).commands() == old(self).commands()),
                _ => true,
            },
            old(self).steps() > 2 ==> match ast.nodes@[i as int] {
                Node::Group(g) => g.content@.len() == 1 ==> match ast.nodes@[g.content@[0] as int] {
                    Node::Leaf { text, frame, .. } => text.value@.len() < usize::MAX ==> word_result(
                        res,
                        text.value@,
                        final(self).scopes(),
                        frame as int,
                    ) && *final(host) == *old(host) && final(self).commands() == old(self).commands()
                        && cleared_frame(old(self).scopes(), final(self).scopes(), g.frame as int),
                    _ => true,
                },
                _ => true,
            },
        decreases old(self).steps(),
    {
        let loc = Self::loc_of(ast, i);
        self.tick(loc)?;
        match &ast.nodes[i] {
            Node::Empty => Err(EvalError::new(loc, "Empty expression")),
            Node::Args(_) => self.eval_group(ast, i, host),
            Node::Group(_) => self.eval_group(ast, i, host),
            Node::Bin { .. } => self.eval_bin(ast, i, host),
            Node::Cmd { .. } => self.eval_cmd(ast, i, host),
            Node::Branch { .. } => self.eval_branch(ast, i, host),
            Node::For { .. } => self.eval_for(ast, i, host),
            Node::Leaf { text, frame, .. } => {
                let t = chars_of(text.value.as_str());
                if t.len() >= usize::MAX {
                    return Err(EvalError::new(loc, "Word too long"));
                }
                proof { assert(node_frame(ast.nodes@[i as int]) < self.scope.frames.len()); }
                Ok(self.scope.parse_value(&t, *frame))
            },
            Node::Loop { .. } => self.eval_loop(ast, i, host),
        }
    }

    /// Evaluate a node and tell whether its value is true (see [`Interp::value_as_bool`]).
    fn eval_as_bool<H: Host>(&mut self, ast: &Ast, i: usize, f: usize, host: &mut H) -> (res: Result<bool, EvalError>)
        requires
            old(self).fits(ast, i as int),
            f < old(self).scope.frames.len(),
        ensures
            old(self).spent(&*final(self)),
        decreases old(self).steps(),
    {
        self.tick(Self::loc_of(ast, i))?;
        let v = self.eval(ast, i, host)?;
        Ok(self.value_as_bool(&v, f))
    }

    /// Evaluate a group: its scope is cleared, then each statement runs, after
    /// checking the status of the one before; BREAK and CONTINUE leave the group.
    fn eval_group<H: Host>(&mut self, ast: &Ast, i: usize, host: &mut H) -> (res: Result<Value, EvalError>)
        requires
            old(self).fits(ast, i as int),
            ast.nodes@[i as int] is Args || ast.nodes@[i as int] is Group,
        ensures
            old(self).spent(&*final(self)),
            old(self).steps() > 0 && (ast.nodes@[i as int] matches Node::Group(g) && g.content@.len() == 0) ==> (
            res matches Ok(v) && v@ == crate::value::SValue::Int(0) && *final(host) == *old(host)),
            old(self).steps() > 1 ==> match ast.nodes@[i as int] {
                Node::Group(g) => g.content@.len() == 1 ==> match ast.nodes@[g.content@[0] as int] {
                    Node::Leaf { text, frame, .. } => text.value@.len() < usize::MAX ==> word_result(
                        res,
                        text.value@,
                        final(self).scopes(),
                        frame as int,
                    ) && *final(host) == *old(host) && final(self).commands() == old(self).commands()
                        && cleared_frame(old(self).scopes(), final(self).scopes(), g.frame as int),
                    _ => true,
                },
                _ => true,
            },
        decreases old(self).steps(),
    {
        self.tick(Self::loc_of(ast, i))?;
        let (frame, content) = match &ast.nodes[i] {
            Node::Args(g) => (g.frame, &g.content),
            Node::Group(g) => (g.frame, &g.content),
            _ => {
                return Err(EvalError::new(Self::loc_of(ast, i), "Expecting group"));
            },
        };
        proof { assert(node_frame(ast.nodes@[i as int]) < self.scope.frames.len()); }
        let ghost before_clear = self.scope;
        self.scope.clear_frame(frame);
        let ghost after_clear = self.scope;
        let ghost reg0 = self.registry;
        proof {
            assert(cleared_frame(old(self).scope, after_clear, frame as int));
        }
        let mut result: Result<Value, EvalError> = Ok(Value::success());
        let mut k: usize = 0;
        let ghost one_leaf = content@.len() == 1 && (ast.nodes@[content@[0] as int] matches Node::Leaf { text, .. }
            && text.value@.len() < usize::MAX);
        let ghost (wt, wf) = match ast.nodes@[content@[0] as int] {
            Node::Leaf { text, frame, .. } => (text.value@, frame as int),
            _ => (Seq::<char>::empty(), 0int),
        };
        let ghost steps0 = self.steps();
        while k < content.len()
            invariant_except_break
                one_leaf && k == 0 ==> self.steps() == steps0 && *host == *old(host) && (result matches Ok(v)
                    && v@ == crate::value::SValue::Int(0)) && self.scope == after_clear && self.registry == reg0,
                one_leaf && k == 1 && old(self).steps() > 1 ==> word_result(result, wt, self.scopes(), wf)
                    && *host == *old(host) && self.scope == after_clear && self.registry == reg0,
            invariant
                one_leaf == (content@.len() == 1 && (ast.nodes@[content@[0] as int] matches Node::Leaf { text, .. }
                    && text.value@.len() < usize::MAX)),
                one_leaf ==> (ast.nodes@[content@[0] as int] matches Node::Leaf { text, frame, .. }
                    && wt == text.value@ && wf == frame),
                old(self).steps() > 1 ==> steps0 > 0,
                reg0 == old(self).registry,
                cleared_frame(old(self).scope, after_clear, frame as int),
                self.inv(),
                self.scope.frames.len() == old(self).scope.frames.len(),
                self.steps() < old(self).steps(),
                ast.wf(),
                ast.frames_below(self.scope.frames.len() as nat),
                0 <= i < ast.nodes.len(),
                (ast.nodes@[i as int] matches Node::Args(g) && content@ == g.content@)
                    || (ast.nodes@[i as int] matches Node::Group(g) && content@ == g.content@),
                k <= content.len(),
                content.len() == 0 ==> (result matches Ok(v) && v@ == crate::value::SValue::Int(0)) && *host == *old(
                    host,
                ),
            ensures
                self.inv(),
                self.scope.frames.len() == old(self).scope.frames.len(),
                self.steps() < old(self).steps(),
                content.len() == 0 ==> (result matches Ok(v) && v@ == crate::value::SValue::Int(0)) && *host == *old(
                    host,
                ),
                one_leaf && old(self).steps() > 1 ==> word_result(result, wt, self.scopes(), wf) && *host == *old(
                    host,
                ) && self.scope == after_clear && self.registry == reg0,
            decreases content.len() - k,
        {
            let e = content[k];
            proof {
                assert(crate::ast::node_ok(ast.nodes@[i as int], ast.nodes.len() as nat));
                assert(e < ast.nodes.len());
            }
            result = self.check_result(result, false);
            if result.is_ok() {
                let temp = self.eval(ast, e, host);
                let mut jump: Option<bool> = None;
                match &temp {
                    Ok(Value::Str(word)) => {
                        if str_eq(word.as_str(), "BREAK") {
                            jump = Some(true);
                        } else if str_eq(word.as_str(), "CONTINUE") {
                            jump = Some(false);
                        }
                    },
                    _ => {},
                }
                // a BREAK or CONTINUE from a nested group carries this group's value so far
                let nested = match &temp {
                    Err(e) => match &e.jump {
                        Some(Jump::Break(_)) => Some(true),
                        Some(Jump::Continue(_)) => Some(false),
                        None => None,
                    },
                    _ => None,
                };
                if nested.is_some() {
                    jump = nested;
                }
                match jump {
                    Some(is_break) => {
                        let prev = match result {
                            Ok(v) => v,
                            Err(_) => Value::success(),
                        };
                        let eloc = match &temp {
                            Err(err) => err.loc,
                            _ => Self::loc_of(ast, e),
                        };
                        result = if is_break {
                            Err(EvalError {
                                loc: eloc,
                                message: to_owned_string("BREAK outside loop"),
                                jump: Some(Jump::Break(prev)),
                            })
                        } else {
                            Err(EvalError {
                                loc: eloc,
                                message: to_owned_string("CONTINUE outside loop"),
                                jump: Some(Jump::Continue(prev)),
                            })
                        };
                        break;
                    },
                    None => {},
                }
                result = temp;
            }
            k += 1;
        }
        result
    }

    /// Evaluate the arguments of a command or FOR: each is evaluated (a
    /// successful status is not allowed), a quoted one gives one word, another is
    /// split at ASCII white space, a raw string is taken as written. A lone `-`
    /// stands for the words of standard input.
    fn tokenize_args<H: Host>(&mut self, ast: &Ast, i: usize, host: &mut H) -> (res: Result<Vec<String>, EvalError>)
        requires
            old(self).fits(ast, i as int),
        ensures
            old(self).spent(&*final(self)),
        decreases old(self).steps(),
    {
        self.tick(Self::loc_of(ast, i))?;
        let content = match &ast.nodes[i] {
            Node::Args(g) => &g.content,
            _ => {
                return Err(EvalError::new(Self::loc_of(ast, i), "Expecting argument list"));
            },
        };
        let mut tokens: Vec<String> = Vec::new();
        let mut k: usize = 0;
        while k < content.len()
            invariant
                self.inv(),
                self.scope.frames.len() == old(self).scope.frames.len(),
                self.steps() < old(self).steps(),
                ast.wf(),
                ast.frames_below(self.scope.frames.len() as nat),
                0 <= i < ast.nodes.len(),
                (ast.nodes@[i as int] matches Node::Args(g) && content@ == g.content@),
                k <= content.len(),
            decreases content.len() - k,
        {
            let e = content[k];
            proof {
                assert(crate::ast::node_ok(ast.nodes@[i as int], ast.nodes.len() as nat));
                assert(e < ast.nodes.len());
            }
            let (quoted, raw) = match &ast.nodes[e] {
                Node::Leaf { text, .. } => (text.quoted, text.raw),
                _ => (false, false),
            };
            if raw {
                match &ast.nodes[e] {
                    Node::Leaf { text, .. } => {
                        tokens.push(text.value.clone());
                    },
                    _ => {},
                }
            } else {
                let r = self.eval(ast, e, host);
                let val = self.check_result(r, true)?;
                let t = value_chars(&val);
                if quoted {
                    tokens.push(string_of(&t));
                } else {
                    push_words(&mut tokens, &t);
                }
            }
            k += 1;
        }
        if tokens.len() == 1 && str_eq(tokens[0].as_str(), "-") {
            match host.read_input() {
                Ok(text) => {
                    let mut words: Vec<String> = Vec::new();
                    let t = chars_of(text.as_str());
                    push_words(&mut words, &t);
                    tokens = words;
                },
                Err(m) => {
                    return Err(EvalError { loc: Self::loc_of(ast, i), message: m, jump: None });
                },
            }
        }
        Ok(tokens)
    }

    /// Run a command: its arguments are evaluated, its output redirected as the
    /// variables `__stdout` and `__stderr` say, and its result kept as a status.
    fn eval_cmd<H: Host>(&mut self, ast: &Ast, i: usize, host: &mut H) -> (res: Result<Value, EvalError>)
        requires
            old(self).fits(ast, i as int),
            ast.nodes@[i as int] is Cmd,
        ensures
            old(self).spent(&*final(self)),
        decreases old(self).steps(),
    {
        self.tick(Self::loc_of(ast, i))?;
        let (name, args, frame, loc) = match &ast.nodes[i] {
            Node::Cmd { name, args, frame, loc } => (name, *args, *frame, *loc),
            _ => {
                return Err(EvalError::new(Self::loc_of(ast, i), "Expecting command"));
            },
        };
        proof {
            assert(node_frame(ast.nodes@[i as int]) < self.scope.frames.len());
            assert(crate::ast::node_ok(ast.nodes@[i as int], ast.nodes.len() as nat));
        }
        let out = match redirect_plan(&self.scope, frame, "__stdout", "__stderr", "2") {
            Ok(p) => p,
            Err(m) => {
                return Err(EvalError { loc, message: m, jump: None });
            },
        };
        let err = match redirect_plan(&self.scope, frame, "__stderr", "__stdout", "1") {
            Ok(p) => p,
            Err(m) => {
                return Err(EvalError { loc, message: m, jump: None });
            },
        };
        let argv = self.tokenize_args(ast, args, host)?;
        let internal = match self.registry.lookup(name.as_str()) {
            Some(external) => !external,
            None => false,
        };
        let alias_words = match self.aliases.get(name.as_str()) {
            Some(e) => Some(copy_strings(&e.args)),
            None => None,
        };
        let outcome = match alias_words {
            Some(words) => self.run_alias(&words, &argv, frame, host),
            None => if internal && str_eq(name.as_str(), "eval") {
                self.eval_command(&argv, frame, host)
            } else if internal && str_eq(name.as_str(), "alias") {
                self.alias_command(&argv, frame, host)
            } else if internal && (str_eq(name.as_str(), "help") || str_eq(name.as_str(), "man")) {
                self.help_command(&argv, frame, host)
            } else {
                host.exec(name.as_str(), &argv, &out, &err, &self.scope, frame)
            },
        };
        let cmd = string_of(&node_text(ast, i, ast.nodes.len()));
        Ok(self.record_status(ast, args, outcome, cmd, loc))
    }

    /// Keep the outcome of command `cmd` (whose arguments are node `args`) as a
    /// new unchecked status, and return it: a failure is placed at the argument
    /// it names, or at the argument list.
    fn record_status(
        &mut self,
        ast: &Ast,
        args: usize,
        outcome: Result<Value, CommandError>,
        cmd: String,
        loc: Location,
    ) -> (res: Value)
        requires
            old(self).inv(),
            ast.wf(),
            args < ast.nodes.len(),
        ensures
            final(self).inv(),
            final(self).scope == old(self).scope,
            final(self).budget == old(self).budget,
            res == Value::Stat(old(self).statuses.len()),
            final(self).statuses@ == old(self).statuses@.push(
                Status {
                    checked: false,
                    cmd,
                    negated: false,
                    result: match outcome {
                        Ok(v) => Ok(v),
                        Err(e) => Err(
                            EvalError {
                                loc: match ast.nodes@[args as int] {
                                    Node::Args(g) => if 0 < e.arg && e.arg - 1 < g.content@.len() {
                                        crate::ast::node_loc(
                                            ast.nodes@[g.content@[e.arg - 1] as int],
                                            Location { line: 0, col: 0 },
                                        )
                                    } else {
                                        crate::ast::node_loc(ast.nodes@[args as int], Location { line: 0, col: 0 })
                                    },
                                    _ => crate::ast::node_loc(ast.nodes@[args as int], Location { line: 0, col: 0 }),
                                },
                                message: e.message,
                                jump: None,
                            },
                        ),
                    },
                    loc,
                },
            ),
    {
        let result = match outcome {
            Ok(v) => Ok(v),
            Err(e) => {
                let eloc = err_loc(ast, args, e.arg);
                Err(EvalError { loc: eloc, message: e.message, jump: None })
            },
        };
        let h = self.statuses.len();
        self.statuses.push(Status { checked: false, cmd, negated: false, result, loc });
        Value::Stat(h)
    }

    /// Evaluate an IF.
    fn eval_branch<H: Host>(&mut self, ast: &Ast, i: usize, host: &mut H) -> (res: Result<Value, EvalError>)
        requires
            old(self).fits(ast, i as int),
            ast.nodes@[i as int] is Branch,
        ensures
            old(self).spent(&*final(self)),
        decreases old(self).steps(),
    {
        self.tick(Self::loc_of(ast, i))?;
        let (cond, if_branch, else_branch, frame, loc) = match &ast.nodes[i] {
            Node::Branch { cond, if_branch, else_branch, frame, loc, .. } => (*cond, *if_branch, *else_branch, *frame, *loc),
            _ => {
                return Err(EvalError::new(Self::loc_of(ast, i), "Expecting IF"));
            },
        };
        proof {
            assert(node_frame(ast.nodes@[i as int]) < self.scope.frames.len());
            assert(crate::ast::node_ok(ast.nodes@[i as int], ast.nodes.len() as nat));
        }
        if cond == 0 {
            return Err(EvalError::new(loc, "Expecting IF condition"));
        } else if if_branch == 0 {
            return Err(EvalError::new(loc, "Expecting IF block"));
        }
        if self.eval_as_bool(ast, cond, frame, host)? {
            self.eval(ast, if_branch, host)
        } else if else_branch == 0 {
            Ok(Value::success())
        } else {
            self.eval(ast, else_branch, host)
        }
    }

    /// Evaluate an operation.
    fn eval_bin<H: Host>(&mut self, ast: &Ast, i: usize, host: &mut H) -> (res: Result<Value, EvalError>)
        requires
            old(self).fits(ast, i as int),
            ast.nodes@[i as int] is Bin,
        ensures
            old(self).spent(&*final(self)),
            old(self).steps() > 0 ==> match ast.nodes@[i as int] {
                Node::Bin { op, lhs, rhs, .. } => rhs == 0 ==> if op == Op::Assign {
                    !(ast.nodes@[lhs as int] matches Node::Leaf { text, .. } && text.value@.len() > 0
                        && text.value@[0] == '$') ==> (res matches Err(e) && e.message@
                        == "Variable expected on left hand-side of assignment"@)
                } else {
                    res matches Err(e) && e.message@ == "Expecting right hand-side operand"@
                },
                _ => true,
            },
            match pure_value(ast.nodes@, i as int, old(self).scopes(), ast.nodes.len() as nat) {
                Some((r, n)) => n <= old(self).steps() + 1 ==> gives(res, r) && final(self).scopes() == old(
                    self,
                ).scopes() && *final(host) == *old(host) && final(self).steps() == old(self).steps() + 1 - n,
                None => true,
            },
        decreases old(self).steps(),
    {
        self.tick(Self::loc_of(ast, i))?;
        let (op, lhs, rhs, frame, loc) = match &ast.nodes[i] {
            Node::Bin { op, lhs, rhs, frame, loc } => (*op, *lhs, *rhs, *frame, *loc),
            _ => {
                return Err(EvalError::new(Self::loc_of(ast, i), "Expecting operation"));
            },
        };
        proof {
            assert(node_frame(ast.nodes@[i as int]) < self.scope.frames.len());
            assert(crate::ast::node_ok(ast.nodes@[i as int], ast.nodes.len() as nat));
        }
        if rhs == 0 {
            if op == Op::Assign {
                // `$x =` erases the variable
                return self.eval_erase(ast, lhs, loc, host);
            }
            return Err(EvalError::new(loc, "Expecting right hand-side operand"));
        } else if lhs == 0 {
            if op.is_unary_ok() {
                let v = self.eval(ast, rhs, host)?;
                return self.eval_unary(op, v, frame, loc);
            }
            return Err(EvalError::new(loc, "Expecting left hand-side operand"));
        }
        match op {
            Op::And => self.eval_and(ast, lhs, rhs, frame, host),
            Op::Or => self.eval_or(ast, lhs, rhs, frame, host),
            Op::Assign => self.eval_assign(ast, lhs, rhs, frame, loc, host),
            Op::Append => self.eval_write(ast, lhs, rhs, loc, true, host),
            Op::Write => self.eval_write(ast, lhs, rhs, loc, false, host),
            Op::Pipe => self.eval_pipe(ast, lhs, rhs, frame, loc, host),
            Op::Not => Err(EvalError::new(loc, "Unexpected logical negation operator")),
            _ => {
                proof {
                    let len = ast.nodes.len() as nat;
                    let sc = self.scopes();
                    if pure_value(ast.nodes@, i as int, sc, len) is Some {
                        lemma_pure_value_deeper(ast.nodes@, lhs as int, sc, (len - 1) as nat, len);
                        if pure_value(ast.nodes@, lhs as int, sc, (len - 1) as nat) matches Some((Ok(_), _)) {
                            lemma_pure_value_deeper(ast.nodes@, rhs as int, sc, (len - 1) as nat, len);
                        }
                    }
                }
                let l = match self.eval(ast, lhs, host) {
                    Ok(l) => l,
                    Err(e) => {
                        return Err(e);
                    },
                };
                let r = match self.eval(ast, rhs, host) {
                    Ok(r) => r,
                    Err(e) => {
                        return Err(e);
                    },
                };
                let v = match op {
                    Op::Plus => value_plus(&l, &r),
                    Op::Minus => value_minus(&l, &r),
                    Op::Mul => value_mul(&l, &r),
                    Op::Div => value_div(&l, &r),
                    Op::IntDiv => value_int_div(&l, &r),
                    Op::Mod => value_mod(&l, &r),
                    _ => value_compare(op, &l, &r),
                };
                match v {
                    Ok(x) => Ok(x),
                    Err(m) => Err(EvalError { loc, message: m, jump: None }),
                }
            },
        }
    }

    /// The `eval` command. Each argument is read and evaluated in a new scope
    /// below the command's, stopping at the first error; with `--source` the
    /// first argument names a script file, which is read and evaluated, the
    /// others becoming its arguments `$1`, `$2`... A value is shown unless
    /// `--quiet`, or it is a command's status; with `--export` the variables
    /// set are copied to the global scope, and the environment follows it.
    fn eval_command<H: Host>(&mut self, argv: &Vec<String>, frame: usize, host: &mut H) -> (res: Result<Value, CommandError>)
        requires
            old(self).inv(),
            frame < old(self).scope.frames.len(),
        ensures
            old(self).spent(&*final(self)),
            old(self).steps() > 5 && old(self).scope.frames.len() < usize::MAX && argv@.len() == 1 ==> (
            plain_quoted(argv@[0]@) ==> ({
                let v = crate::value::spec_value_from_text(argv@[0]@.subrange(1, argv@[0]@.len() - 1));
                if v == crate::value::SValue::Str("BREAK"@) || v == crate::value::SValue::Str("CONTINUE"@) {
                    res matches Err(e) && e.message@ == "Error evaluating '"@ + argv@[0]@ + "'"@
                } else {
                    res matches Ok(x) && x@ == crate::value::SValue::Int(0)
                }
            })),
            old(self).steps() > 0 && argv@.len() == 0 && old(self).scope.frames.len() < usize::MAX ==> (res matches Ok(
                v,
            ) && v@ == crate::value::SValue::Int(0) && *final(host) == *old(host)),
        decreases old(self).steps(),
    {
        let ghost start = self.steps();
        if self.tick(Location { line: 1, col: 1 }).is_err() {
            return Err(CommandError { message: to_owned_string("Evaluation step limit reached"), arg: 0 });
        }
        let mut flags = eval_flags();
        if argv.len() >= usize::MAX {
            return Err(CommandError { message: to_owned_string("Too many arguments"), arg: 0 });
        }
        proof {
            if argv@.len() == 1 && plain_quoted(argv@[0]@) {
                let w = argv@[0]@;
                assert(crate::flags::args_view(argv@) =~= seq![w]);
                assert(w[0] == '"');
                if crate::text::is_prefix(seq!['-'], w) {
                    assert(w.take(1)[0] == w[0]);
                }
                if crate::text::is_prefix(seq!['-', '-'], w) {
                    assert(w.take(2)[0] == w[0]);
                }
                reveal_with_fuel(crate::flags::parse_from, 3);
            }
        }
        let eval_args = match flags.parse(&mut self.scope, argv.as_slice()) {
            Ok(a) => a,
            Err(m) => {
                return Err(CommandError { message: m, arg: self.scope.err_arg() });
            },
        };
        if flags.is_present("help") {
            let mut text = chars_of(EVAL_HELP_HEAD);
            let h = chars_of(flags.help().as_str());
            vec_extend(&mut text, &h);
            text.push('\n');
            let tail = chars_of(EVAL_HELP_TAIL);
            vec_extend(&mut text, &tail);
            host.print(string_of(&text).as_str());
            return Ok(Value::success());
        }
        let export = flags.is_present("export");
        let source = flags.is_present("source");
        let quiet = flags.is_present("quiet");
        let n0 = self.scope.frames.len();
        if n0 >= usize::MAX {
            return Err(CommandError { message: to_owned_string("Too many scopes"), arg: 0 });
        }
        let ef = self.scope.new_child(frame);
        let mut k: usize = 0;
        let mut outcome: Result<Value, CommandError> = Ok(Value::success());
        let ghost one = old(self).steps() > 5 && old(self).scope.frames.len() < usize::MAX && argv@.len() == 1
            && plain_quoted(argv@[0]@);

        while k < eval_args.len()
            invariant
                self.inv(),
                n0 == old(self).scope.frames.len(),
                self.scope.frames.len() == n0 + 1,
                ef == n0,
                frame < n0,
                self.steps() < start,
                start == old(self).steps(),
                k <= eval_args.len(),
                eval_args.len() == 0 ==> (outcome matches Ok(v) && v@ == crate::value::SValue::Int(0)) && *host
                    == *old(host),
                one == (old(self).steps() > 5 && old(self).scope.frames.len() < usize::MAX && argv@.len() == 1
                    && plain_quoted(argv@[0]@)),
                one ==> !source && !export && eval_args@.len() == 1 && eval_args@[0]@ == argv@[0]@,
                one && k == 0 ==> (outcome matches Ok(v) && v@ == crate::value::SValue::Int(0)) && self.steps()
                    + 1 == old(self).steps(),
                one && k == 1 ==> ({
                    let v = crate::value::spec_value_from_text(argv@[0]@.subrange(1, argv@[0]@.len() - 1));
                    if v == crate::value::SValue::Str("BREAK"@) || v == crate::value::SValue::Str("CONTINUE"@) {
                        outcome matches Err(e) && e.message@ == "Error evaluating '"@ + argv@[0]@ + "'"@
                    } else {
                        outcome matches Ok(x) && x@ == crate::value::SValue::Int(0)
                    }
                }),
            ensures
                self.inv(),
                self.scope.frames.len() == n0 + 1,
                n0 == old(self).scope.frames.len(),
                self.steps() < start,
                start == old(self).steps(),
                eval_args.len() == 0 ==> (outcome matches Ok(v) && v@ == crate::value::SValue::Int(0)) && *host
                    == *old(host),
                one ==> !export && ({
                    let v = crate::value::spec_value_from_text(argv@[0]@.subrange(1, argv@[0]@.len() - 1));
                    if v == crate::value::SValue::Str("BREAK"@) || v == crate::value::SValue::Str("CONTINUE"@) {
                        outcome matches Err(e) && e.message@ == "Error evaluating '"@ + argv@[0]@ + "'"@
                    } else {
                        outcome matches Ok(x) && x@ == crate::value::SValue::Int(0)
                    }
                }),
            decreases eval_args.len() - k,
        {
            let arg = &eval_args[k];
            k += 1;
            let input = if source {
                match host.read_script(arg.as_str()) {
                    Ok(text) => {
                        let mut joined = chars_of(arg.as_str());
                        self.scope.insert_at(frame, to_owned_string("0"), Value::Str(arg.clone()));
                        let mut n: u64 = 0;
                        while k < eval_args.len()
                            invariant
                                self.inv(),
                                self.scope.frames.len() == old(self).scope.frames.len() + 1,
                                frame < n0,
                                n0 == old(self).scope.frames.len(),
                                self.steps() < start,
                                n <= k,
                                k <= eval_args.len(),
                            decreases eval_args.len() - k,
                        {
                            n = n + 1;
                            self.scope.insert_at(frame, u64_to_string(n), Value::Str(eval_args[k].clone()));
                            joined.push(' ');
                            let next = chars_of(eval_args[k].as_str());
                            vec_extend(&mut joined, &next);
                            k += 1;
                        }
                        if n > i64::MAX as u64 {
                            n = i64::MAX as u64;
                        }
                        self.scope.insert_at(frame, to_owned_string("#"), Value::Int(n as i64));
                        self.scope.insert_at(frame, to_owned_string("@"), Value::Str(string_of(&joined)));
                        text
                    },
                    Err(e) => {
                        let pos = position_of(argv, arg.as_str());
                        outcome = Err(CommandError { message: concat3(arg.as_str(), ": ", e.as_str()), arg: pos });
                        break;
                    },
                }
            } else {
                arg.clone()
            };
            let r = self.eval_text(input.as_str(), ef, host);
            proof {
                if one {
                    let w = argv@[0]@;
                    let sub = w.subrange(1, w.len() - 1);
                    assert forall|j: int| 0 <= j < sub.len() implies #[trigger] sub[j] != '$' by {
                        assert(sub[j] == w[j + 1]);
                    }
                    crate::expand::lemma_value_plain(sub, self.scopes(), ef as int);
                }
            }
            if self.scope.frames.len() > n0 + 1 {
                self.scope.truncate(n0 + 1);
            }
            let r = self.check_result(r, false);
            match r {
                Err(e) => {
                    host.show_error(input.as_str(), &e);
                    outcome = Err(CommandError { message: concat3("Error evaluating '", arg.as_str(), "'"), arg: 0 });
                    break;
                },
                Ok(v) => {
                    let mut command = false;
                    match &v {
                        Value::Stat(h) => {
                            if *h < self.statuses.len() {
                                match &self.statuses[*h].result {
                                    Err(e) => {
                                        outcome = Err(CommandError { message: e.to_text(), arg: 0 });
                                        break;
                                    },
                                    Ok(_) => {},
                                }
                            }
                            command = true;
                        },
                        _ => {},
                    }
                    if export {
                        self.scope.export_vars(ef, 0);
                    } else if !command && !quiet {
                        let mut line = value_chars(&v);
                        line.push('\n');
                        host.print(string_of(&line).as_str());
                    }
                },
            }
        }
        if outcome.is_ok() && export {
            host.sync_env(&self.scope);
        }
        self.scope.truncate(n0);
        outcome
    }

    /// Ask the user `prompt` (with the answers allowed: yes and no, and all
    /// and quit if `many`); `NO_CONFIRM`, seen from scope `frame`, answers yes.
    pub fn confirm<H: Host>(&self, prompt: &str, frame: usize, many: bool, host: &mut H) -> (res: Answer)
        requires
            self.inv(),
            frame < self.scopes().frames.len(),
        ensures
            self.scopes().lookup_from(frame as int, "NO_CONFIRM"@) is Some ==> res == Answer::Yes
                && *final(host) == *old(host),
    {
        match self.scope.lookup_from_frame(frame, "NO_CONFIRM") {
            Some(_) => {
                return Answer::Yes;
            },
            None => {},
        }
        let q = confirm_question(prompt, many);
        let reply = host.read_answer(q.as_str());
        reply_answer(&reply, many)
    }

    /// Remove alias `name`, after asking (see [`Interp::confirm`]); the
    /// command it replaced comes back. An error if `name` is no command, or
    /// no alias.
    pub fn remove_alias<H: Host>(&mut self, name: &str, frame: usize, host: &mut H) -> (res: Result<(), String>)
        requires
            old(self).inv(),
            frame < old(self).scopes().frames.len(),
        ensures
            final(self).inv(),
            final(self).scopes() == old(self).scopes(),
            final(self).steps() == old(self).steps(),
            res matches Err(m) ==> (m@ == name@ + ": alias not found"@ || m@ == name@ + ": is not an alias"@)
                && final(self).alias_view() == old(self).alias_view(),
            !old(self).alias_view().dom().contains(name@) ==> res is Err,
            !old(self).commands()@.dom().contains(name@) && !old(self).alias_view().dom().contains(name@) ==> (
            res matches Err(m) && ((m@ == name@
                + ": alias not found"@ && final(self).commands()@ == old(self).commands()@) || (m@ == name@
                + ": is not an alias"@ && final(self).commands()@ == old(self).commands()@.insert(name@, true)))),
            old(self).commands()@.dom().contains(name@) && !old(self).alias_view().dom().contains(name@) ==> (
            res matches Err(m) && m@ == name@ + ": is not an alias"@),
            ({
                let a = old(self).alias_view()[name@];
                old(self).alias_view().dom().contains(name@) && old(self).commands()@.dom().contains(name@)
                    && old(self).scopes().lookup_from(frame as int, "NO_CONFIRM"@) is Some ==> {
                    &&& res is Ok
                    &&& final(self).alias_view() == alias_removed(old(self).alias_view(), name@)
                    &&& a.previous is None ==> final(self).commands()@ == match a.overridden {
                        Some(external) => old(self).commands()@.insert(name@, external),
                        None => old(self).commands()@.remove(name@),
                    }
                }
            }),
    {
        if !self.registry.get_command(name) {
            return Err(concat(name, ": alias not found"));
        }
        let entry = match self.aliases.get(name) {
            Some(e) => copy_alias(e),
            None => {
                return Err(concat(name, ": is not an alias"));
            },
        };
        let prompt = concat3("Remove alias '", name, "'");
        if self.confirm(prompt.as_str(), frame, false, host) == Answer::Yes {
            self.aliases.remove(name);
            self.registry.unregister_command(name);
            let ghost before = old(self).alias_view();
            match entry.previous {
                Some(prev) => {
                    self.registry.register_command(to_owned_string(name), false);
                    let p = *prev;
                    let ghost ps = alias_spec(p);
                    let restored = AliasEntry {
                        name: to_owned_string(name),
                        args: p.args,
                        overridden: p.overridden,
                        previous: p.previous,
                    };
                    assert(alias_spec(restored) == ps);
                    self.aliases.set(restored);
                    assert(self.aliases@ =~= before.insert(name@, ps));
                },
                None => match entry.overridden {
                    Some(external) => {
                        self.registry.register_command(to_owned_string(name), external);
                    },
                    None => {},
                },
            }
        }
        Ok(())
    }

    /// The `help` command (also `man`): the manual of the interpreter, or the
    /// manual page of each command named, each followed by an empty line.
    fn help_command<H: Host>(&mut self, argv: &Vec<String>, frame: usize, host: &mut H) -> (res: Result<Value, CommandError>)
        requires
            old(self).inv(),
            frame < old(self).scope.frames.len(),
        ensures
            final(self).inv(),
            final(self).scope.frames.len() == old(self).scope.frames.len(),
            final(self).steps() == old(self).steps(),
            res matches Ok(v) ==> v@ == crate::value::SValue::Int(0),
            argv.len() >= usize::MAX ==> (res matches Err(e) && e.message@ == "Too many arguments"@),
            argv.len() < usize::MAX ==> ({
                let p = help_parse(argv@);
                &&& p.err matches Some(m) ==> (res matches Err(e) && e.message@ == m)
                &&& p.err is None && p.values.dom().contains("help"@) ==> res is Ok
                &&& p.err is None && !p.values.dom().contains("help"@) && p.non_flag.len() == 0 ==> (res is Ok || (
                res matches Err(e) && e.message@ == "Command name too long"@))
            }),
    {
        let mut flags = CommandFlags::with_help();
        if argv.len() >= usize::MAX {
            return Err(CommandError { message: to_owned_string("Too many arguments"), arg: 0 });
        }
        let names = match flags.parse(&mut self.scope, argv.as_slice()) {
            Ok(a) => a,
            Err(m) => {
                return Err(CommandError { message: m, arg: self.scope.err_arg() });
            },
        };
        if flags.is_present("help") {
            let mut text = to_owned_string(HELP_USAGE);
            crate::text::push_str(&mut text, flags.help().as_str());
            host.print(text.as_str());
            return Ok(Value::success());
        }
        if names.len() == 0 {
            let commands = self.registry.registered_commands(true);
            let longest = longest_name(&commands);
            if longest >= usize::MAX - 4 {
                return Err(CommandError { message: to_owned_string("Command name too long"), arg: 0 });
            }
            let width = host.terminal_width();
            host.print(interpreter_help(&commands, width).as_str());
            return Ok(Value::success());
        }
        let mut k: usize = 0;
        while k < names.len()
            invariant
                argv.len() < usize::MAX,
                help_parse(argv@).err is None,
                !help_parse(argv@).values.dom().contains("help"@),
                help_parse(argv@).non_flag.len() > 0,
                self.inv(),
                self.scope.frames.len() == old(self).scope.frames.len(),
                self.steps() == old(self).steps(),
                frame < self.scope.frames.len(),
            decreases names.len() - k,
        {
            match help_source(self, names[k].as_str()) {
                Ok(HelpSource::Page(p)) => host.print(p),
                Ok(HelpSource::External(m)) => {
                    let line = concat(m.as_str(), "\n");
                    host.print_error(line.as_str());
                },
                Ok(HelpSource::Run) => {
                    let program = concat(names[k].as_str(), " -?");
                    match host.run_child(program.as_str(), None, &self.scope, frame) {
                        Ok((out, _)) => host.print(help_page(names[k].as_str(), out.as_str()).as_str()),
                        Err(m) => {
                            return Err(CommandError { message: m, arg: 0 });
                        },
                    }
                },
                Err(m) => {
                    return Err(CommandError { message: m, arg: 0 });
                },
            }
            host.print("\n");
            k += 1;
        }
        Ok(Value::success())
    }


    /// The `alias` command: register an alias for an expression (asking before
    /// replacing a command), remove one (`--remove`), or list them (`--list`).
    fn alias_command<H: Host>(&mut self, argv: &Vec<String>, frame: usize, host: &mut H) -> (res: Result<Value, CommandError>)
        requires
            old(self).inv(),
            frame < old(self).scope.frames.len(),
        ensures
            final(self).inv(),
            final(self).scope.frames.len() == old(self).scope.frames.len(),
            final(self).steps() == old(self).steps(),
            res matches Ok(v) ==> v@ == crate::value::SValue::Int(0),
            argv.len() >= usize::MAX ==> (res matches Err(e) && e.message@ == "Too many arguments"@),
            argv.len() < usize::MAX ==> ({
                let p = alias_parse(argv@);
                let args = p.non_flag;
                if p.values.dom().contains("help"@) || p.values.dom().contains("list"@) {
                    res is Ok && final(self).alias_view() == old(self).alias_view()
                } else if p.values.dom().contains("remove"@) {
                    if args.len() == 0 {
                        res matches Err(e) && e.message@ == "Please specify an alias to remove"@
                    } else {
                        &&& res matches Err(e) ==> (e.message@ == args[0] + ": alias not found"@ || e.message@ == args[0]
                            + ": is not an alias"@)
                        &&& !old(self).alias_view().dom().contains(args[0]) ==> res is Err
                    }
                } else if args.len() == 0 {
                    res matches Err(e) && e.message@ == "NAME not specified"@
                } else if args.len() == 1 {
                    res matches Err(e) && e.message@ == "EXPRESSION not specified"@
                } else {
                    &&& res is Ok
                    &&& (final(self).alias_view().dom().contains(args[0]) && final(self).alias_view()[args[0]].args
                        == args.drop_first()) || final(self).alias_view() == old(self).alias_view()
                    &&& old(self).scope.lookup_from(frame as int, "NO_CONFIRM"@) is Some ==> final(self).alias_view().dom().contains(args[0])
                        && final(self).alias_view()[args[0]].args == args.drop_first()
                }
            }),
    {
        let mut flags = alias_flags();
        if argv.len() >= usize::MAX {
            return Err(CommandError { message: to_owned_string("Too many arguments"), arg: 0 });
        }
        let mut parsed = flags.parse_all(&mut self.scope, argv.as_slice());
        if flags.is_present("help") {
            let mut text = chars_of(ALIAS_HELP_HEAD);
            let h = chars_of(flags.help().as_str());
            vec_extend(&mut text, &h);
            text.push('\n');
            let tail = chars_of(ALIAS_HELP_TAIL);
            vec_extend(&mut text, &tail);
            host.print(string_of(&text).as_str());
            return Ok(Value::success());
        }
        if flags.is_present("list") {
            if parsed.len() == 0 {
                let names = self.registry.registered_commands(true);
                let mut count: usize = 0;
                let mut k: usize = 0;
                while k < names.len()
                    invariant
                        self.inv(),
                        k <= names.len(),
                        count <= k,
                    decreases names.len() - k,
                {
                    match self.aliases.get(names[k].as_str()) {
                        Some(e) => {
                            let mut line = concat(names[k].as_str(), ": ");
                            let words = join_strings(&e.args);
                            crate::text::push_str(&mut line, words.as_str());
                            crate::text::push_str(&mut line, "\n");
                            host.print(line.as_str());
                            count = count + 1;
                        },
                        None => {},
                    }
                    k += 1;
                }
                if count == 0 {
                    host.print("No aliases found.\n");
                }
            } else {
                host.print_error("--list (or -l) was specified but other arguments were present.");
                let mut guess = concat("Did you mean: alias ", if argv.len() > 0 { argv[0].as_str() } else { "" });
                crate::text::push_str(&mut guess, " \"");
                let mut rest: Vec<String> = Vec::new();
                let mut k: usize = 1;
                while k < argv.len()
                    invariant
                        1 <= k,
                    decreases argv.len() - k,
                {
                    rest.push(to_owned_string(argv[k].as_str()));
                    k += 1;
                }
                let words = join_strings(&rest);
                crate::text::push_str(&mut guess, words.as_str());
                crate::text::push_str(&mut guess, "\"?");
                host.print_error(guess.as_str());
            }
            return Ok(Value::success());
        }
        if flags.is_present("remove") {
            if parsed.len() == 0 {
                return Err(CommandError { message: to_owned_string("Please specify an alias to remove"), arg: 0 });
            }
            let name = to_owned_string(parsed[0].as_str());
            return match self.remove_alias(name.as_str(), frame, host) {
                Ok(()) => Ok(Value::success()),
                Err(m) => Err(CommandError { message: m, arg: position_of(argv, name.as_str()) }),
            };
        }
        if parsed.len() == 0 {
            return Err(CommandError { message: to_owned_string("NAME not specified"), arg: 0 });
        }
        if parsed.len() < 2 {
            return Err(CommandError { message: to_owned_string("EXPRESSION not specified"), arg: 0 });
        }
        let name = parsed.remove(0);
        if self.registry.get_command(name.as_str()) {
            let prompt = concat3("Command '", name.as_str(), "' already defined, override");
            if !matches!(self.confirm(prompt.as_str(), frame, false, host), Answer::Yes) {
                proof {
                    lemma_lookup_same_vars(old(self).scope, self.scope, frame as int, "NO_CONFIRM"@);
                }
                return Ok(Value::success());
            }
        }
        proof {
            lemma_lookup_same_vars(old(self).scope, self.scope, frame as int, "NO_CONFIRM"@);
        }
        self.register_alias(name, parsed);
        Ok(Value::success())
    }

    /// Run alias `name` with arguments `argv`: its words, then each argument
    /// as a raw string, evaluated as the `eval` command does.
    fn run_alias<H: Host>(&mut self, words: &Vec<String>, argv: &Vec<String>, frame: usize, host: &mut H) -> (res: Result<Value, CommandError>)
        requires
            old(self).inv(),
            frame < old(self).scope.frames.len(),
        ensures
            old(self).spent(&*final(self)),
        decreases old(self).steps(),
    {
        if self.tick(Location { line: 1, col: 1 }).is_err() {
            return Err(CommandError { message: to_owned_string("Evaluation step limit reached"), arg: 0 });
        }
        let mut expr = join_strings(words);
        crate::text::push_str(&mut expr, " ");
        let mut k: usize = 0;
        while k < argv.len()
            invariant
                k <= argv.len(),
            decreases argv.len() - k,
        {
            if k > 0 {
                crate::text::push_str(&mut expr, " ");
            }
            crate::text::push_str(&mut expr, "r\"(");
            crate::text::push_str(&mut expr, argv[k].as_str());
            crate::text::push_str(&mut expr, ")\"");
            k += 1;
        }
        let mut v: Vec<String> = Vec::new();
        v.push(expr);
        self.eval_command(&v, frame, host)
    }

    /// Is status `h` a failure?
    pub fn status_failed(&self, v: &Value) -> (res: bool)
        ensures
            res == (*v matches Value::Stat(h) && h < self.status_log().len() && self.status_log()[h as int].result is Err),
    {
        match v {
            Value::Stat(h) => *h < self.statuses.len() && self.statuses[*h].result.is_err(),
            _ => false,
        }
    }

    /// `lhs && rhs`: a failed command status on either side is the result, to be
    /// reported unless checked; else 1 if both are true.
    fn eval_and<H: Host>(&mut self, ast: &Ast, lhs: usize, rhs: usize, frame: usize, host: &mut H) -> (res: Result<Value, EvalError>)
        requires
            old(self).fits(ast, lhs as int),
            rhs < ast.nodes.len(),
            frame < old(self).scope.frames.len(),
        ensures
            old(self).spent(&*final(self)),
        decreases old(self).steps(),
    {
        self.tick(Self::loc_of(ast, lhs))?;
        let l = self.eval(ast, lhs, host)?;
        if self.status_failed(&l) {
            return Ok(l);
        }
        let r = self.eval(ast, rhs, host)?;
        Ok(self.and_outcome(l, r, frame))
    }

    /// The value of `l && r` once both sides are known: a failed command status
    /// `r` is the result, unchecked; else 1 if both are true, 0 if not.
    pub fn and_outcome(&mut self, l: Value, r: Value, frame: usize) -> (res: Value)
        requires
            old(self).inv(),
            frame < old(self).scopes().frames.len(),
        ensures
            final(self).inv(),
            final(self).scopes().frames.len() == old(self).scopes().frames.len(),
            final(self).steps() == old(self).steps(),
            (r matches Value::Stat(h) && h < old(self).status_log().len() && old(self).status_log()[h as int].result is Err)
                ==> res == r && *final(self) == *old(self),
            !(l is Stat) && !(r is Stat) ==> res@ == crate::value::SValue::Int(
                if crate::ops::spec_truthy(l@) && crate::ops::spec_truthy(r@) {
                    1
                } else {
                    0
                },
            ),
    {
        if self.status_failed(&r) {
            return r;
        }
        let all = self.value_as_bool(&l, frame) && self.value_as_bool(&r, frame);
        Value::Int(if all { 1 } else { 0 })
    }

    /// `lhs || rhs`: 1 if either is true; the right side is evaluated only if
    /// the left is false, and its command status is the result.
    fn eval_or<H: Host>(&mut self, ast: &Ast, lhs: usize, rhs: usize, frame: usize, host: &mut H) -> (res: Result<Value, EvalError>)
        requires
            old(self).fits(ast, lhs as int),
            rhs < ast.nodes.len(),
            frame < old(self).scope.frames.len(),
        ensures
            old(self).spent(&*final(self)),
        decreases old(self).steps(),
    {
        self.tick(Self::loc_of(ast, lhs))?;
        let l = self.eval(ast, lhs, host)?;
        if self.value_as_bool(&l, frame) {
            return Ok(Value::Int(1));
        }
        let r = self.eval(ast, rhs, host)?;
        Ok(self.or_outcome(r, frame))
    }

    /// The value of `l || r` once the left side was false and the right side is
    /// known: a command status `r` is the result, unchecked; else 1 if `r` is
    /// true, 0 if not.
    pub fn or_outcome(&mut self, r: Value, frame: usize) -> (res: Value)
        requires
            old(self).inv(),
            frame < old(self).scopes().frames.len(),
        ensures
            final(self).inv(),
            final(self).scopes().frames.len() == old(self).scopes().frames.len(),
            final(self).steps() == old(self).steps(),
            r is Stat ==> res == r && *final(self) == *old(self),
            !(r is Stat) ==> res@ == crate::value::SValue::Int(if crate::ops::spec_truthy(r@) {
                1
            } else {
                0
            }),
    {
        match r {
            Value::Stat(_) => r,
            _ => {
                let any = self.value_as_bool(&r, frame);
                Value::Int(if any { 1 } else { 0 })
            },
        }
    }

    /// `name = rhs` creates (or overwrites) `name` in the operation's scope;
    /// `$name = rhs` changes the variable that `$name` refers to. A command
    /// status cannot be assigned.
    fn eval_assign<H: Host>(&mut self, ast: &Ast, lhs: usize, rhs: usize, frame: usize, loc: Location, host: &mut H) -> (res: Result<Value, EvalError>)
        requires
            old(self).fits(ast, lhs as int),
            rhs < ast.nodes.len(),
            frame < old(self).scope.frames.len(),
        ensures
            old(self).spent(&*final(self)),
        decreases old(self).steps(),
    {
        self.tick(loc)?;
        let (name, lf) = match &ast.nodes[lhs] {
            Node::Leaf { text, frame, .. } => (&text.value, *frame),
            _ => {
                return Err(EvalError::new(loc, "Identifier expected on left hand-side of assignment"));
            },
        };
        proof { assert(node_frame(ast.nodes@[lhs as int]) < self.scope.frames.len()); }
        let v = self.eval(ast, rhs, host)?;
        self.store_assigned(ast, lhs, name, lf, v, frame, loc)
    }

    /// Store the value `v` of an assignment to `name` (the text of node `lhs`,
    /// in scope `lf`): a new variable of scope `frame`, or, for `$name`, the
    /// variable that it refers to. A command status is refused, and nothing is stored.
    pub fn store_assigned(
        &mut self,
        ast: &Ast,
        lhs: usize,
        name: &String,
        lf: usize,
        v: Value,
        frame: usize,
        loc: Location,
    ) -> (res: Result<Value, EvalError>)
        requires
            old(self).inv(),
            ast.wf(),
            lhs < ast.nodes.len(),
            lf < old(self).scopes().frames.len(),
            frame < old(self).scopes().frames.len(),
        ensures
            final(self).inv(),
            final(self).scopes().frames.len() == old(self).scopes().frames.len(),
            final(self).steps() == old(self).steps(),
            final(self).status_log() == old(self).status_log(),
            v is Stat ==> (res matches Err(e) && is_prefix(
                "Assignment of command status to variable is not allowed."@,
                e.message@,
            ) && e.loc == loc && final(self).scopes() == old(self).scopes()),
            !(v is Stat) && !(name@.len() > 0 && name@[0] == '$') ==> (res matches Ok(x) && x@ == v@
                && final(self).scopes().vars_of(frame as int) == old(self).scopes().vars_of(frame as int).insert(name@, v@)),
            !(v is Stat) && name@.len() > 0 && name@[0] == '$' ==> match old(self).scopes().holder(
                lf as int,
                name@.subrange(1, name@.len() as int),
            ) {
                Some(g) => res matches Ok(x) && x@ == v@ && final(self).scopes().vars_of(g) == old(self).scopes().vars_of(
                    g,
                ).insert(name@.subrange(1, name@.len() as int), v@),
                None => res matches Err(e) && e.message@ == "Variable not found: "@ + name@,
            },
    {
        match v {
            Value::Stat(h) => {
                let lead = "Assignment of command status to variable is not allowed.";
                let mut msg = chars_of(lead);
                let rest = chars_of(
                    "\nUse an IF expression to check for success or failure.\nTo capture the output, use the pipe syntax with a variable:\n",
                );
                vec_extend(&mut msg, &rest);
                msg.push(' ');
                if h < self.statuses.len() {
                    let c = chars_of(self.statuses[h].cmd.as_str());
                    vec_extend(&mut msg, &c);
                }
                let sep = chars_of(" | ");
                vec_extend(&mut msg, &sep);
                let t = node_text(ast, lhs, ast.nodes.len());
                vec_extend(&mut msg, &t);
                msg.push(';');
                proof {
                    assert(msg@.take(lead@.len() as int) =~= lead@);
                }
                return Err(EvalError { loc, message: string_of(&msg), jump: None });
            },
            _ => {},
        }
        let n = chars_of(name.as_str());
        if n.len() > 0 && n[0] == '$' {
            let var = vec_range(&n, 1, n.len());
            if self.scope.assign_from(lf, string_of(&var).as_str(), v.duplicate()) {
                Ok(v)
            } else {
                Err(EvalError { loc, message: concat("Variable not found: ", name.as_str()), jump: None })
            }
        } else {
            self.scope.insert_at(frame, name.clone(), v.duplicate());
            Ok(v)
        }
    }

    /// `$name =` erases the variable that `$name` refers to; returns its value.
    /// Unless a scope below the global one held it, it leaves the environment too.
    fn eval_erase<H: Host>(&mut self, ast: &Ast, lhs: usize, loc: Location, host: &mut H) -> (res: Result<Value, EvalError>)
        requires
            old(self).fits(ast, lhs as int),
        ensures
            final(self).inv(),
            final(self).scope.frames.len() == old(self).scope.frames.len(),
            final(self).budget == old(self).budget,
            match ast.nodes@[lhs as int] {
                Node::Leaf { text, frame, .. } => if text.value@.len() > 0 && text.value@[0] == '$' {
                    let var = text.value@.subrange(1, text.value@.len() as int);
                    match old(self).scope.holder(frame as int, var) {
                        Some(g) => {
                            &&& res matches Ok(v) && v@ == old(self).scope.vars_of(g)[var]
                            &&& final(self).scope.vars_of(g) == old(self).scope.vars_of(g).remove(var)
                        },
                        None => res matches Err(e) && e.message@ == "Variable not found: "@ + text.value@
                            && e.loc == loc,
                    }
                } else {
                    res matches Err(e) && e.message@ == "Variable expected on left hand-side of assignment"@ && e.loc
                        == loc
                },
                _ => res matches Err(e) && e.message@ == "Variable expected on left hand-side of assignment"@ && e.loc
                    == loc,
            },
    {
        match &ast.nodes[lhs] {
            Node::Leaf { text, frame, .. } => {
                proof { assert(node_frame(ast.nodes@[lhs as int]) < self.scope.frames.len()); }
                let n = chars_of(text.value.as_str());
                if n.len() > 0 && n[0] == '$' {
                    let var = string_of(&vec_range(&n, 1, n.len()));
                    match self.scope.holder_of(*frame, var.as_str()) {
                        Some(g) => {
                            if g == 0 {
                                host.unset_env(var.as_str());
                            }
                        },
                        None => {
                            host.unset_env(var.as_str());
                        },
                    }
                    return match self.scope.erase_from(*frame, var.as_str()) {
                        Some(v) => Ok(v),
                        None => Err(EvalError {
                            loc,
                            message: concat("Variable not found: ", text.value.as_str()),
                            jump: None,
                        }),
                    };
                }
            },
            _ => {},
        }
        Err(EvalError::new(loc, "Variable expected on left hand-side of assignment"))
    }

    /// A unary operation: `-x`, or `!x`, which negates a command status (a
    /// status stays a status) and the truth of any other value.
    fn eval_unary(&mut self, op: Op, v: Value, frame: usize, loc: Location) -> (res: Result<Value, EvalError>)
        requires
            old(self).inv(),
            frame < old(self).scope.frames.len(),
        ensures
            final(self).inv(),
            final(self).scope.frames.len() == old(self).scope.frames.len(),
            final(self).budget == old(self).budget,
            match op {
                Op::Minus => match crate::ops::spec_neg(v@) {
                    Ok(x) => res matches Ok(y) && y@ == x,
                    Err(m) => res matches Err(e) && e.message@ == m && e.loc == loc,
                },
                Op::Not => match v {
                    Value::Stat(h) => {
                        &&& res matches Ok(Value::Stat(k)) && k == h
                        &&& h < old(self).statuses.len() ==> final(self).statuses@.len() == old(self).statuses@.len()
                            && final(self).statuses@[h as int] == (Status { negated: true, ..old(self).statuses@[h as int] })
                    },
                    _ => res matches Ok(Value::Int(b)) && b == (if crate::ops::spec_truthy(v@) {
                        0int
                    } else {
                        1int
                    }),
                },
                _ => res matches Err(e) && e.message@ == "Unexpected unary operation"@ && e.loc == loc,
            },
    {
        match op {
            Op::Minus => match value_neg(&v) {
                Ok(x) => Ok(x),
                Err(m) => Err(EvalError { loc, message: m, jump: None }),
            },
            Op::Not => {
                match v {
                    Value::Stat(h) => {
                        self.hoist(frame, "__errors");
                        if h < self.statuses.len() {
                            let mut st = self.statuses.remove(h);
                            st.negated = true;
                            self.statuses.insert(h, st);
                        }
                        Ok(Value::Stat(h))
                    },
                    _ => {
                        let b = self.value_as_bool(&v, frame);
                        Ok(Value::Int(if b { 0 } else { 1 }))
                    },
                }
            },
            _ => Err(EvalError::new(loc, "Unexpected unary operation")),
        }
    }

    /// `lhs => file` (or `=>>`, appending): the output of `lhs` goes to the file.
    fn eval_write<H: Host>(&mut self, ast: &Ast, lhs: usize, rhs: usize, loc: Location, append: bool, host: &mut H) -> (res: Result<Value, EvalError>)
        requires
            old(self).fits(ast, lhs as int),
            rhs < ast.nodes.len(),
        ensures
            old(self).spent(&*final(self)),
        decreases old(self).steps(),
    {
        self.tick(loc)?;
        let f = self.eval(ast, rhs, host)?;
        let name = string_of(&value_chars(&f));
        match host.begin_write(name.as_str(), append) {
            Ok(true) => {
                let r = self.eval(ast, lhs, host);
                host.end_write();
                r
            },
            Ok(false) => Ok(Value::success()),
            Err(m) => Err(EvalError { loc, message: m, jump: None }),
        }
    }

    /// Evaluate `expr` keeping its standard output, which is returned.
    fn eval_redirect<H: Host>(&mut self, ast: &Ast, expr: usize, loc: Location, host: &mut H) -> (res: Result<String, EvalError>)
        requires
            old(self).fits(ast, expr as int),
        ensures
            old(self).spent(&*final(self)),
        decreases old(self).steps(),
    {
        self.tick(loc)?;
        match host.start_capture() {
            Ok(()) => {},
            Err(m) => {
                return Err(EvalError { loc, message: m, jump: None });
            },
        }
        let r = self.eval(ast, expr, host);
        let r = self.check_result(r, false);
        let out = host.end_capture();
        r?;
        Ok(out)
    }

    /// `lhs | rhs`. Into a variable name, the output of `lhs` (trimmed, read as a
    /// number when it is one) is assigned to it; a pipeline on the left runs in a
    /// shell of its own. Otherwise `rhs` runs in a shell of its own, reading the
    /// output of `lhs`; its exit code gives the status.
    fn eval_pipe<H: Host>(&mut self, ast: &Ast, lhs: usize, rhs: usize, frame: usize, loc: Location, host: &mut H) -> (res: Result<Value, EvalError>)
        requires
            old(self).fits(ast, lhs as int),
            rhs < ast.nodes.len(),
            frame < old(self).scope.frames.len(),
        ensures
            old(self).spent(&*final(self)),
        decreases old(self).steps(),
    {
        self.tick(loc)?;
        if lhs == 0 {
            return Err(EvalError::new(loc, "Expecting pipe input"));
        }
        let rloc = Self::loc_of(ast, rhs);
        match &ast.nodes[rhs] {
            Node::Leaf { text, .. } => {
                let output = if ast.is_op(lhs, Op::Pipe) {
                    let program = string_of(&node_text(ast, lhs, ast.nodes.len()));
                    match host.run_child(program.as_str(), None, &self.scope, frame) {
                        Ok((out, _code)) => out,
                        Err(m) => {
                            return Err(EvalError { loc: rloc, message: m, jump: None });
                        },
                    }
                } else {
                    self.eval_redirect(ast, lhs, loc, host)?
                };
                let t = trim(&chars_of(output.as_str()));
                let v = value_from_text(&t);
                self.scope.insert_at(frame, text.value.clone(), v.duplicate());
                return Ok(v);
            },
            _ => {},
        }
        match host.start_capture() {
            Ok(()) => {},
            Err(m) => {
                return Err(EvalError { loc, message: m, jump: None });
            },
        }
        let r = self.eval(ast, lhs, host);
        let lhs_result = self.check_result(r, false);
        let input = host.end_capture();
        let program = string_of(&node_text(ast, rhs, ast.nodes.len()));
        let (out, code) = match host.run_child(program.as_str(), Some(input), &self.scope, frame) {
            Ok(x) => x,
            Err(m) => {
                return Err(EvalError { loc: rloc, message: m, jump: None });
            },
        };
        lhs_result?;
        host.print(out.as_str());
        let result = if code == 0 {
            Ok(Value::success())
        } else {
            let msg = concat3(program.as_str(), ": exited with code ", crate::text::i64_to_string(code as i64).as_str());
            Err(EvalError { loc, message: msg, jump: None })
        };
        let h = self.statuses.len();
        self.statuses.push(Status { checked: false, cmd: program, negated: false, result, loc });
        Ok(Value::Stat(h))
    }

    /// One pass of a loop body: the body's result, with BREAK and CONTINUE
    /// caught; returns whether the loop goes on.
    fn iterate<H: Host>(&mut self, ast: &Ast, body: usize, result: &mut Result<Value, EvalError>, host: &mut H) -> (res: bool)
        requires
            old(self).fits(ast, body as int),
        ensures
            old(self).spent(&*final(self)),
        decreases old(self).steps(),
    {
        let loc = Self::loc_of(ast, body);
        match self.tick(loc) {
            Ok(()) => {},
            Err(e) => {
                *result = Err(e);
                return false;
            },
        }
        if host.interrupted() {
            return false;
        }
        let r = self.eval(ast, body, host);
        let r = self.check_failure(r);
        match r {
            Err(e) => {
                match e.jump {
                    Some(Jump::Break(v)) => {
                        *result = Ok(v);
                        false
                    },
                    Some(Jump::Continue(v)) => {
                        *result = Ok(v);
                        true
                    },
                    None => {
                        *result = Err(EvalError { loc: e.loc, message: e.message, jump: None });
                        false
                    },
                }
            },
            Ok(v) => {
                *result = Ok(v);
                true
            },
        }
    }

    /// Evaluate a WHILE.
    fn eval_loop<H: Host>(&mut self, ast: &Ast, i: usize, host: &mut H) -> (res: Result<Value, EvalError>)
        requires
            old(self).fits(ast, i as int),
            ast.nodes@[i as int] is Loop,
        ensures
            old(self).spent(&*final(self)),
        decreases old(self).steps(),
    {
        self.tick(Self::loc_of(ast, i))?;
        let (cond, body, frame, loc) = match &ast.nodes[i] {
            Node::Loop { cond, body, frame, loc } => (*cond, *body, *frame, *loc),
            _ => {
                return Err(EvalError::new(Self::loc_of(ast, i), "Expecting WHILE"));
            },
        };
        proof {
            assert(node_frame(ast.nodes@[i as int]) < self.scope.frames.len());
            assert(crate::ast::node_ok(ast.nodes@[i as int], ast.nodes.len() as nat));
        }
        if cond == 0 {
            return Err(EvalError::new(loc, "Expecting WHILE condition"));
        } else if body == 0 {
            return Err(EvalError::new(loc, "Expecting WHILE body"));
        }
        let mut result: Result<Value, EvalError> = Ok(Value::success());
        loop
            invariant
                self.inv(),
                self.scope.frames.len() == old(self).scope.frames.len(),
                self.steps() < old(self).steps(),
                ast.wf(),
                ast.frames_below(self.scope.frames.len() as nat),
                cond < ast.nodes.len(),
                body < ast.nodes.len(),
                frame < self.scope.frames.len(),
            decreases self.steps(),
        {
            if self.budget == 0 {
                return Err(out_of_steps(loc));
            }
            if !self.eval_as_bool(ast, cond, frame, host)? {
                break;
            }
            if !self.iterate(ast, body, &mut result, host) {
                break;
            }
        }
        result
    }

    /// Evaluate a FOR: the variable takes each argument in turn, in the FOR's scope.
    fn eval_for<H: Host>(&mut self, ast: &Ast, i: usize, host: &mut H) -> (res: Result<Value, EvalError>)
        requires
            old(self).fits(ast, i as int),
            ast.nodes@[i as int] is For,
        ensures
            old(self).spent(&*final(self)),
        decreases old(self).steps(),
    {
        self.tick(Self::loc_of(ast, i))?;
        let (var, args, body, frame, loc) = match &ast.nodes[i] {
            Node::For { var, args, body, frame, loc } => (var, *args, *body, *frame, *loc),
            _ => {
                return Err(EvalError::new(Self::loc_of(ast, i), "Expecting FOR"));
            },
        };
        proof {
            assert(node_frame(ast.nodes@[i as int]) < self.scope.frames.len());
            assert(crate::ast::node_ok(ast.nodes@[i as int], ast.nodes.len() as nat));
        }
        if var.as_str().unicode_len() == 0 {
            return Err(EvalError::new(loc, "Expecting FOR variable"));
        }
        if args == 0 || ast.is_no_args(args) {
            return Err(EvalError::new(loc, "Expecting FOR arguments"));
        }
        if body == 0 {
            return Err(EvalError::new(loc, "Expecting FOR body"));
        }
        let mut result: Result<Value, EvalError> = Ok(Value::success());
        let words = self.tokenize_args(ast, args, host)?;
        let mut k: usize = 0;
        while k < words.len()
            invariant
                self.inv(),
                self.scope.frames.len() == old(self).scope.frames.len(),
                self.steps() < old(self).steps(),
                ast.wf(),
                ast.frames_below(self.scope.frames.len() as nat),
                body < ast.nodes.len(),
                frame < self.scope.frames.len(),
                k <= words.len(),
            decreases words.len() - k,
        {
            let w = chars_of(words[k].as_str());
            self.scope.insert_at(frame, var.clone(), value_from_text(&w));
            if !self.iterate(ast, body, &mut result, host) {
                break;
            }
            k += 1;
        }
        result
    }
}

/// The words joined by spaces.
fn join_strings(v: &Vec<String>) -> (res: String)
    ensures
        res@ == crate::flags::join_space(crate::expand::strings_view(v@)),
{
    let mut out: Vec<char> = Vec::new();
    let mut i: usize = 0;
    while i < v.len()
        invariant
            i <= v.len(),
            out@ == crate::flags::join_space(crate::expand::strings_view(v@).take(i as int)),
        decreases v.len() - i,
    {
        let ghost w = crate::expand::strings_view(v@);
        proof {
            assert(w.take(i + 1).drop_last() =~= w.take(i as int));
            assert(w.take(i + 1).last() == v@[i as int]@);
        }
        if i > 0 {
            out.push(' ');
        }
        let c = chars_of(v[i].as_str());
        vec_extend(&mut out, &c);
        proof {
            if i == 0 {
                assert(out@ =~= w.take(1)[0]);
            }
        }
        i += 1;
    }
    proof {
        assert(crate::expand::strings_view(v@).take(v.len() as int) =~= crate::expand::strings_view(v@));
    }
    string_of(&out)
}

/// The first lines of the `alias` command's help.
const ALIAS_HELP_HEAD: &'static str = "Usage: alias [NAME EXPRESSION] [OPTIONS]\nRegister or deregister aliases (expression shortcuts).\n\nOptions:\n";

/// The rest of the `alias` command's help, after its options.
const ALIAS_HELP_TAIL: &'static str = "\nExamples:\n    alias la \"ls -al\"\n    alias --remove la\n    alias unalias \"alias --remove\"\n\nUsing quotes is recommended when registering aliases.\n";

/// The flags of the `alias` command.
fn alias_flags() -> (res: CommandFlags)
    ensures
        res.wf(),
        res.spec_flags() == alias_flag_specs(),
        res.spec_values() == Map::<Seq<char>, Seq<char>>::empty(),
        res.spec_index() == 0,
        res.spec_flags().len() == 3,
        res.spec_flags().contains(FlagSpec { short: Some('?'), long: "help"@, help: "Display this help message"@, takes_value: false, default_value: None }),
        res.spec_flags().contains(FlagSpec { short: Some('r'), long: "remove"@, help: "Remove an existing alias"@, takes_value: false, default_value: None }),
        res.spec_flags().contains(FlagSpec { short: Some('l'), long: "list"@, help: "List all aliases"@, takes_value: false, default_value: None }),
{
    let mut flags = CommandFlags::with_help();
    proof { assert(flags.spec_flags()[0] == FlagSpec { short: Some('?'), long: "help"@, help: "Display this help message"@, takes_value: false, default_value: None }); }
    proof {
        reveal_strlit("help");
        reveal_strlit("remove");
        reveal_strlit("list");
    }
    let ghost f0 = flags.spec_flags();
    assert("help"@.len() == 4);
    assert("remove"@.len() == 6);
    assert("list"@.len() == 4);
    assert("help"@[0] != "list"@[0]);
    assert(find_long(f0, "remove"@) is None);
    assert(find_long(f0, "list"@) is None);
    let ghost pre_flags_0 = flags.spec_flags();
    flags.add_flag('r', "remove", "Remove an existing alias");
    proof { crate::flags::lemma_insertion_keeps(pre_flags_0, flags.spec_flags(), FlagSpec { short: Some('r'), long: "remove"@, help: "Remove an existing alias"@, takes_value: false, default_value: None }); }
    proof {
        let f = FlagSpec {
            short: Some('r'),
            long: "remove"@,
            help: "Remove an existing alias"@,
            takes_value: false,
            default_value: None,
        };
        lemma_insertion_absent(f0, flags.spec_flags(), f, "list"@, 'l');
    }
    let ghost pre_flags_1 = flags.spec_flags();
    flags.add_flag('l', "list", "List all aliases");
    proof { crate::flags::lemma_insertion_keeps(pre_flags_1, flags.spec_flags(), FlagSpec { short: Some('l'), long: "list"@, help: "List all aliases"@, takes_value: false, default_value: None }); }
    proof {
        reveal_strlit("help");
        reveal_strlit("list");
        reveal_strlit("remove");
        assert("help"@[0] == 'h' && "list"@[0] == 'l' && "remove"@[0] == 'r');
        assert(crate::text::seq_lt("help"@, "list"@));
        assert(crate::text::seq_lt("list"@, "remove"@));
        crate::flags::lemma_wf_sorted(flags);
        crate::flags::lemma_three_flags(flags.spec_flags(), FlagSpec { short: Some('?'), long: "help"@, help: "Display this help message"@, takes_value: false, default_value: None }, FlagSpec { short: Some('l'), long: "list"@, help: "List all aliases"@, takes_value: false, default_value: None }, FlagSpec { short: Some('r'), long: "remove"@, help: "Remove an existing alias"@, takes_value: false, default_value: None });
    }
    flags
}

/// The first line of the `eval` command's help.
const EVAL_HELP_HEAD: &'static str = "Usage: eval EXPR...\nEvaluate each argument as an expression, stopping at the first error.\n\nOptions:\n";

/// The rest of the `eval` command's help, after its options.
const EVAL_HELP_TAIL: &'static str = "If --source is specified, the 1st argument after that is assumed to be the path to a\nfile containing script code, and the rest of the arguments are passed to the script.\n\nEach expression to be evaluated must to be surrounded by quotes if non-trivial, e.g.\n    eval --export \"x = 100\"\n    eval \"x = 1\" \"y = 2\"\n\nWithout quotes, the intepreter evaluates the command line as one single expression.\n\n";

/// The flags of the `eval` command.
fn eval_flags() -> (res: CommandFlags)
    ensures
        res.wf(),
        res.spec_values() == Map::<Seq<char>, Seq<char>>::empty(),
        res.spec_flags().len() == 4,
        res.spec_flags().contains(FlagSpec { short: Some('?'), long: "help"@, help: "Display this help message"@, takes_value: false, default_value: None }),
        res.spec_flags().contains(FlagSpec { short: Some('x'), long: "export"@, help: "Export variables to environment"@, takes_value: false, default_value: None }),
        res.spec_flags().contains(FlagSpec { short: Some('s'), long: "source"@, help: "Treat the argument as path to script source"@, takes_value: false, default_value: None }),
        res.spec_flags().contains(FlagSpec { short: Some('q'), long: "quiet"@, help: "Quiet (suppress output)"@, takes_value: false, default_value: None }),
{
    let mut flags = CommandFlags::with_help();
    proof { assert(flags.spec_flags()[0] == FlagSpec { short: Some('?'), long: "help"@, help: "Display this help message"@, takes_value: false, default_value: None }); }
    proof {
        reveal_strlit("help");
        reveal_strlit("export");
        reveal_strlit("source");
        reveal_strlit("quiet");
    }
    let ghost f0 = flags.spec_flags();
    assert("help"@.len() == 4);
    assert("export"@.len() == 6);
    assert("source"@.len() == 6);
    assert("quiet"@.len() == 5);
    assert(find_long(f0, "export"@) is None);
    assert(find_long(f0, "source"@) is None);
    assert(find_long(f0, "quiet"@) is None);
    let ghost pre_flags_0 = flags.spec_flags();
    flags.add_flag('x', "export", "Export variables to environment");
    proof { crate::flags::lemma_insertion_keeps(pre_flags_0, flags.spec_flags(), FlagSpec { short: Some('x'), long: "export"@, help: "Export variables to environment"@, takes_value: false, default_value: None }); }
    proof {
        let f = FlagSpec {
            short: Some('x'),
            long: "export"@,
            help: "Export variables to environment"@,
            takes_value: false,
            default_value: None,
        };
        assert("export"@[0] != "source"@[0]);
        lemma_insertion_absent(f0, flags.spec_flags(), f, "source"@, 's');
        lemma_insertion_absent(f0, flags.spec_flags(), f, "quiet"@, 'q');
    }
    let ghost f1 = flags.spec_flags();
    let ghost pre_flags_1 = flags.spec_flags();
    flags.add_flag('s', "source", "Treat the argument as path to script source");
    proof { crate::flags::lemma_insertion_keeps(pre_flags_1, flags.spec_flags(), FlagSpec { short: Some('s'), long: "source"@, help: "Treat the argument as path to script source"@, takes_value: false, default_value: None }); }
    proof {
        let f = FlagSpec {
            short: Some('s'),
            long: "source"@,
            help: "Treat the argument as path to script source"@,
            takes_value: false,
            default_value: None,
        };
        lemma_insertion_absent(f1, flags.spec_flags(), f, "quiet"@, 'q');
    }
    let ghost pre_flags_2 = flags.spec_flags();
    flags.add_flag('q', "quiet", "Quiet (suppress output)");
    proof { crate::flags::lemma_insertion_keeps(pre_flags_2, flags.spec_flags(), FlagSpec { short: Some('q'), long: "quiet"@, help: "Quiet (suppress output)"@, takes_value: false, default_value: None }); }
    flags
}

/// The (1-based) position of the first of `args` that is `arg`, or 0.
fn position_of(args: &Vec<String>, arg: &str) -> (res: usize)
    ensures
        res == 0 ==> forall|i: int| 0 <= i < args.len() ==> args@[i]@ != arg@,
        res > 0 ==> res <= args.len() && args@[res - 1]@ == arg@
            && forall|i: int| 0 <= i < res - 1 ==> args@[i]@ != arg@,
{
    let mut i: usize = 0;
    while i < args.len()
        invariant
            i <= args.len(),
            forall|j: int| 0 <= j < i ==> args@[j]@ != arg@,
        decreases args.len() - i,
    {
        if str_eq(args[i].as_str(), arg) {
            return i + 1;
        }
        i += 1;
    }
    0
}

/// The location of the argument at fault (1-based position `arg`, 0 for none)
/// among the arguments `args` of a command; else that of the arguments.
fn err_loc(ast: &Ast, args: usize, arg: usize) -> (res: Location)
    requires
        ast.wf(),
        args < ast.nodes.len(),
    ensures
        res == (match ast.nodes@[args as int] {
            Node::Args(g) => if 0 < arg && arg - 1 < g.content@.len() {
                crate::ast::node_loc(ast.nodes@[g.content@[arg - 1] as int], Location { line: 0, col: 0 })
            } else {
                crate::ast::node_loc(ast.nodes@[args as int], Location { line: 0, col: 0 })
            },
            _ => crate::ast::node_loc(ast.nodes@[args as int], Location { line: 0, col: 0 }),
        }),
{
    if arg > 0 {
        match &ast.nodes[args] {
            Node::Args(g) => {
                if arg - 1 < g.content.len() {
                    proof { assert(crate::ast::node_ok(ast.nodes@[args as int], ast.nodes.len() as nat)); }
                    return ast.loc(g.content[arg - 1], Location { line: 0, col: 0 });
                }
            },
            _ => {},
        }
    }
    ast.loc(args, Location { line: 0, col: 0 })
}

/// Where a standard stream goes, in specifications.
pub enum PlanView {
    Keep,
    Null,
    ToOther,
    File(Seq<char>),
}

/// The view of a redirection plan.
pub open spec fn plan_view(r: Result<Redirect, String>) -> Result<PlanView, Seq<char>> {
    match r {
        Ok(Redirect::Keep) => Ok(PlanView::Keep),
        Ok(Redirect::Null) => Ok(PlanView::Null),
        Ok(Redirect::ToOther) => Ok(PlanView::ToOther),
        Ok(Redirect::File(p)) => Ok(PlanView::File(p@)),
        Err(e) => Err(e@),
    }
}

/// Where a stream goes whose variable `name` holds `path`, after `hops`
/// steps through the other stream's variable: `null` discards it; naming the
/// other stream sends it there, or, if that has a variable, where that
/// points (a cycle, or a third step, is an error); any other text is a file.
pub open spec fn redirect_from(
    scope: Scope,
    f: int,
    name: Seq<char>,
    other: Seq<char>,
    other_desc: Seq<char>,
    path: Seq<char>,
    hops: nat,
) -> Result<PlanView, Seq<char>>
    decreases 2 - hops,
{
    if path == "null"@ {
        Ok(PlanView::Null)
    } else if path == other || path == other_desc {
        match scope.lookup_from(f, other) {
            Some(o) => {
                let op = crate::expand::value_text(o);
                let d = if other_desc == "1"@ {
                    "2"@
                } else {
                    "1"@
                };
                if op == name || op == path || op == d || hops >= 2 {
                    Err("Cyclical "@ + name + " redirection"@)
                } else {
                    redirect_from(scope, f, name, other, other_desc, op, hops + 1)
                }
            },
            None => Ok(PlanView::ToOther),
        }
    } else {
        Ok(PlanView::File(path))
    }
}

/// How the stream of variable `name` is redirected, seen from scope `f`.
pub open spec fn redirect_spec(scope: Scope, f: int, name: Seq<char>, other: Seq<char>, other_desc: Seq<char>) -> Result<
    PlanView,
    Seq<char>,
> {
    match scope.lookup_from(f, name) {
        Some(v) => redirect_from(scope, f, name, other, other_desc, crate::expand::value_text(v), 0),
        None => Ok(PlanView::Keep),
    }
}

/// How a standard stream of a command is redirected: by variable `name`
/// (`__stdout` or `__stderr`), seen from scope `f`. `null` discards it; naming
/// the other stream (or its number, `other_desc`) sends it there, following
/// that one's own redirection; anything else names a file.
fn redirect_plan(scope: &Scope, f: usize, name: &str, other: &str, other_desc: &str) -> (res: Result<Redirect, String>)
    requires
        scope.wf(),
        f < scope.frames.len(),
    ensures
        plan_view(res) == redirect_spec(*scope, f as int, name@, other@, other_desc@),
{
    match scope.lookup_from_frame(f, name) {
        Some(v) => {
            let mut path = value_chars(&v);
            let mut hops: usize = 0;
            loop
                invariant
                    scope.wf(),
                    f < scope.frames.len(),
                    hops <= 2,
                    redirect_spec(*scope, f as int, name@, other@, other_desc@) == redirect_from(
                        *scope,
                        f as int,
                        name@,
                        other@,
                        other_desc@,
                        path@,
                        hops as nat,
                    ),
                decreases 2 - hops,
            {
                if str_eq_vec("null", &path) {
                    return Ok(Redirect::Null);
                }
                if str_eq_vec(other, &path) || str_eq_vec(other_desc, &path) {
                    match scope.lookup_from_frame(f, other) {
                        Some(o) => {
                            let desc = if str_eq(other_desc, "1") { "2" } else { "1" };
                            let other_path = value_chars(&o);
                            if str_eq_vec(name, &other_path) || crate::text::vec_eq(&other_path, &path)
                                || str_eq_vec(desc, &other_path) || hops == 2 {
                                return Err(concat3("Cyclical ", name, " redirection"));
                            }
                            path = other_path;
                            hops = hops + 1;
                            continue;
                        },
                        None => {
                            return Ok(Redirect::ToOther);
                        },
                    }
                }
                return Ok(Redirect::File(string_of(&path)));
            }
        },
        None => Ok(Redirect::Keep),
    }
}

/// The text of node `i` of `nodes` as it would be written, at most `depth`
/// levels deep: arguments apart by spaces, a block in parentheses with its
/// expressions apart by `; `, operators between their operands, a command and
/// its arguments, the keywords of IF, FOR and WHILE, and words as quoted.
pub open spec fn written(nodes: Seq<Node>, i: int, depth: nat) -> Seq<char>
    decreases depth, 0nat,
{
    if depth == 0 || i < 0 || i >= nodes.len() {
        Seq::empty()
    } else {
        let d = (depth - 1) as nat;
        match nodes[i] {
            Node::Empty => Seq::empty(),
            Node::Args(g) => written_list(nodes, g.content@, d, " "@),
            Node::Group(g) => "( "@ + written_list(nodes, g.content@, d, "; "@) + " )"@,
            Node::Bin { op, lhs, rhs, .. } => written(nodes, lhs as int, d) + " "@ + op.text() + " "@ + written(
                nodes,
                rhs as int,
                d,
            ),
            Node::Cmd { name, args, .. } => if no_args(nodes, args as int) {
                name@
            } else {
                name@ + " "@ + written(nodes, args as int, d)
            },
            Node::Branch { cond, if_branch, else_branch, .. } => "if "@ + written(nodes, cond as int, d) + " "@
                + written(nodes, if_branch as int, d) + if else_branch != 0 {
                " else "@ + written(nodes, else_branch as int, d)
            } else {
                Seq::empty()
            },
            Node::For { var, args, body, .. } => "for "@ + var@ + " in "@ + written(nodes, args as int, d) + "; "@
                + written(nodes, body as int, d),
            Node::Leaf { text, .. } => if text.quoted {
                if text.raw {
                    "r\"("@ + text.value@ + ")\""@
                } else {
                    "\""@ + text.value@ + "\""@
                }
            } else {
                text.value@
            },
            Node::Loop { cond, body, .. } => "while "@ + written(nodes, cond as int, d) + " "@ + written(
                nodes,
                body as int,
                d,
            ),
        }
    }
}

/// Is node `a` an argument list with no arguments?
pub open spec fn no_args(nodes: Seq<Node>, a: int) -> bool {
    nodes[a] matches Node::Args(h) && h.content@.len() == 0
}

/// The texts of nodes `items`, `d` levels deep, apart by `sep`.
pub open spec fn written_list(nodes: Seq<Node>, items: Seq<usize>, d: nat, sep: Seq<char>) -> Seq<char>
    decreases d, items.len() + 1,
{
    if items.len() == 0 {
        Seq::empty()
    } else if items.len() == 1 {
        written(nodes, items[0] as int, d)
    } else {
        written_list(nodes, items.drop_last(), d, sep) + sep + written(nodes, items.last() as int, d)
    }
}

/// The text of node `i` as it would be written (at most `depth` levels deep).
fn node_text(ast: &Ast, i: usize, depth: usize) -> (res: Vec<char>)
    requires
        ast.wf(),
        i < ast.nodes.len(),
    ensures
        res@ == written(ast.nodes@, i as int, depth as nat),
    decreases depth,
{
    proof {
        reveal_strlit(" ");
        reveal_strlit("; ");
        reveal_strlit("( ");
        reveal_strlit(" )");
        reveal_strlit("if ");
        reveal_strlit(" else ");
        reveal_strlit("for ");
        reveal_strlit(" in ");
        reveal_strlit("while ");
        reveal_strlit("r\"(");
        reveal_strlit(")\"");
        reveal_strlit("\"");
    }
    let mut out: Vec<char> = Vec::new();
    if depth == 0 {
        return out;
    }
    proof { assert(crate::ast::node_ok(ast.nodes@[i as int], ast.nodes.len() as nat)); }
    match &ast.nodes[i] {
        Node::Empty => {},
        Node::Args(g) => {
            let content = &g.content;
            let mut k: usize = 0;
            while k < content.len()
                invariant
                    ast.wf(),
                    i < ast.nodes.len(),
                    depth > 0,
                    crate::ast::node_ok(ast.nodes@[i as int], ast.nodes.len() as nat),
                    (ast.nodes@[i as int] matches Node::Args(h) && content@ == h.content@),
                    k <= content.len(),
                    out@ == written_list(ast.nodes@, content@.take(k as int), (depth - 1) as nat, " "@),
                decreases content.len() - k,
            {
                if k > 0 {
                    out.push(' ');
                }
                proof {
                    assert(crate::ast::node_ok(ast.nodes@[i as int], ast.nodes.len() as nat));
                    assert(content@[k as int] < ast.nodes.len());
                }
                let ghost before = out@;
                let t = node_text(ast, content[k], depth - 1);
                vec_extend(&mut out, &t);
                proof {
                    reveal_strlit(" ");
                    let tk1 = content@.take(k + 1);
                    assert(tk1.drop_last() =~= content@.take(k as int));
                    assert(tk1.last() == content@[k as int]);
                    if k == 0 {
                        assert(out@ =~= written_list(ast.nodes@, tk1, (depth - 1) as nat, " "@));
                    } else {
                        assert(out@ =~= written_list(ast.nodes@, tk1, (depth - 1) as nat, " "@));
                    }
                }
                k += 1;
            }
            proof {
                assert(content@.take(content@.len() as int) =~= content@);
            }
        },
        Node::Group(g) => {
            out.push('(');
            out.push(' ');
            let content = &g.content;
            let mut k: usize = 0;
            while k < content.len()
                invariant
                    ast.wf(),
                    i < ast.nodes.len(),
                    depth > 0,
                    crate::ast::node_ok(ast.nodes@[i as int], ast.nodes.len() as nat),
                    (ast.nodes@[i as int] matches Node::Group(h) && content@ == h.content@),
                    k <= content.len(),
                    out@ == "( "@ + written_list(ast.nodes@, content@.take(k as int), (depth - 1) as nat, "; "@),
                decreases content.len() - k,
            {
                if k > 0 {
                    out.push(';');
                    out.push(' ');
                }
                proof {
                    assert(crate::ast::node_ok(ast.nodes@[i as int], ast.nodes.len() as nat));
                    assert(content@[k as int] < ast.nodes.len());
                }
                let t = node_text(ast, content[k], depth - 1);
                vec_extend(&mut out, &t);
                proof {
                    reveal_strlit("; ");
                    reveal_strlit("( ");
                    let tk1 = content@.take(k + 1);
                    assert(tk1.drop_last() =~= content@.take(k as int));
                    assert(tk1.last() == content@[k as int]);
                    assert(out@ =~= "( "@ + written_list(ast.nodes@, tk1, (depth - 1) as nat, "; "@));
                }
                k += 1;
            }
            proof {
                assert(content@.take(content@.len() as int) =~= content@);
            }
            out.push(' ');
            out.push(')');
        },
        Node::Bin { op, lhs, rhs, .. } => {
            let l = node_text(ast, *lhs, depth - 1);
            let r = node_text(ast, *rhs, depth - 1);
            vec_extend(&mut out, &l);
            out.push(' ');
            let o = chars_of(op.as_str());
            vec_extend(&mut out, &o);
            out.push(' ');
            vec_extend(&mut out, &r);
        },
        Node::Cmd { name, args, .. } => {
            let n = chars_of(name.as_str());
            vec_extend(&mut out, &n);
            if !ast.is_no_args(*args) {
                out.push(' ');
                let a = node_text(ast, *args, depth - 1);
                vec_extend(&mut out, &a);
            }
        },
        Node::Branch { cond, if_branch, else_branch, .. } => {
            let w = chars_of("if ");
            vec_extend(&mut out, &w);
            let c = node_text(ast, *cond, depth - 1);
            vec_extend(&mut out, &c);
            out.push(' ');
            let b = node_text(ast, *if_branch, depth - 1);
            vec_extend(&mut out, &b);
            if *else_branch != 0 {
                let w2 = chars_of(" else ");
                vec_extend(&mut out, &w2);
                let e = node_text(ast, *else_branch, depth - 1);
                vec_extend(&mut out, &e);
            }
        },
        Node::For { var, args, body, .. } => {
            let w = chars_of("for ");
            vec_extend(&mut out, &w);
            let v = chars_of(var.as_str());
            vec_extend(&mut out, &v);
            let w2 = chars_of(" in ");
            vec_extend(&mut out, &w2);
            let a = node_text(ast, *args, depth - 1);
            vec_extend(&mut out, &a);
            out.push(';');
            out.push(' ');
            let b = node_text(ast, *body, depth - 1);
            vec_extend(&mut out, &b);
        },
        Node::Leaf { text, .. } => {
            let v = chars_of(text.value.as_str());
            if text.quoted {
                if text.raw {
                    out.push('r');
                    out.push('"');
                    out.push('(');
                    vec_extend(&mut out, &v);
                    out.push(')');
                    out.push('"');
                } else {
                    out.push('"');
                    vec_extend(&mut out, &v);
                    out.push('"');
                }
            } else {
                vec_extend(&mut out, &v);
            }
        },
        Node::Loop { cond, body, .. } => {
            let w = chars_of("while ");
            vec_extend(&mut out, &w);
            let c = node_text(ast, *cond, depth - 1);
            vec_extend(&mut out, &c);
            out.push(' ');
            let b = node_text(ast, *body, depth - 1);
            vec_extend(&mut out, &b);
        },
    }
    out
}

} // verus!

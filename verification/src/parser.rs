//! The parser: builds the syntax tree of an input, token by token.
//!
//! Expressions under construction are kept on a stack; operations of low
//! precedence wait there for their right operand, and each group (a block
//! `( ... )` or an argument list) opens a scope of its own.
use vstd::prelude::*;
use crate::ast::{
    Ast, GroupNode, Node, add_child_error, grown_from, node_ok, node_frame, spec_is_complete,
};
use crate::lexer::{
    LexContext, LexError, Lexer, Location, Op, Priority, Text, Token, bare_word, glob_fits, is_keyword,
    lead_token, lemma_literal_word, lone_literal_word, priority_rank, quoted_to_end, tilde_word, expanded_word,
    upper_word,
};
use crate::registry::Registry;
use crate::scope::Scope;
use crate::text::{chars_of, str_eq, to_owned_string, u64_to_chars, vec_extend, string_of, nat_to_decimal};
use crate::value::{Value, numeric_text};
use crate::expand::value_chars;

verus! {

/// A jump out of a loop body: BREAK or CONTINUE, with the value reached so far.
pub enum Jump {
    Break(Value),
    Continue(Value),
}

/// An error of parsing or evaluation: where, what, and whether it is a BREAK or
/// CONTINUE on its way to the loop that catches it.
pub struct EvalError {
    pub loc: Location,
    pub message: String,
    pub jump: Option<Jump>,
}

/// An error shown as text: `line:col: message`.
pub open spec fn error_text(loc: Location, message: Seq<char>) -> Seq<char> {
    nat_to_decimal(loc.line as nat) + seq![':'] + nat_to_decimal(loc.col as nat) + seq![':', ' '] + message
}

impl EvalError {
    /// An error at `loc`.
    pub fn new(loc: Location, message: &str) -> (res: EvalError)
        ensures
            res.loc == loc,
            res.message@ == message@,
            res.jump is None,
    {
        EvalError { loc, message: to_owned_string(message), jump: None }
    }

    /// The error as text: line and column, then the message.
    pub fn to_text(&self) -> (res: String)
        ensures
            res@ == error_text(self.loc, self.message@),
    {
        let mut t = u64_to_chars(self.loc.line as u64);
        t.push(':');
        let c = u64_to_chars(self.loc.col as u64);
        vec_extend(&mut t, &c);
        t.push(':');
        t.push(' ');
        let m = chars_of(self.message.as_str());
        vec_extend(&mut t, &m);
        string_of(&t)
    }

    /// The error that the lexer found.
    pub fn from_lex(e: LexError) -> (res: EvalError)
        ensures
            res.loc == e.loc,
            res.message@ == e.message@,
            res.jump is None,
    {
        EvalError { loc: e.loc, message: e.message, jump: None }
    }
}

/// Where a new group goes: none (ELSE), an argument list, or a block.
#[derive(PartialEq, Eq, Structural, Clone, Copy)]
pub enum GroupKind {
    NoGroup,
    Args,
    Block,
}

/// The parser's state.
pub struct Parser {
    lexer: Lexer,
    ast: Ast,
    scope: Scope,
    frame: usize,
    frame_stack: Vec<usize>,
    current: usize,
    expr_stack: Vec<usize>,
    group: usize,
    group_stack: Vec<usize>,
    expect_else_expr: bool,
    prev_loc: Location,
}

/// Is node `i` of `nodes` a group or an argument list?
pub open spec fn is_group_like(nodes: Seq<Node>, i: int) -> bool {
    0 < i < nodes.len() && (nodes[i] is Args || nodes[i] is Group)
}

impl Parser {
    /// The invariant of the parser: the tree, the scopes and the lexer are well
    /// formed, and every position on its stacks is in the tree or the scope table.
    pub closed spec fn wf(&self) -> bool {
        &&& self.lexer.wf()
        &&& self.ast.wf()
        &&& self.scope.wf()
        &&& self.ast.frames_below(self.scope.frames.len() as nat)
        &&& self.frame < self.scope.frames.len()
        &&& forall|k: int| 0 <= k < self.frame_stack.len() ==> #[trigger] self.frame_stack@[k] < self.scope.frames.len()
        &&& self.current < self.ast.nodes.len()
        &&& forall|k: int| 0 <= k < self.expr_stack.len() ==> #[trigger] self.expr_stack@[k] < self.ast.nodes.len()
        &&& is_group_like(self.ast.nodes@, self.group as int)
        &&& forall|k: int| 0 <= k < self.group_stack.len() ==> is_group_like(self.ast.nodes@, #[trigger] self.group_stack@[k] as int)
        &&& self.group_stack.len() == self.frame_stack.len()
    }

    /// The tree read so far.
    pub closed spec fn tree(&self) -> Ast {
        self.ast
    }

    /// The scopes.
    pub closed spec fn scopes(&self) -> Scope {
        self.scope
    }

    /// The tree and the scopes, once the input is read.
    pub fn into_parts(self) -> (res: (Ast, Scope))
        ensures
            res.0 == self.tree(),
            res.1 == self.scopes(),
    {
        (self.ast, self.scope)
    }

    /// The input being read.
    pub closed spec fn input(&self) -> Seq<char> {
        self.lexer.input()
    }

    /// Nothing read yet: the lexer at the start of the input, between tokens,
    /// and the parser in its top block with no expression.
    pub closed spec fn fresh(&self) -> bool {
        &&& self.lexer.position() == 0
        &&& self.lexer.pending() == 0
        &&& self.lexer.at_rest()
        &&& self.group_stack.len() == 0
        &&& self.expr_stack.len() == 0
        &&& self.current == 0
        &&& self.ast.nodes@[self.group as int] matches Node::Group(g) && g.content@.len() == 0
        &&& self.ast.nodes.len() == 2
        &&& !self.expect_else_expr
    }

    /// The scope that the expressions read belong to.
    pub closed spec fn home_frame(&self) -> usize {
        self.frame
    }

    /// The position in the input.
    pub closed spec fn progress(&self) -> (int, int) {
        (self.lexer.input().len() - self.lexer.position(), self.lexer.pending())
    }

    /// A parser of `input`, whose expressions live in scope `frame` of `scope`:
    /// the tree holds one open block, which will hold the statements.
    pub fn new(input: &str, scope: Scope, frame: usize) -> (res: Parser)
        requires
            scope.wf(),
            frame < scope.frames.len(),
        ensures
            res.wf(),
            res.scopes() == scope,
            res.input() == input@,
            res.fresh(),
            res.home_frame() == frame,
    {
        let lexer = Lexer::new(input);
        let loc = lexer.loc();
        let mut ast = Ast::new();
        let g = ast.push_node(Node::Group(GroupNode { closed: false, frame, content: Vec::new(), loc }));
        let p = Parser {
            lexer,
            ast,
            scope,
            frame,
            frame_stack: Vec::new(),
            current: 0,
            expr_stack: Vec::new(),
            group: g,
            group_stack: Vec::new(),
            expect_else_expr: false,
            prev_loc: loc,
        };
        assert(p.ast.frames_below(p.scope.frames.len() as nat)) by {
            assert forall|i: int| 0 <= i < p.ast.nodes.len() implies node_frame(#[trigger] p.ast.nodes@[i])
                < p.scope.frames.len() by {
                if i == 1 {
                } else {
                    assert(i == 0);
                }
            }
        }
        p
    }

    /// An error at the parser's location.
    fn error(&self, message: &str) -> (res: EvalError)
        ensures
            res.message@ == message@,
            res.jump is None,
            res.loc == self.lexer.location(),
    {
        EvalError::new(self.lexer.loc(), message)
    }

    /// The location of node `i`.
    fn loc_of(&self, i: usize) -> (res: Location)
        requires
            i < self.ast.nodes.len(),
        ensures
            res == crate::ast::node_loc(self.ast.nodes@[i as int], self.lexer.location()),
    {
        self.ast.loc(i, self.lexer.loc())
    }

    /// Is the current expression a literal that reads as a number (its text
    /// expanded in its scope, or in the current one)?
    closed spec fn spec_current_is_number(&self) -> bool {
        match self.ast.nodes@[self.current as int] {
            Node::Leaf { text, frame, .. } => {
                let f = if frame < self.scope.frames.len() {
                    frame
                } else {
                    self.frame
                };
                text.value@.len() < usize::MAX && crate::value::is_numeric_text(
                    crate::expand::value_text(crate::expand::spec_parse_value(text.value@, self.scope, f as int)),
                )
            },
            _ => false,
        }
    }

    /// Is the current expression a literal that reads as a number (see
    /// [`Parser::spec_current_is_number`])?
    fn current_is_number(&self) -> (res: bool)
        requires
            self.wf(),
        ensures
            res == self.spec_current_is_number(),
    {
        match &self.ast.nodes[self.current] {
            Node::Leaf { text, frame, .. } => {
                let t = chars_of(text.value.as_str());
                let f = if *frame < self.scope.frames.len() { *frame } else { self.frame };
                if t.len() >= usize::MAX {
                    return false;
                }
                let v = self.scope.parse_value(&t, f);
                numeric_text(&value_chars(&v))
            },
            _ => false,
        }
    }

    /// What the lexer needs to know about the expression being built.
    fn context(&self) -> (res: LexContext)
        requires
            self.wf(),
        ensures
            res == (LexContext {
                in_args: self.ast.nodes@[self.group as int] is Args,
                current_is_cmd: self.ast.nodes@[self.current as int] is Cmd,
                current_is_empty: self.ast.nodes@[self.current as int] is Empty,
                current_is_number: self.spec_current_is_number(),
            }),
    {
        LexContext {
            in_args: self.ast.is_args(self.group),
            current_is_cmd: self.ast.is_cmd(self.current),
            current_is_empty: self.ast.is_empty(self.current),
            current_is_number: self.current_is_number(),
        }
    }

    /// Add node `n` to the tree; it belongs to the current scope.
    fn new_node(&mut self, n: Node) -> (res: Result<usize, EvalError>)
        requires
            old(self).wf(),
            node_ok(n, old(self).ast.nodes.len() as nat),
            node_frame(n) < old(self).scope.frames.len(),
        ensures
            final(self).wf(),
            final(self).progress() == old(self).progress(),
            final(self).lexer == old(self).lexer,
            old(self).ast.nodes.len() <= final(self).ast.nodes.len(),
            final(self).scope.frames@ == old(self).scope.frames@,
            final(self).scope.current == old(self).scope.current,
            final(self).current == old(self).current,
            res matches Ok(r) ==> r == old(self).ast.nodes.len() && r > 0
                && final(self).ast.nodes@ == old(self).ast.nodes@.push(n),
            res is Ok <==> old(self).ast.nodes.len() < usize::MAX - 1,
            res matches Err(e) ==> e.message@ == "Input too large"@ && final(self).ast == old(self).ast,
            final(self).frame == old(self).frame,
            final(self).group == old(self).group,
            final(self).frame_stack@ == old(self).frame_stack@,
            final(self).group_stack@ == old(self).group_stack@,
            final(self).expr_stack@ == old(self).expr_stack@,
            final(self).prev_loc == old(self).prev_loc,
            final(self).scope == old(self).scope,
            final(self).lexer == old(self).lexer,
            final(self).expect_else_expr == old(self).expect_else_expr,
    {
        if self.ast.nodes.len() >= usize::MAX - 1 {
            return Err(self.error("Input too large"));
        }
        let r = self.ast.push_node(n);
        proof { self.lemma_wf_after_tree_change(*old(self)); }
        Ok(r)
    }

    /// After a change of the tree that keeps every node's kind and scope, the
    /// invariant still holds.
    proof fn lemma_wf_after_tree_change(&self, before: Parser)
        requires
            before.wf(),
            self.lexer == before.lexer,
            self.scope == before.scope,
            self.frame == before.frame,
            self.frame_stack == before.frame_stack,
            self.expr_stack == before.expr_stack,
            self.group == before.group,
            self.group_stack == before.group_stack,
            self.current < self.ast.nodes.len(),
            self.ast.wf(),
            grown_from(before.ast.nodes@, self.ast.nodes@),
            self.ast.nodes.len() <= before.ast.nodes.len() + 1,
            forall|i: int| before.ast.nodes.len() <= i < self.ast.nodes.len() ==> node_frame(#[trigger] self.ast.nodes@[i])
                < self.scope.frames.len(),
        ensures
            self.wf(),
    {
        assert forall|i: int| 0 <= i < self.ast.nodes.len() implies node_frame(#[trigger] self.ast.nodes@[i])
            < self.scope.frames.len() by {
            if i < before.ast.nodes.len() {
                assert(node_frame(before.ast.nodes@[i]) < before.scope.frames.len());
                assert(crate::ast::same_kind(before.ast.nodes@[i], self.ast.nodes@[i]));
            }
        }
        assert(is_group_like(self.ast.nodes@, self.group as int)) by {
            assert(crate::ast::same_kind(before.ast.nodes@[self.group as int], self.ast.nodes@[self.group as int]));
        }
        assert forall|k: int| 0 <= k < self.group_stack.len() implies is_group_like(self.ast.nodes@, #[trigger] self.group_stack@[k] as int) by {
            let g = self.group_stack@[k] as int;
            assert(is_group_like(before.ast.nodes@, g));
            assert(crate::ast::same_kind(before.ast.nodes@[g], self.ast.nodes@[g]));
        }
        assert forall|k: int| 0 <= k < self.expr_stack.len() implies #[trigger] self.expr_stack@[k] < self.ast.nodes.len() by {
            assert(before.expr_stack@[k] < before.ast.nodes.len());
        }
    }

    /// Add child `c` to node `i`, with the error at the right place.
    fn add_child_to(&mut self, i: usize, c: usize) -> (res: Result<(), EvalError>)
        requires
            old(self).wf(),
            0 < i < old(self).ast.nodes.len(),
            c < old(self).ast.nodes.len(),
            !(old(self).ast.nodes@[i as int] is Empty),
        ensures
            final(self).expr_stack == old(self).expr_stack,
            final(self).group == old(self).group,
            final(self).wf(),
            final(self).progress() == old(self).progress(),
            final(self).lexer == old(self).lexer,
            old(self).ast.nodes.len() <= final(self).ast.nodes.len(),
            final(self).scope.frames@ == old(self).scope.frames@,
            final(self).scope.current == old(self).scope.current,
            final(self).current == old(self).current,
            match add_child_error(old(self).ast.nodes@[i as int], c, old(self).ast.nodes@) {
                Some(msg) => res matches Err(e) && e.message@ == msg && e.jump is None,
                None => res is Ok && final(self).ast.nodes@ == old(self).ast.nodes@.update(
                    i as int,
                    final(self).ast.nodes@[i as int],
                ) && crate::ast::child_added(
                    old(self).ast.nodes@[i as int],
                    c,
                    old(self).ast.nodes@,
                    final(self).ast.nodes@[i as int],
                ),
            },
    {
        // FOR reports its own errors, but for a body that is not a block
        let at_node = match &self.ast.nodes[i] {
            Node::For { var, args, body, .. } => !(var.as_str().unicode_len() > 0 && *args != 0 && *body == 0),
            _ => false,
        };
        let loc = if at_node { self.loc_of(i) } else { self.loc_of(c) };
        let r = self.ast.add_child(i, c);
        proof { self.lemma_wf_after_tree_change(*old(self)); }
        match r {
            Ok(()) => Ok(()),
            Err(m) => Err(EvalError { loc, message: m, jump: None }),
        }
    }

    /// Add expression `expr` to the tree: it completes the current expression, or
    /// becomes it.
    fn add_expr(&mut self, expr: usize) -> (res: Result<(), EvalError>)
        requires
            old(self).wf(),
            0 < expr < old(self).ast.nodes.len(),
        ensures
            final(self).expr_stack.len() <= old(self).expr_stack.len(),
            final(self).group == old(self).group,
            final(self).wf(),
            final(self).progress() == old(self).progress(),
            final(self).lexer == old(self).lexer,
            old(self).ast.nodes.len() <= final(self).ast.nodes.len(),
            final(self).scope.frames@ == old(self).scope.frames@,
            final(self).scope.current == old(self).scope.current,
            ({
                let nodes = old(self).ast.nodes@;
                let cur = if old(self).expect_else_expr && old(self).expr_stack.len() > 0 {
                    old(self).expr_stack@.last()
                } else {
                    old(self).current
                };
                let n = nodes[cur as int];
                if crate::ast::spec_is_complete(n) {
                    if nodes[old(self).group as int] is Args {
                        match crate::ast::add_child_error(nodes[old(self).group as int], cur, nodes) {
                            Some(m) => res matches Err(e) && e.message@ == m,
                            None => res is Ok && final(self).current == expr,
                        }
                    } else {
                        res matches Err(e) && e.message@ == "Unexpected expression, missing semicolon?"@
                    }
                } else if n is Empty {
                    res is Ok && final(self).current == expr && final(self).ast == old(self).ast
                        && (!old(self).expect_else_expr ==> *final(self) == (Parser {
                        current: expr,
                        prev_loc: final(self).prev_loc,
                        ..*old(self)
                    }))
                } else if n is Leaf {
                    res matches Err(e) && e.message@ == "Unexpected expression after literal"@
                } else {
                    match crate::ast::add_child_error(n, expr, nodes) {
                        Some(m) => res matches Err(e) && e.message@ == m,
                        None => res is Ok && final(self).current == cur,
                    }
                }
            }),
    {
        self.prev_loc = self.lexer.loc();
        if self.expect_else_expr {
            match self.expr_stack.pop() {
                Some(e) => {
                    self.current = e;
                },
                None => {},
            }
            self.expect_else_expr = false;
        }
        assert(self.wf());
        if self.ast.is_complete(self.current) {
            if self.ast.is_args(self.group) {
                let g = self.group;
                let cur = self.current;
                self.add_child_to(g, cur)?;
                self.current = expr;
                return Ok(());
            } else {
                return Err(EvalError::new(self.loc_of(expr), "Unexpected expression, missing semicolon?"));
            }
        }
        if self.ast.is_empty(self.current) {
            self.current = expr;
            return Ok(());
        }
        match &self.ast.nodes[self.current] {
            Node::Leaf { .. } => {
                return Err(self.error("Unexpected expression after literal"));
            },
            _ => {},
        }
        let cur = self.current;
        self.add_child_to(cur, expr)
    }

    /// Pop the operations waiting on the stack, giving each the current
    /// expression as right operand; unless at the end of a statement, stop at
    /// assignments and pipes.
    fn pop_binary_ops(&mut self, end_statement: bool) -> (res: Result<(), EvalError>)
        requires
            old(self).wf(),
        ensures
            final(self).group == old(self).group,
            final(self).wf(),
            final(self).progress() == old(self).progress(),
            final(self).lexer == old(self).lexer,
            old(self).ast.nodes.len() <= final(self).ast.nodes.len(),
            final(self).scope.frames@ == old(self).scope.frames@,
            final(self).scope.current == old(self).scope.current,
            final(self).expr_stack.len() <= old(self).expr_stack.len(),
            res is Ok ==> final(self).expr_stack.len() == 0 || !(final(self).ast.nodes@[final(self).expr_stack@.last() as int] is Bin
                && (end_statement || crate::ast::spec_node_priority(final(self).ast.nodes@[final(self).expr_stack@.last() as int])
                != Priority::VeryLow)),
            !(old(self).expr_stack.len() > 0 && old(self).ast.nodes@[old(self).expr_stack@.last() as int] is Bin
                && (end_statement || crate::ast::spec_node_priority(old(self).ast.nodes@[old(self).expr_stack@.last() as int])
                != Priority::VeryLow)) ==> res is Ok && final(self).ast == old(self).ast && final(self).current == old(self).current
                && final(self).expr_stack@ == old(self).expr_stack@,
    {
        while self.expr_stack.len() > 0
            invariant
                self.wf(),
                self.progress() == old(self).progress(),
                self.lexer == old(self).lexer,
                old(self).ast.nodes.len() <= self.ast.nodes.len(),
                self.scope.frames@ == old(self).scope.frames@,
                self.scope.current == old(self).scope.current,
                self.group == old(self).group,
                self.expr_stack.len() <= old(self).expr_stack.len(),
                self.expr_stack.len() == old(self).expr_stack.len() ==> self.ast == old(self).ast
                    && self.current == old(self).current && self.expr_stack@ == old(self).expr_stack@,
                self.expr_stack.len() < old(self).expr_stack.len() ==> (old(self).expr_stack.len() > 0
                    && old(self).ast.nodes@[old(self).expr_stack@.last() as int] is Bin && (end_statement
                    || crate::ast::spec_node_priority(old(self).ast.nodes@[old(self).expr_stack@.last() as int])
                    != Priority::VeryLow)),
            ensures
                self.expr_stack.len() == 0 || !(self.ast.nodes@[self.expr_stack@.last() as int] is Bin
                    && (end_statement || crate::ast::spec_node_priority(self.ast.nodes@[self.expr_stack@.last() as int])
                    != Priority::VeryLow)),
            decreases self.expr_stack.len(),
        {
            let top = self.expr_stack[self.expr_stack.len() - 1];
            if self.ast.is_bin(top) && (end_statement || self.ast.priority(top) != Priority::VeryLow) {
                let expr = self.current;
                match self.expr_stack.pop() {
                    Some(t) => {
                        self.current = t;
                    },
                    None => {},
                }
                if !self.ast.is_empty(expr) {
                    self.add_expr(expr)?;
                }
            } else {
                break;
            }
        }
        Ok(())
    }

    /// Add the current expression to the current group; an argument list is
    /// then complete.
    fn add_current_expr_to_group(&mut self) -> (res: Result<(), EvalError>)
        requires
            old(self).wf(),
        ensures
            final(self).wf(),
            final(self).progress() == old(self).progress(),
            final(self).lexer == old(self).lexer,
            old(self).ast.nodes.len() <= final(self).ast.nodes.len(),
            final(self).scope.frames@ == old(self).scope.frames@,
            final(self).scope.current == old(self).scope.current,
            old(self).ast.nodes@[old(self).current as int] is Empty && old(self).expr_stack.len() == 0 && !(old(
                self,
            ).ast.nodes@[old(self).group as int] is Args) ==> res is Ok && *final(self) == *old(self),
            old(self).ast.nodes@[old(self).current as int] is Leaf && old(self).expr_stack.len() == 0 && (old(
                self,
            ).ast.nodes@[old(self).group as int] is Group) ==> (res is Ok
                && final(self).group == old(self).group && final(self).current == old(self).current
                && final(self).expr_stack.len() == 0 && final(self).ast.nodes@ == old(self).ast.nodes@.update(
                old(self).group as int,
                final(self).ast.nodes@[old(self).group as int],
            ) && crate::ast::child_added(
                old(self).ast.nodes@[old(self).group as int],
                old(self).current,
                old(self).ast.nodes@,
                final(self).ast.nodes@[old(self).group as int],
            )),
    {
        if self.ast.is_for(self.current) && !self.ast.is_complete(self.current) {
            return Ok(());  // wait for the FOR body
        }
        // erasing a variable: `$VAR = ;`
        if self.ast.is_empty(self.current) && self.expr_stack.len() > 0 {
            let top = self.expr_stack[self.expr_stack.len() - 1];
            if self.ast.is_op(top, Op::Assign) {
                match self.expr_stack.pop() {
                    Some(t) => {
                        self.current = t;
                    },
                    None => {},
                }
            }
        }
        let group = self.group;
        if self.ast.is_args(group) {
            self.pop_binary_ops(true)?;
            if !self.ast.is_empty(self.current) {
                let cur = self.current;
                assert(is_group_like(self.ast.nodes@, group as int));
                self.add_child_to(group, cur)?;
            }
            self.pop_group()?;
        } else if !self.ast.is_empty(self.current) {
            self.pop_binary_ops(true)?;
            let g = self.group;
            let cur = self.current;
            self.add_child_to(g, cur)?;
        }
        Ok(())
    }

    /// Complete the current group (and an argument list before it).
    fn finalize_groups(&mut self) -> (res: Result<(), EvalError>)
        requires
            old(self).wf(),
        ensures
            final(self).wf(),
            final(self).progress() == old(self).progress(),
            final(self).lexer == old(self).lexer,
            old(self).ast.nodes.len() <= final(self).ast.nodes.len(),
            final(self).scope.frames@ == old(self).scope.frames@,
            final(self).scope.current == old(self).scope.current,
            old(self).ast.nodes@[old(self).current as int] is Empty && old(self).expr_stack.len() == 0 && !(old(
                self,
            ).ast.nodes@[old(self).group as int] is Args) ==> res is Ok && *final(self) == *old(self),
            old(self).ast.nodes@[old(self).current as int] is Leaf && old(self).expr_stack.len() == 0 && (old(
                self,
            ).ast.nodes@[old(self).group as int] is Group) ==> (res is Ok
                && final(self).group == old(self).group && final(self).current == old(self).current
                && final(self).expr_stack.len() == 0 && final(self).ast.nodes@ == old(self).ast.nodes@.update(
                old(self).group as int,
                final(self).ast.nodes@[old(self).group as int],
            ) && crate::ast::child_added(
                old(self).ast.nodes@[old(self).group as int],
                old(self).current,
                old(self).ast.nodes@,
                final(self).ast.nodes@[old(self).group as int],
            )),
    {
        if self.ast.is_args(self.group) {
            self.add_current_expr_to_group()?;
            if self.ast.is_args(self.group) && !self.ast.is_cmd(self.current) {
                return Err(EvalError::new(self.loc_of(self.current), "Missing parentheses around FOR expression"));
            }
        }
        self.add_current_expr_to_group()
    }

    /// Open a group of the given kind, in a new scope; the current expression
    /// waits on the stack.
    fn push(&mut self, kind: GroupKind) -> (res: Result<(), EvalError>)
        requires
            old(self).wf(),
        ensures
            final(self).wf(),
            final(self).progress() == old(self).progress(),
            final(self).lexer == old(self).lexer,
            old(self).ast.nodes.len() <= final(self).ast.nodes.len(),
            final(self).scope.current == old(self).scope.current,
            old(self).scope.frames@.len() <= final(self).scope.frames@.len(),
            forall|f: int| 0 <= f < old(self).scope.frames@.len() ==> final(self).scope.frames@[f] == old(self).scope.frames@[f],
            kind == GroupKind::NoGroup ==> {
                &&& res is Ok
                &&& final(self).expr_stack@ == old(self).expr_stack@.push(old(self).current)
                &&& final(self).current == 0
                &&& final(self).ast == old(self).ast
                &&& final(self).group == old(self).group
                &&& final(self).frame == old(self).frame
                &&& final(self).group_stack@ == old(self).group_stack@
                &&& final(self).frame_stack@ == old(self).frame_stack@
            },
            kind != GroupKind::NoGroup && old(self).scope.frames.len() >= usize::MAX - 1 ==> {
                &&& res matches Err(e) && e.message@ == "Input too large"@
                &&& final(self).ast == old(self).ast
                &&& final(self).scope.frames@ == old(self).scope.frames@
            },
            kind != GroupKind::NoGroup && res is Ok ==> {
                &&& final(self).frame == old(self).scope.frames.len()
                &&& final(self).scope.frames.len() == old(self).scope.frames.len() + 1
                &&& final(self).scope.frames@[final(self).frame as int].parent == Some(old(self).frame)
                &&& final(self).frame_stack@ == old(self).frame_stack@.push(old(self).frame)
                &&& final(self).group_stack@ == old(self).group_stack@.push(old(self).group)
                &&& final(self).group == old(self).ast.nodes.len()
                &&& final(self).ast.nodes@.len() == old(self).ast.nodes@.len() + 1
                &&& final(self).ast.nodes@.drop_last() == old(self).ast.nodes@
                &&& (if kind == GroupKind::Args {
                    final(self).ast.nodes@.last() matches Node::Args(g) && !g.closed && g.frame == final(self).frame
                        && g.content@.len() == 0 && g.loc == old(self).prev_loc
                } else {
                    final(self).ast.nodes@.last() matches Node::Group(g) && !g.closed && g.frame == final(self).frame
                        && g.content@.len() == 0 && g.loc == old(self).prev_loc
                })
                &&& final(self).expr_stack@ == old(self).expr_stack@.push(old(self).current)
                &&& final(self).current == 0
            },
    {
        if kind != GroupKind::NoGroup {
            if self.scope.frames.len() >= usize::MAX - 1 {
                return Err(self.error("Input too large"));
            }
            let parent = self.frame;
            self.frame_stack.push(parent);
            let f = self.scope.new_child(parent);
            self.frame = f;
            self.group_stack.push(self.group);
            let loc = self.prev_loc;
            let n = if kind == GroupKind::Args {
                Node::Args(GroupNode { closed: false, frame: f, content: Vec::new(), loc })
            } else {
                Node::Group(GroupNode { closed: false, frame: f, content: Vec::new(), loc })
            };
            proof {
                assert forall|i: int| 0 <= i < self.ast.nodes.len() implies node_frame(#[trigger] self.ast.nodes@[i])
                    < self.scope.frames.len() by {
                    assert(node_frame(old(self).ast.nodes@[i]) < old(self).scope.frames.len());
                }
                assert forall|k: int| 0 <= k < self.frame_stack.len() implies #[trigger] self.frame_stack@[k] < self.scope.frames.len() by {
                    if k < old(self).frame_stack.len() {
                        assert(old(self).frame_stack@[k] < old(self).scope.frames.len());
                    }
                }
                assert forall|k: int| 0 <= k < self.group_stack.len() implies is_group_like(self.ast.nodes@, #[trigger] self.group_stack@[k] as int) by {
                    if k < old(self).group_stack.len() {
                        assert(is_group_like(old(self).ast.nodes@, old(self).group_stack@[k] as int));
                    }
                }
            }
            let g = self.new_node(n)?;
            self.group = g;
            self.prev_loc = self.lexer.loc();
        }
        self.expr_stack.push(self.current);
        self.current = 0;
        Ok(())
    }

    /// Close the current group, after completing it.
    fn pop(&mut self) -> (res: Result<(), EvalError>)
        requires
            old(self).wf(),
        ensures
            final(self).wf(),
            final(self).progress() == old(self).progress(),
            final(self).lexer == old(self).lexer,
            old(self).ast.nodes.len() <= final(self).ast.nodes.len(),
            final(self).scope.frames@ == old(self).scope.frames@,
            final(self).scope.current == old(self).scope.current,
    {
        self.finalize_groups()?;
        self.pop_group()
    }

    /// Close the current group and go back to the enclosing one; the closed group
    /// completes the expression that waited on the stack.
    fn pop_group(&mut self) -> (res: Result<(), EvalError>)
        requires
            old(self).wf(),
        ensures
            final(self).wf(),
            final(self).progress() == old(self).progress(),
            final(self).lexer == old(self).lexer,
            old(self).ast.nodes.len() <= final(self).ast.nodes.len(),
            final(self).scope.frames@ == old(self).scope.frames@,
            final(self).scope.current == old(self).scope.current,
            old(self).group_stack.len() == 0 ==> {
                &&& res matches Err(e) && e.message@ == "Unbalanced parentheses?"@
                &&& final(self).ast == old(self).ast
                &&& final(self).group == old(self).group
            },
            old(self).group_stack.len() > 0 ==> {
                &&& final(self).group == old(self).group_stack@.last()
                &&& old(self).expr_stack.len() == 0 ==> {
                    &&& res is Ok
                    &&& final(self).group_stack@ == old(self).group_stack@.drop_last()
                    &&& final(self).frame_stack@ == old(self).frame_stack@.drop_last()
                    &&& final(self).frame == old(self).frame_stack@.last()
                    &&& final(self).current == old(self).current
                    &&& match old(self).ast.nodes@[old(self).group as int] {
                        Node::Args(g) => final(self).ast.nodes@ == old(self).ast.nodes@.update(
                            old(self).group as int,
                            Node::Args(GroupNode { closed: true, ..g }),
                        ),
                        Node::Group(g) => final(self).ast.nodes@ == old(self).ast.nodes@.update(
                            old(self).group as int,
                            Node::Group(GroupNode { closed: true, ..g }),
                        ),
                        _ => final(self).ast.nodes@ == old(self).ast.nodes@,
                    }
                }
            },
    {
        if self.group_stack.len() == 0 {
            return Err(self.error("Unbalanced parentheses?"));
        }
        let g = self.group;
        self.ast.close_group(g);
        proof { self.lemma_wf_after_tree_change(*old(self)); }
        match self.group_stack.pop() {
            Some(p) => {
                self.group = p;
            },
            None => {},
        }
        match self.frame_stack.pop() {
            Some(f) => {
                self.frame = f;
            },
            None => {},
        }
        if self.expr_stack.len() > 0 {
            match self.expr_stack.pop() {
                Some(e) => {
                    self.current = e;
                },
                None => {},
            }
            self.add_expr(g)?;
        }
        Ok(())
    }

    /// Read the input; returns the position of the block that holds its
    /// statements. `quit` is set when QUIT was read, which ends the input.
    pub fn parse(&mut self, registry: &mut Registry, quit: &mut bool) -> (res: Result<usize, EvalError>)
        requires
            old(self).wf(),
            old(registry).wf(),
        ensures
            final(registry).wf(),
            final(self).tree().wf(),
            final(self).scopes().wf(),
            final(self).tree().frames_below(final(self).scopes().frames.len() as nat),
            final(self).scopes().current == old(self).scopes().current,
            old(self).scopes().frames@.len() <= final(self).scopes().frames@.len(),
            forall|f: int| 0 <= f < old(self).scopes().frames@.len() ==> final(self).scopes().frames@[f] == old(self).scopes().frames@[f],
            res matches Ok(root) ==> 0 < root < final(self).tree().nodes.len() && final(self).tree().nodes@[root as int] is Group,
            old(self).fresh() && old(self).input().len() == 0 ==> (res matches Ok(root)
                && final(self).tree().nodes@[root as int] matches Node::Group(g) && g.content@.len() == 0),
            old(self).fresh() && quoted_to_end(old(self).input(), 0) ==> match res {
                Ok(root) => match final(self).tree().nodes@[root as int] {
                    Node::Group(g) => g.content@.len() == 1 && match final(self).tree().nodes@[g.content@[0] as int] {
                        Node::Leaf { text, frame, .. } => text.value@ == old(self).input().subrange(
                            1,
                            old(self).input().len() - 1,
                        ) && frame == old(self).home_frame(),
                        _ => false,
                    },
                    _ => false,
                },
                Err(_) => false,
            },
            old(self).fresh() && lone_literal_word(old(self).input(), old(self).scopes(), old(self).home_frame() as int)
                && !final(registry)@.dom().contains(
                tilde_word(old(self).input(), old(self).scopes(), old(self).home_frame() as int),
            ) ==> match res {
                Ok(root) => match final(self).tree().nodes@[root as int] {
                    Node::Group(g) => g.content@.len() == 1 && match final(self).tree().nodes@[g.content@[0] as int] {
                        Node::Leaf { text, frame, .. } => text.value@ == tilde_word(
                            old(self).input(),
                            old(self).scopes(),
                            old(self).home_frame() as int,
                        ) && !text.quoted && frame == old(self).home_frame(),
                        _ => false,
                    },
                    _ => false,
                },
                Err(_) => false,
            },
            old(self).fresh() && lead_token(old(self).input(), 0) == Some((Token::RightParen, 1int)) ==> (
            res matches Err(e) && e.message@ == "Unmatched right parenthesis"@),
            forall|q: int| #![trigger bare_word(old(self).input(), 0, q)]
                old(self).fresh() && bare_word(old(self).input(), 0, q) && upper_word(old(self).input().subrange(0, q))
                    == "ELSE"@ ==> (res matches Err(e) && e.message@ == "ELSE without IF"@),
    {
        proof {
            self.lexer.lemma_position();
            reveal_strlit("ELSE");
            reveal_strlit("QUIT");
            reveal_strlit("IF");
            reveal_strlit("IN");
        }
        let ghost first = old(self).fresh();
        let ghost rp = lead_token(old(self).lexer.input(), 0) == Some((Token::RightParen, 1int));
        let ghost else_case = exists|q: int| #![trigger bare_word(old(self).lexer.input(), 0, q)]
            bare_word(old(self).lexer.input(), 0, q) && upper_word(old(self).lexer.input().subrange(0, q))
                == "ELSE"@;
        let ghost empty = old(self).lexer.input().len() == 0;
        let ghost qcase = first && quoted_to_end(old(self).lexer.input(), 0);
        let ghost tw = tilde_word(old(self).lexer.input(), old(self).scope, old(self).frame as int);
        let ghost bcase = first && lone_literal_word(old(self).lexer.input(), old(self).scope, old(self).frame as int);
        loop
            invariant_except_break
                first && self.lexer.position() == 0 ==> self.fresh(),
                first && self.lexer.position() == 0 ==> self.group == old(self).group && self.frame == old(
                    self,
                ).frame && self.ast.nodes@[self.group as int] == old(self).ast.nodes@[old(self).group as int],
                qcase && self.lexer.position() != 0 ==> self.lexer.position() == self.lexer.input().len(),
                qcase && self.lexer.position() != 0 ==> self.lexer.at_rest(),
                qcase && self.lexer.position() != 0 ==> self.lexer.pending() == 0,
                qcase && self.lexer.position() != 0 ==> self.expr_stack.len() == 0,
                qcase && self.lexer.position() != 0 ==> !self.expect_else_expr,
                qcase && self.lexer.position() != 0 ==> self.group == old(self).group,
                qcase && self.lexer.position() != 0 ==> self.frame == old(self).frame,
                qcase && self.lexer.position() != 0 ==> self.ast.nodes@[self.group as int] == old(self).ast.nodes@[old(self).group as int],
                qcase && self.lexer.position() != 0 ==> self.current != self.group,
                qcase && self.lexer.position() != 0 ==> (self.ast.nodes@[self.current as int] matches Node::Leaf { text, frame, .. }
                    && text.value@ == old(self).lexer.input().subrange(1, old(self).lexer.input().len() - 1)
                    && frame == old(self).frame),
                first && self.lexer.position() == 0 ==> self.scope == old(self).scope,
                bcase && self.lexer.position() != 0 && !registry@.dom().contains(tw) ==> {
                    &&& self.lexer.position() == self.lexer.input().len()
                    &&& self.lexer.at_rest()
                    &&& self.lexer.pending() == 0
                    &&& self.expr_stack.len() == 0
                    &&& !self.expect_else_expr
                    &&& self.group == old(self).group
                    &&& self.frame == old(self).frame
                    &&& self.ast.nodes@[self.group as int] == old(self).ast.nodes@[old(self).group as int]
                    &&& self.current != self.group
                    &&& self.ast.nodes@[self.current as int] matches Node::Leaf { text, frame, .. } && text.value@ == tw
                        && !text.quoted && frame == old(self).frame
                },
            invariant
                first == old(self).fresh(),
                rp == (lead_token(old(self).lexer.input(), 0) == Some((Token::RightParen, 1int))),
                else_case == exists|q: int| #![trigger bare_word(old(self).lexer.input(), 0, q)]
                    bare_word(old(self).lexer.input(), 0, q) && upper_word(old(self).lexer.input().subrange(0, q))
                        == "ELSE"@,
                empty == (old(self).lexer.input().len() == 0),
                qcase == (first && quoted_to_end(old(self).lexer.input(), 0)),
                tw == tilde_word(old(self).lexer.input(), old(self).scope, old(self).frame as int),
                bcase == (first && lone_literal_word(old(self).lexer.input(), old(self).scope, old(self).frame as int)),
                first && else_case ==> self.lexer.position() == 0,
                self.lexer.input() == old(self).lexer.input(),

                first && rp ==> self.lexer.position() == 0,
                first && empty ==> {
                    &&& self.lexer.position() == 0
                    &&& self.group_stack.len() == 0
                    &&& self.expr_stack.len() == 0
                    &&& self.current == 0
                    &&& self.ast.nodes@[self.group as int] matches Node::Group(g) && g.content@.len() == 0
                },
                self.wf(),
                registry.wf(),
                self.scope.current == old(self).scope.current,
                old(self).scope.frames@.len() <= self.scope.frames@.len(),
                forall|f: int| 0 <= f < old(self).scope.frames@.len() ==> self.scope.frames@[f] == old(self).scope.frames@[f],
            ensures
                self.wf(),
                registry.wf(),
                self.scope.current == old(self).scope.current,
                old(self).scope.frames@.len() <= self.scope.frames@.len(),
                forall|f: int| 0 <= f < old(self).scope.frames@.len() ==> self.scope.frames@[f] == old(self).scope.frames@[f],
                first && empty ==> {
                    &&& self.group_stack.len() == 0
                    &&& self.expr_stack.len() == 0
                    &&& self.current == 0
                    &&& self.ast.nodes@[self.group as int] matches Node::Group(g) && g.content@.len() == 0
                },
                !(first && rp),
                !(first && else_case),
                bcase && !registry@.dom().contains(tw) ==> {
                    &&& self.expr_stack.len() == 0
                    &&& self.group == old(self).group
                    &&& self.ast.nodes@[self.group as int] == old(self).ast.nodes@[old(self).group as int]
                    &&& self.current != self.group
                    &&& self.ast.nodes@[self.current as int] matches Node::Leaf { text, frame, .. } && text.value@ == tw
                        && !text.quoted && frame == old(self).frame
                },
                qcase ==> {
                    &&& self.expr_stack.len() == 0
                    &&& self.group == old(self).group
                    &&& self.ast.nodes@[self.group as int] == old(self).ast.nodes@[old(self).group as int]
                    &&& self.current != self.group
                    &&& self.ast.nodes@[self.current as int] matches Node::Leaf { text, frame, .. }
                        && text.value@ == old(self).lexer.input().subrange(1, old(self).lexer.input().len() - 1)
                        && frame == old(self).frame
                },
            decreases self.progress().0, self.progress().1,
        {
            let ctx = self.context();
            let f = self.frame;
            let ghost before = self.progress();
            let ghost lex0 = self.lexer;
            proof {
                lex0.lemma_position();
                reveal_strlit("ELSE");
                reveal_strlit("QUIT");
                reveal_strlit("IF");
                reveal_strlit("IN");
                assert("ELSE"@ =~= seq!['E', 'L', 'S', 'E']);
                assert(is_keyword("ELSE"@));
                if first && else_case {
                    let q = choose|q: int| #![trigger bare_word(old(self).lexer.input(), 0, q)]
                        bare_word(old(self).lexer.input(), 0, q) && upper_word(old(self).lexer.input().subrange(0, q))
                            == "ELSE"@;
                    assert(bare_word(lex0.input(), lex0.position(), q));
                }
            }
            let tok = match self.lexer.next_token(&self.scope, f, &ctx) {
                Ok(t) => t,
                Err(e) => {
                    return Err(EvalError::from_lex(e));
                },
            };
            proof {
                assert(self.wf()) by {
                    assert(self.lexer.wf());
                }
            }
            let ghost gt = tok;
            proof {
                self.lexer.lemma_position();
                if bcase && lex0.position() == 0 {
                    let inp = old(self).lexer.input();
                    assert(inp.subrange(0, inp.len() as int) =~= inp);
                    assert(bare_word(lex0.input(), lex0.position(), inp.len() as int));
                    if let Token::Literal(t) = gt {
                        let paths = choose|paths: Option<Seq<Seq<char>>>| glob_fits(tw, paths)
                            && #[trigger] expanded_word(tw, paths) == (t.value@, self.lexer.pending_words());
                        lemma_literal_word(tw, paths);
                        self.lexer.lemma_pending_len();
                    }
                }
            }
            let ghost after_tok = self.progress();
            match tok {
                Token::End => {
                    break;
                },
                Token::LeftParen => {
                    self.push(GroupKind::Block)?;
                },
                Token::RightParen => {
                    if self.group_stack.len() == 0 {
                        return Err(self.error("Unmatched right parenthesis"));
                    }
                    self.pop()?;
                },
                Token::Semicolon => {
                    self.finalize_groups()?;
                    // a semicolon also ends the arguments of a FOR, whose body is still to come
                    if !self.ast.is_for(self.current) || self.ast.is_complete(self.current) {
                        self.current = 0;
                    }
                },
                Token::Keyword(word) => {
                    if str_eq(word.as_str(), "QUIT") {
                        *quit = true;
                        break;
                    }
                    if str_eq(word.as_str(), "IF") {
                        let n = Node::Branch {
                            cond: 0,
                            if_branch: 0,
                            else_branch: 0,
                            expect_else: false,
                            frame: self.frame,
                            loc: self.prev_loc,
                        };
                        let e = self.new_node(n)?;
                        self.add_expr(e)?;
                    } else if str_eq(word.as_str(), "IN") {
                        let var_empty = match &self.ast.nodes[self.current] {
                            Node::For { var, .. } => Some(var.as_str().unicode_len() == 0),
                            _ => None,
                        };
                        match var_empty {
                            Some(true) => {
                                return Err(self.error("Expecting identifier in FOR expression"));
                            },
                            Some(false) => {
                                self.prev_loc = self.lexer.loc();
                            },
                            None => {
                                return Err(self.error("IN without FOR"));
                            },
                        }
                        self.push(GroupKind::Args)?;
                    } else if str_eq(word.as_str(), "ELSE") {
                        let cur = self.current;
                        let is_branch = match &self.ast.nodes[cur] {
                            Node::Branch { .. } => true,
                            _ => false,
                        };
                        if !is_branch {
                            return Err(self.error("ELSE without IF"));
                        }
                        if !self.else_expected(cur) {
                            return Err(self.error("Conditional expression or IF branch missing"));
                        }
                        self.prev_loc = self.lexer.loc();
                        self.expect_else_expr = true;
                        self.push(GroupKind::NoGroup)?;
                    } else if str_eq(word.as_str(), "FOR") {
                        let n = Node::For {
                            var: String::new(),
                            args: 0,
                            body: 0,
                            frame: self.frame,
                            loc: self.prev_loc,
                        };
                        let e = self.new_node(n)?;
                        self.add_expr(e)?;
                        self.current = e;
                    } else if str_eq(word.as_str(), "WHILE") {
                        let n = Node::Loop { cond: 0, body: 0, frame: self.frame, loc: self.prev_loc };
                        let e = self.new_node(n)?;
                        self.add_expr(e)?;
                    } else if str_eq(word.as_str(), "BREAK") || str_eq(word.as_str(), "CONTINUE") {
                        let n = Node::Leaf {
                            text: Text { value: word, quoted: false, raw: false },
                            frame: self.frame,
                            loc: self.prev_loc,
                        };
                        let e = self.new_node(n)?;
                        self.add_expr(e)?;
                    }
                },
                Token::Literal(text) => {
                    let mut is_command = false;
                    if !text.quoted && !self.ast.is_args(self.group) {
                        is_command = registry.get_command(text.value.as_str());
                    }
                    if is_command {
                        let n = Node::Cmd { name: text.value, args: 0, frame: self.frame, loc: self.prev_loc };
                        let e = self.new_node(n)?;
                        self.add_expr(e)?;
                        self.current = e;
                        self.push(GroupKind::Args)?;
                    } else {
                        let n = Node::Leaf { text, frame: self.frame, loc: self.prev_loc };
                        let e = self.new_node(n)?;
                        if !self.ast.is_empty(self.current) {
                            self.add_expr(e)?;
                        } else if !self.rewrite_pipeline(e)? {
                            self.add_expr(e)?;
                        }
                    }
                },
                Token::Operator(op) => {
                    let low = op.priority() != Priority::High;
                    if low {
                        if self.ast.is_args(self.group) {
                            // the arguments of the left operand are complete
                            self.add_current_expr_to_group()?;
                        }
                        self.pop_binary_ops(false)?;
                    }
                    let n = Node::Bin { op, lhs: self.current, rhs: 0, frame: self.frame, loc: self.prev_loc };
                    let e = self.new_node(n)?;
                    self.prev_loc = self.lexer.loc();
                    if low {
                        self.expr_stack.push(e);
                        self.current = 0;
                    } else {
                        self.current = e;
                    }
                },
            }
        }
        self.finalize_parse()
    }

    /// Is an ELSE expected after IF `i`, which has its condition and its IF body?
    /// It is from now on.
    fn else_expected(&mut self, i: usize) -> (res: bool)
        requires
            old(self).wf(),
            0 < i < old(self).ast.nodes.len(),
        ensures
            final(self).wf(),
            final(self).progress() == old(self).progress(),
            final(self).lexer == old(self).lexer,
            old(self).ast.nodes.len() <= final(self).ast.nodes.len(),
            final(self).scope.frames@ == old(self).scope.frames@,
            final(self).scope.current == old(self).scope.current,
            final(self).current == old(self).current,
            res == (old(self).ast.nodes@[i as int] matches Node::Branch { cond, if_branch, .. } && cond != 0
                && if_branch != 0),
    {
        let ok = self.ast.expect_else(i);
        proof { self.lemma_wf_after_tree_change(*old(self)); }
        ok
    }

    /// Complete the input: the top block is closed, and nothing may wait on the stack.
    fn finalize_parse(&mut self) -> (res: Result<usize, EvalError>)
        requires
            old(self).wf(),
        ensures
            final(self).wf(),
            final(self).scope.frames@ == old(self).scope.frames@,
            final(self).scope.current == old(self).scope.current,
            res matches Ok(root) ==> 0 < root < final(self).ast.nodes.len() && final(self).ast.nodes@[root as int] is Group,
            old(self).ast.nodes@[old(self).current as int] is Empty && old(self).expr_stack.len() == 0 && old(
                self,
            ).ast.nodes@[old(self).group as int] is Group ==> res is Ok,
            old(self).ast.nodes@[old(self).current as int] is Empty && old(self).expr_stack.len() == 0 && (old(
                self,
            ).ast.nodes@[old(self).group as int] matches Node::Group(g) && g.content@.len() == 0) ==> (res matches Ok(
                root) && final(self).ast.nodes@[root as int] matches Node::Group(r) && r.content@.len() == 0),
            old(self).ast.nodes@[old(self).current as int] is Leaf && old(self).expr_stack.len() == 0 && (old(
                self,
            ).ast.nodes@[old(self).group as int] matches Node::Group(g) && g.content@.len() == 0) ==> (res matches Ok(
                root) && root == old(self).group && (final(self).ast.nodes@[root as int] matches Node::Group(r)
                && r.content@ == seq![old(self).current]) && final(self).ast.nodes@[old(self).current as int] == old(
                self,
            ).ast.nodes@[old(self).current as int]),
    {
        self.finalize_groups()?;
        if self.expr_stack.len() > 0 {
            let msg = if self.expect_else_expr {
                "Dangling ELSE"
            } else {
                "Missing closed parenthesis or expression operand"
            };
            return Err(self.error(msg));
        }
        let g = self.group;
        if !self.ast.is_group(g) {
            return Err(self.error("Missing closed parenthesis or expression operand"));
        }
        let ghost snap = *self;
        self.ast.close_group(g);
        proof { self.lemma_wf_after_tree_change(snap); }
        Ok(g)
    }

    /// A literal that follows a pipeline with no current expression: the pipes
    /// waiting on the stack are joined so that the literal receives the output of
    /// the whole pipeline. Returns whether that was done.
    fn rewrite_pipeline(&mut self, expr: usize) -> (res: Result<bool, EvalError>)
        requires
            old(self).wf(),
            0 < expr < old(self).ast.nodes.len(),
        ensures
            final(self).wf(),
            final(self).progress() == old(self).progress(),
            final(self).lexer == old(self).lexer,
            old(self).ast.nodes.len() <= final(self).ast.nodes.len(),
            final(self).scope.frames@ == old(self).scope.frames@,
            final(self).scope.current == old(self).scope.current,
            !(old(self).expr_stack.len() > 0 && old(self).ast.nodes@[old(self).expr_stack@.last() as int] matches Node::Bin {
                op: Op::Pipe,
                ..
            }) ==> res == Ok::<bool, EvalError>(false) && final(self).ast == old(self).ast && final(self).current == old(
                self,
            ).current && final(self).expr_stack@ == old(self).expr_stack@,
            res is Ok ==> final(self).expr_stack.len() == 0 || !(final(self).ast.nodes@[final(self).expr_stack@.last() as int] matches Node::Bin {
                op: Op::Pipe,
                ..
            }),
            old(self).expr_stack.len() == 0 ==> *final(self) == *old(self),
            res == Ok::<bool, EvalError>(true) ==> final(self).current == final(self).ast.nodes.len() - 1 && (final(self).ast.nodes@.last() matches Node::Bin {
                op: Op::Pipe,
                rhs,
                ..
            } && rhs == expr),
    {
        let mut head: usize = 0;
        let mut tail: usize = 0;
        while self.expr_stack.len() > 0
            invariant
                self.wf(),
                self.progress() == old(self).progress(),
                self.lexer == old(self).lexer,
                old(self).ast.nodes.len() <= self.ast.nodes.len(),
                self.scope.frames@ == old(self).scope.frames@,
                self.scope.current == old(self).scope.current,
                head < self.ast.nodes.len(),
                tail < self.ast.nodes.len(),
                expr < self.ast.nodes.len(),
                self.expr_stack.len() <= old(self).expr_stack.len(),
                self.expr_stack.len() == old(self).expr_stack.len() ==> head == 0 && self.ast == old(self).ast
                    && self.current == old(self).current && self.expr_stack@ == old(self).expr_stack@,
                self.expr_stack.len() < old(self).expr_stack.len() ==> (old(self).expr_stack.len() > 0
                    && old(self).ast.nodes@[old(self).expr_stack@.last() as int] matches Node::Bin { op: Op::Pipe, .. }),
                old(self).expr_stack.len() == 0 ==> *self == *old(self) && head == 0,
            ensures
                old(self).expr_stack.len() == 0 ==> *self == *old(self) && head == 0,
                self.expr_stack.len() == 0 || !(self.ast.nodes@[self.expr_stack@.last() as int] matches Node::Bin {
                    op: Op::Pipe,
                    ..
                }),
            decreases self.expr_stack.len(),
        {
            let top = self.expr_stack[self.expr_stack.len() - 1];
            if self.ast.is_op(top, Op::Pipe) {
                if head != 0 {
                    self.current = top;
                    self.add_expr(head)?;
                }
                if tail == 0 {
                    let lhs = match &self.ast.nodes[top] {
                        Node::Bin { lhs, .. } => *lhs,
                        _ => 0,
                    };
                    tail = lhs;
                    head = tail;
                } else {
                    head = top;
                }
                self.expr_stack.pop();
            } else {
                break;
            }
        }
        if head == 0 {
            Ok(false)
        } else {
            let loc = self.loc_of(expr);
            let n = Node::Bin { op: Op::Pipe, lhs: head, rhs: expr, frame: self.frame, loc };
            let e = self.new_node(n)?;
            self.current = e;
            Ok(true)
        }
    }
}

} // verus!

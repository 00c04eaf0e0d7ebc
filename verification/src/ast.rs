//! The syntax tree of the shell language.
//!
//! All nodes of a tree live in one table, [`Ast`], and refer to each other by
//! position; position 0 holds the empty expression, which stands for a child
//! that is not there yet. A node is completed in place as the parser reads on.
use vstd::prelude::*;
use crate::lexer::{Location, Op, Text, spec_op_priority, Priority};

verus! {

/// A group of expressions: the statements of a block `( ... )`, or the
/// arguments of a command or of a FOR.
pub struct GroupNode {
    pub closed: bool,
    pub frame: usize,
    pub content: Vec<usize>,
    pub loc: Location,
}

/// An expression.
pub enum Node {
    Empty,
    Args(GroupNode),
    Bin { op: Op, lhs: usize, rhs: usize, frame: usize, loc: Location },
    Cmd { name: String, args: usize, frame: usize, loc: Location },
    Branch {
        cond: usize,
        if_branch: usize,
        else_branch: usize,
        expect_else: bool,
        frame: usize,
        loc: Location,
    },
    For { var: String, args: usize, body: usize, frame: usize, loc: Location },
    Group(GroupNode),
    Leaf { text: Text, frame: usize, loc: Location },
    Loop { cond: usize, body: usize, frame: usize, loc: Location },
}

/// Do all the positions that node `n` refers to stand below `len`?
pub open spec fn node_ok(n: Node, len: nat) -> bool {
    match n {
        Node::Empty => true,
        Node::Args(g) => forall|k: int| 0 <= k < g.content@.len() ==> #[trigger] g.content@[k] < len,
        Node::Group(g) => forall|k: int| 0 <= k < g.content@.len() ==> #[trigger] g.content@[k] < len,
        Node::Bin { lhs, rhs, .. } => lhs < len && rhs < len,
        Node::Cmd { args, .. } => args < len,
        Node::Branch { cond, if_branch, else_branch, .. } => cond < len && if_branch < len
            && else_branch < len,
        Node::For { args, body, .. } => args < len && body < len,
        Node::Leaf { .. } => true,
        Node::Loop { cond, body, .. } => cond < len && body < len,
    }
}

/// The scope of a node (0 for the empty node).
pub open spec fn node_frame(n: Node) -> nat {
    match n {
        Node::Empty => 0,
        Node::Args(g) => g.frame as nat,
        Node::Group(g) => g.frame as nat,
        Node::Bin { frame, .. } => frame as nat,
        Node::Cmd { frame, .. } => frame as nat,
        Node::Branch { frame, .. } => frame as nat,
        Node::For { frame, .. } => frame as nat,
        Node::Leaf { frame, .. } => frame as nat,
        Node::Loop { frame, .. } => frame as nat,
    }
}

/// Is the expression completely read? A group once closed; an operation once it
/// has its right operand; a command once it has its arguments; an IF once it has
/// its IF body and, if ELSE was seen, its ELSE body; a FOR or WHILE once it has
/// its body; a literal always; the empty expression never.
pub open spec fn spec_is_complete(n: Node) -> bool {
    match n {
        Node::Empty => false,
        Node::Args(g) => g.closed,
        Node::Group(g) => g.closed,
        Node::Bin { rhs, .. } => rhs != 0,
        Node::Cmd { args, .. } => args != 0,
        Node::Branch { if_branch, else_branch, expect_else, .. } => !(expect_else && else_branch == 0)
            && if_branch != 0,
        Node::For { body, .. } => body != 0,
        Node::Leaf { .. } => true,
        Node::Loop { body, .. } => body != 0,
    }
}

/// The precedence class of an expression: that of its operator for an
/// operation, the highest for any other.
pub open spec fn spec_node_priority(n: Node) -> Priority {
    match n {
        Node::Bin { op, .. } => spec_op_priority(op),
        _ => Priority::High,
    }
}

/// The error, if any, that adding child `c` to node `n` gives; the table `nodes`
/// tells what the child holds. A literal takes no child; an operation takes its
/// right operand; an IF takes its condition, then a block as IF body, then (after
/// ELSE) a block as ELSE body; a FOR takes a literal as its variable, then an
/// argument list, then a block as body; a WHILE its condition, then a block.
pub open spec fn add_child_error(n: Node, c: usize, nodes: Seq<Node>) -> Option<Seq<char>> {
    match n {
        Node::Empty => None,
        Node::Args(_) => None,
        Node::Group(_) => None,
        Node::Bin { rhs, .. } => if rhs == 0 {
            None
        } else {
            Some("Unexpected expression, missing a semicolon?"@)
        },
        Node::Cmd { args, .. } => if args == 0 && nodes[c as int] is Args {
            None
        } else {
            Some("Expecting argument list"@)
        },
        Node::Branch { cond, if_branch, else_branch, expect_else, .. } => if cond == 0 {
            None
        } else if if_branch == 0 {
            if !(nodes[c as int] is Group) {
                Some("Parentheses are required around IF body"@)
            } else {
                None
            }
        } else if else_branch == 0 {
            if !expect_else {
                Some("Expecting ELSE keyword"@)
            } else if !(nodes[c as int] is Group) {
                Some("Parentheses are required around ELSE body"@)
            } else {
                None
            }
        } else {
            Some("Unexpected expression after ELSE body, missing semicolon?"@)
        },
        Node::For { var, args, body, .. } => if var@.len() == 0 {
            if nodes[c as int] is Leaf {
                None
            } else {
                Some("Expecting identifier in FOR expression"@)
            }
        } else if args == 0 {
            if nodes[c as int] is Args {
                None
            } else {
                Some("Expecting argument list"@)
            }
        } else if body == 0 {
            if !(nodes[c as int] is Group) {
                Some("Parentheses are required around FOR body"@)
            } else {
                None
            }
        } else {
            Some("FOR already has a body"@)
        },
        Node::Loop { cond, body, .. } => if cond == 0 {
            None
        } else if body == 0 {
            if !(nodes[c as int] is Group) {
                Some("Parentheses are required around WHILE body"@)
            } else {
                None
            }
        } else {
            Some("WHILE already has a body"@)
        },
        Node::Leaf { .. } => Some("Unexpected expression after literal"@),
    }
}

/// Is `m` node `n` with child `c` added, where that gives no error? The child
/// fills the first empty slot, in the order given at [`add_child_error`]; a group
/// appends it to its content.
pub open spec fn child_added(n: Node, c: usize, nodes: Seq<Node>, m: Node) -> bool {
    match n {
        Node::Empty => m == n,
        Node::Args(g) => m matches Node::Args(h) && h.content@ == g.content@.push(c) && h.closed
            == g.closed && h.frame == g.frame && h.loc == g.loc,
        Node::Group(g) => m matches Node::Group(h) && h.content@ == g.content@.push(c) && h.closed
            == g.closed && h.frame == g.frame && h.loc == g.loc,
        Node::Bin { op, lhs, frame, loc, .. } => m == (Node::Bin { op, lhs, rhs: c, frame, loc }),
        Node::Cmd { name, frame, loc, .. } => m matches Node::Cmd { name: n2, args: a2, frame: f2, loc: l2 }
            && n2@ == name@ && a2 == c && f2 == frame && l2 == loc,
        Node::Branch { cond, if_branch, else_branch, expect_else, frame, loc } => if cond == 0 {
            m == (Node::Branch { cond: c, if_branch, else_branch, expect_else, frame, loc })
        } else if if_branch == 0 {
            m == (Node::Branch { cond, if_branch: c, else_branch, expect_else, frame, loc })
        } else {
            m == (Node::Branch { cond, if_branch, else_branch: c, expect_else, frame, loc })
        },
        Node::For { var, args, body, frame, loc } => if var@.len() == 0 {
            m matches Node::For { var: v2, args: a2, body: b2, frame: f2, loc: l2 }
                && (nodes[c as int] matches Node::Leaf { text, .. } && v2@ == text.value@)
                && a2 == args && b2 == body && f2 == frame && l2 == loc
        } else if args == 0 {
            m matches Node::For { var: v2, args: a2, body: b2, frame: f2, loc: l2 }
                && v2@ == var@ && a2 == c && b2 == body && f2 == frame && l2 == loc
        } else {
            m matches Node::For { var: v2, args: a2, body: b2, frame: f2, loc: l2 }
                && v2@ == var@ && a2 == args && b2 == c && f2 == frame && l2 == loc
        },
        Node::Loop { cond, body, frame, loc } => if cond == 0 {
            m == (Node::Loop { cond: c, body, frame, loc })
        } else {
            m == (Node::Loop { cond, body: c, frame, loc })
        },
        Node::Leaf { .. } => m == n,
    }
}

/// Are `a` and `b` the same kind of node, in the same scope?
pub open spec fn same_kind(a: Node, b: Node) -> bool {
    &&& (a is Empty) == (b is Empty)
    &&& (a is Args) == (b is Args)
    &&& (a is Group) == (b is Group)
    &&& (a is Bin) == (b is Bin)
    &&& (a is Cmd) == (b is Cmd)
    &&& (a is Branch) == (b is Branch)
    &&& (a is For) == (b is For)
    &&& (a is Leaf) == (b is Leaf)
    &&& (a is Loop) == (b is Loop)
    &&& node_frame(a) == node_frame(b)
}

/// Does table `new` keep every node of `old` as the same kind of node, in the same scope?
pub open spec fn grown_from(old: Seq<Node>, new: Seq<Node>) -> bool {
    &&& old.len() <= new.len()
    &&& forall|i: int| 0 <= i < old.len() ==> same_kind(#[trigger] old[i], new[i])
}

/// The table of nodes of a tree.
pub struct Ast {
    pub nodes: Vec<Node>,
}

/// The location of a node; `fallback` for the empty node, which has none.
pub open spec fn node_loc(n: Node, fallback: Location) -> Location {
    match n {
        Node::Empty => fallback,
        Node::Args(g) => g.loc,
        Node::Group(g) => g.loc,
        Node::Bin { loc, .. } => loc,
        Node::Cmd { loc, .. } => loc,
        Node::Branch { loc, .. } => loc,
        Node::For { loc, .. } => loc,
        Node::Leaf { loc, .. } => loc,
        Node::Loop { loc, .. } => loc,
    }
}

impl Ast {
    /// Well-formedness: position 0 holds the empty expression, and every node
    /// refers only to positions in the table.
    pub open spec fn wf(&self) -> bool {
        &&& self.nodes.len() > 0
        &&& self.nodes@[0] is Empty
        &&& forall|i: int| 0 <= i < self.nodes.len() ==> node_ok(#[trigger] self.nodes@[i], self.nodes.len() as nat)
    }

    /// Do all the nodes belong to scopes below `n`?
    pub open spec fn frames_below(&self, n: nat) -> bool {
        forall|i: int| 0 <= i < self.nodes.len() ==> node_frame(#[trigger] self.nodes@[i]) < n
    }

    /// A table holding only the empty expression.
    pub fn new() -> (res: Ast)
        ensures
            res.wf(),
            res.nodes.len() == 1,
    {
        let mut nodes = Vec::new();
        nodes.push(Node::Empty);
        Ast { nodes }
    }

    /// Add a node; returns its position.
    pub fn push_node(&mut self, n: Node) -> (res: usize)
        requires
            old(self).wf(),
            node_ok(n, old(self).nodes.len() as nat),
            old(self).nodes.len() < usize::MAX,
        ensures
            final(self).wf(),
            res == old(self).nodes.len(),
            res > 0,
            final(self).nodes@ == old(self).nodes@.push(n),
            grown_from(old(self).nodes@, final(self).nodes@),
    {
        let r = self.nodes.len();
        self.nodes.push(n);
        assert forall|i: int| 0 <= i < self.nodes.len() implies node_ok(#[trigger] self.nodes@[i], self.nodes.len() as nat) by {
            if i < r {
                assert(node_ok(old(self).nodes@[i], r as nat));
                lemma_node_ok_grow(old(self).nodes@[i], r as nat, self.nodes.len() as nat);
            }
        }
        r
    }

    /// Replace node `i` (not the empty node at 0).
    fn set_node(&mut self, i: usize, n: Node)
        requires
            old(self).wf(),
            0 < i < old(self).nodes.len(),
            node_ok(n, old(self).nodes.len() as nat),
        ensures
            final(self).wf(),
            final(self).nodes@ == old(self).nodes@.update(i as int, n),
    {
        self.nodes.set(i, n);
        assert forall|j: int| 0 <= j < self.nodes.len() implies node_ok(#[trigger] self.nodes@[j], self.nodes.len() as nat) by {
            if j != i {
                assert(self.nodes@[j] == old(self).nodes@[j]);
            }
        }
    }

    /// Take node `i` out of the table, leaving the empty expression in its place.
    fn take_node(&mut self, i: usize) -> (res: Node)
        requires
            old(self).wf(),
            0 < i < old(self).nodes.len(),
        ensures
            final(self).wf(),
            res == old(self).nodes@[i as int],
            final(self).nodes@ == old(self).nodes@.update(i as int, Node::Empty),
    {
        let mut n = Node::Empty;
        std::mem::swap(&mut n, &mut self.nodes[i]);
        assert forall|j: int| 0 <= j < self.nodes.len() implies node_ok(#[trigger] self.nodes@[j], self.nodes.len() as nat) by {
            if j != i {
                assert(self.nodes@[j] == old(self).nodes@[j]);
            }
        }
        n
    }

    /// Is node `i` the empty expression?
    pub fn is_empty(&self, i: usize) -> (res: bool)
        requires
            i < self.nodes.len(),
        ensures
            res == (self.nodes@[i as int] is Empty),
    {
        match &self.nodes[i] {
            Node::Empty => true,
            _ => false,
        }
    }

    /// Is node `i` an argument list?
    pub fn is_args(&self, i: usize) -> (res: bool)
        requires
            i < self.nodes.len(),
        ensures
            res == (self.nodes@[i as int] is Args),
    {
        match &self.nodes[i] {
            Node::Args(_) => true,
            _ => false,
        }
    }

    /// Is node `i` a block?
    pub fn is_group(&self, i: usize) -> (res: bool)
        requires
            i < self.nodes.len(),
        ensures
            res == (self.nodes@[i as int] is Group),
    {
        match &self.nodes[i] {
            Node::Group(_) => true,
            _ => false,
        }
    }

    /// Is node `i` an operation?
    pub fn is_bin(&self, i: usize) -> (res: bool)
        requires
            i < self.nodes.len(),
        ensures
            res == (self.nodes@[i as int] is Bin),
    {
        match &self.nodes[i] {
            Node::Bin { .. } => true,
            _ => false,
        }
    }

    /// Is node `i` a command?
    pub fn is_cmd(&self, i: usize) -> (res: bool)
        requires
            i < self.nodes.len(),
        ensures
            res == (self.nodes@[i as int] is Cmd),
    {
        match &self.nodes[i] {
            Node::Cmd { .. } => true,
            _ => false,
        }
    }

    /// Is node `i` a FOR?
    pub fn is_for(&self, i: usize) -> (res: bool)
        requires
            i < self.nodes.len(),
        ensures
            res == (self.nodes@[i as int] is For),
    {
        match &self.nodes[i] {
            Node::For { .. } => true,
            _ => false,
        }
    }

    /// Is node `i` an operation with operator `op`?
    pub fn is_op(&self, i: usize, op: Op) -> (res: bool)
        requires
            i < self.nodes.len(),
        ensures
            res == (self.nodes@[i as int] matches Node::Bin { op: o, .. } && o == op),
    {
        match &self.nodes[i] {
            Node::Bin { op: o, .. } => *o == op,
            _ => false,
        }
    }

    /// Is node `i` an argument list with no arguments?
    pub fn is_no_args(&self, i: usize) -> (res: bool)
        requires
            i < self.nodes.len(),
        ensures
            res == (self.nodes@[i as int] matches Node::Args(g) && g.content@.len() == 0),
    {
        match &self.nodes[i] {
            Node::Args(g) => g.content.len() == 0,
            _ => false,
        }
    }

    /// Is node `i` completely read (see [`spec_is_complete`])?
    pub fn is_complete(&self, i: usize) -> (res: bool)
        requires
            i < self.nodes.len(),
        ensures
            res == spec_is_complete(self.nodes@[i as int]),
    {
        match &self.nodes[i] {
            Node::Empty => false,
            Node::Args(g) => g.closed,
            Node::Group(g) => g.closed,
            Node::Bin { rhs, .. } => *rhs != 0,
            Node::Cmd { args, .. } => *args != 0,
            Node::Branch { if_branch, else_branch, expect_else, .. } => {
                if *expect_else && *else_branch == 0 {
                    false
                } else {
                    *if_branch != 0
                }
            },
            Node::For { body, .. } => *body != 0,
            Node::Leaf { .. } => true,
            Node::Loop { body, .. } => *body != 0,
        }
    }

    /// The precedence class of node `i`.
    pub fn priority(&self, i: usize) -> (res: Priority)
        requires
            i < self.nodes.len(),
        ensures
            res == spec_node_priority(self.nodes@[i as int]),
    {
        match &self.nodes[i] {
            Node::Bin { op, .. } => op.priority(),
            _ => Priority::High,
        }
    }

    /// The location of node `i` (that of the parser for the empty node).
    pub fn loc(&self, i: usize, fallback: Location) -> (res: Location)
        requires
            i < self.nodes.len(),
        ensures
            res == node_loc(self.nodes@[i as int], fallback),
    {
        match &self.nodes[i] {
            Node::Empty => fallback,
            Node::Args(g) => g.loc,
            Node::Group(g) => g.loc,
            Node::Bin { loc, .. } => *loc,
            Node::Cmd { loc, .. } => *loc,
            Node::Branch { loc, .. } => *loc,
            Node::For { loc, .. } => *loc,
            Node::Leaf { loc, .. } => *loc,
            Node::Loop { loc, .. } => *loc,
        }
    }

    /// Add child `c` to node `i` (see [`add_child_error`] and [`child_added`]).
    pub fn add_child(&mut self, i: usize, c: usize) -> (res: Result<(), String>)
        requires
            old(self).wf(),
            0 < i < old(self).nodes.len(),
            c < old(self).nodes.len(),
            !(old(self).nodes@[i as int] is Empty),
        ensures
            final(self).wf(),
            final(self).nodes.len() == old(self).nodes.len(),
            match add_child_error(old(self).nodes@[i as int], c, old(self).nodes@) {
                Some(msg) => res matches Err(e) && e@ == msg && final(self).nodes@ == old(self).nodes@,
                None => res is Ok && final(self).nodes@ == old(self).nodes@.update(
                    i as int,
                    final(self).nodes@[i as int],
                ) && child_added(old(self).nodes@[i as int], c, old(self).nodes@, final(self).nodes@[i as int]),
            },
            grown_from(old(self).nodes@, final(self).nodes@),
    {
        let ghost old_nodes = self.nodes@;
        let ghost len = self.nodes.len() as nat;
        let c_is_group = self.is_group(c);
        let c_is_args = self.is_args(c);
        let c_var: Option<String> = match &self.nodes[c] {
            Node::Leaf { text, .. } => Some(text.value.clone()),
            _ => None,
        };
        assert(old_nodes[c as int] is Leaf <==> c_var is Some);
        let n = self.take_node(i);
        assert(node_ok(n, len));
        let (m, err): (Node, Option<&str>) = match n {
            Node::Empty => (Node::Empty, None),
            Node::Args(g) => {
                let mut content = g.content;
                content.push(c);
                let h = GroupNode { closed: g.closed, frame: g.frame, content, loc: g.loc };
                assert(node_ok(Node::Args(h), len));
                (Node::Args(h), None)
            },
            Node::Group(g) => {
                let mut content = g.content;
                content.push(c);
                let h = GroupNode { closed: g.closed, frame: g.frame, content, loc: g.loc };
                assert(node_ok(Node::Group(h), len));
                (Node::Group(h), None)
            },
            Node::Bin { op, lhs, rhs, frame, loc } => {
                if rhs == 0 {
                    (Node::Bin { op, lhs, rhs: c, frame, loc }, None)
                } else {
                    (Node::Bin { op, lhs, rhs, frame, loc }, Some("Unexpected expression, missing a semicolon?"))
                }
            },
            Node::Cmd { name, args, frame, loc } => {
                if args == 0 && c_is_args {
                    (Node::Cmd { name, args: c, frame, loc }, None)
                } else {
                    (Node::Cmd { name, args, frame, loc }, Some("Expecting argument list"))
                }
            },
            Node::Branch { cond, if_branch, else_branch, expect_else, frame, loc } => {
                if cond == 0 {
                    (Node::Branch { cond: c, if_branch, else_branch, expect_else, frame, loc }, None)
                } else if if_branch == 0 {
                    if !c_is_group {
                        (Node::Branch { cond, if_branch, else_branch, expect_else, frame, loc }, Some("Parentheses are required around IF body"))
                    } else {
                        (Node::Branch { cond, if_branch: c, else_branch, expect_else, frame, loc }, None)
                    }
                } else if else_branch == 0 {
                    if !expect_else {
                        (Node::Branch { cond, if_branch, else_branch, expect_else, frame, loc }, Some("Expecting ELSE keyword"))
                    } else if !c_is_group {
                        (Node::Branch { cond, if_branch, else_branch, expect_else, frame, loc }, Some("Parentheses are required around ELSE body"))
                    } else {
                        (Node::Branch { cond, if_branch, else_branch: c, expect_else, frame, loc }, None)
                    }
                } else {
                    (Node::Branch { cond, if_branch, else_branch, expect_else, frame, loc }, Some("Unexpected expression after ELSE body, missing semicolon?"))
                }
            },
            Node::For { var, args, body, frame, loc } => {
                if var.as_str().unicode_len() == 0 {
                    match c_var {
                        Some(v) => (Node::For { var: v, args, body, frame, loc }, None),
                        None => (Node::For { var, args, body, frame, loc }, Some("Expecting identifier in FOR expression")),
                    }
                } else if args == 0 {
                    if c_is_args {
                        (Node::For { var, args: c, body, frame, loc }, None)
                    } else {
                        (Node::For { var, args, body, frame, loc }, Some("Expecting argument list"))
                    }
                } else if body == 0 {
                    if !c_is_group {
                        (Node::For { var, args, body, frame, loc }, Some("Parentheses are required around FOR body"))
                    } else {
                        (Node::For { var, args, body: c, frame, loc }, None)
                    }
                } else {
                    (Node::For { var, args, body, frame, loc }, Some("FOR already has a body"))
                }
            },
            Node::Leaf { text, frame, loc } => (Node::Leaf { text, frame, loc }, Some("Unexpected expression after literal")),
            Node::Loop { cond, body, frame, loc } => {
                if cond == 0 {
                    (Node::Loop { cond: c, body, frame, loc }, None)
                } else if body == 0 {
                    if !c_is_group {
                        (Node::Loop { cond, body, frame, loc }, Some("Parentheses are required around WHILE body"))
                    } else {
                        (Node::Loop { cond, body: c, frame, loc }, None)
                    }
                } else {
                    (Node::Loop { cond, body, frame, loc }, Some("WHILE already has a body"))
                }
            },
        };
        self.set_node(i, m);
        match err {
            Some(msg) => {
                proof {
                    reveal_strlit("Unexpected expression, missing a semicolon?");
                    reveal_strlit("Expecting argument list");
                    reveal_strlit("Parentheses are required around IF body");
                    reveal_strlit("Expecting ELSE keyword");
                    reveal_strlit("Parentheses are required around ELSE body");
                    reveal_strlit("Unexpected expression after ELSE body, missing semicolon?");
                    reveal_strlit("Expecting identifier in FOR expression");
                    reveal_strlit("Parentheses are required around FOR body");
                    reveal_strlit("FOR already has a body");
                    reveal_strlit("Unexpected expression after literal");
                    reveal_strlit("Parentheses are required around WHILE body");
                    reveal_strlit("WHILE already has a body");
                }
                assert(self.nodes@ =~= old_nodes);
                Err(crate::text::to_owned_string(msg))
            },
            None => Ok(()),
        }
    }

    /// If node `i` is an IF with its condition and its IF body, note that an ELSE
    /// is expected from now on; returns whether it is.
    pub fn expect_else(&mut self, i: usize) -> (res: bool)
        requires
            old(self).wf(),
            0 < i < old(self).nodes.len(),
        ensures
            final(self).wf(),
            final(self).nodes.len() == old(self).nodes.len(),
            grown_from(old(self).nodes@, final(self).nodes@),
            res == (old(self).nodes@[i as int] matches Node::Branch { cond, if_branch, .. } && cond != 0
                && if_branch != 0),
            match old(self).nodes@[i as int] {
                Node::Branch { cond, if_branch, else_branch, frame, loc, .. } => if res {
                    final(self).nodes@ == old(self).nodes@.update(
                        i as int,
                        Node::Branch { cond, if_branch, else_branch, expect_else: true, frame, loc },
                    )
                } else {
                    final(self).nodes@ == old(self).nodes@
                },
                _ => final(self).nodes@ == old(self).nodes@,
            },
    {
        let n = self.take_node(i);
        let (m, ok) = match n {
            Node::Branch { cond, if_branch, else_branch, expect_else, frame, loc } => {
                if cond != 0 && if_branch != 0 {
                    (Node::Branch { cond, if_branch, else_branch, expect_else: true, frame, loc }, true)
                } else {
                    (Node::Branch { cond, if_branch, else_branch, expect_else, frame, loc }, false)
                }
            },
            other => (other, false),
        };
        self.set_node(i, m);
        assert(!ok ==> self.nodes@ =~= old(self).nodes@);
        ok
    }

    /// Close group (or argument list) `i`.
    pub fn close_group(&mut self, i: usize)
        requires
            old(self).wf(),
            0 < i < old(self).nodes.len(),
        ensures
            final(self).wf(),
            final(self).nodes.len() == old(self).nodes.len(),
            match old(self).nodes@[i as int] {
                Node::Args(g) => final(self).nodes@ == old(self).nodes@.update(
                    i as int,
                    Node::Args(GroupNode { closed: true, ..g }),
                ),
                Node::Group(g) => final(self).nodes@ == old(self).nodes@.update(
                    i as int,
                    Node::Group(GroupNode { closed: true, ..g }),
                ),
                _ => final(self).nodes@ == old(self).nodes@,
            },
            grown_from(old(self).nodes@, final(self).nodes@),
    {
        let n = self.take_node(i);
        let ghost len = self.nodes.len();
        match n {
            Node::Args(g) => {
                let g2 = GroupNode { closed: true, frame: g.frame, content: g.content, loc: g.loc };
                assert(node_ok(Node::Args(g2), len as nat));
                self.set_node(i, Node::Args(g2));
            },
            Node::Group(g) => {
                let g2 = GroupNode { closed: true, frame: g.frame, content: g.content, loc: g.loc };
                assert(node_ok(Node::Group(g2), len as nat));
                self.set_node(i, Node::Group(g2));
            },
            other => {
                self.set_node(i, other);
            },
        }
        assert(self.nodes@ =~= match old(self).nodes@[i as int] {
            Node::Args(g) => old(self).nodes@.update(i as int, Node::Args(GroupNode { closed: true, ..g })),
            Node::Group(g) => old(self).nodes@.update(i as int, Node::Group(GroupNode { closed: true, ..g })),
            _ => old(self).nodes@,
        });
    }
}

/// A node that refers to positions below `a` refers to positions below any `b >= a`.
pub proof fn lemma_node_ok_grow(n: Node, a: nat, b: nat)
    requires
        node_ok(n, a),
        a <= b,
    ensures
        node_ok(n, b),
{
    match n {
        Node::Args(g) => {
            assert forall|k: int| 0 <= k < g.content@.len() implies #[trigger] g.content@[k] < b by {
                assert(g.content@[k] < a);
            }
        },
        Node::Group(g) => {
            assert forall|k: int| 0 <= k < g.content@.len() implies #[trigger] g.content@[k] < b by {
                assert(g.content@[k] < a);
            }
        },
        _ => {},
    }
}

} // verus!

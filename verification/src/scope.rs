//! Variable scopes.
//!
//! All scopes of an evaluation live in one table; each scope names its
//! parent by position, and a parent always stands before its children.
//! A [`Scope`] is that table together with the position of the scope that is
//! current: variables are inserted there and looked up from there outwards.
use vstd::prelude::*;
use crate::text::{chars_of, str_eq_vec, to_owned_string};
use crate::value::{SValue, Value};

verus! {

/// A named variable.
pub struct Variable {
    pub name: String,
    pub value: Value,
}

/// One scope: its variables, its parent, and the (1-based) index of the
/// command argument that caused the last error, or zero.
pub struct Frame {
    pub parent: Option<usize>,
    pub vars: Vec<Variable>,
    pub err_arg: usize,
}

/// The table of scopes, with the current one.
pub struct Scope {
    pub frames: Vec<Frame>,
    pub current: usize,
}

/// Do the variables of a frame have distinct names?
pub open spec fn names_unique(vars: Seq<Variable>) -> bool {
    forall|i: int, j: int|
        0 <= i < vars.len() && 0 <= j < vars.len() && i != j ==> vars[i].name@ != vars[j].name@
}

/// Position of the variable named `name` in `vars`, if any.
pub open spec fn var_pos(vars: Seq<Variable>, name: Seq<char>) -> Option<int> {
    if exists|i: int| 0 <= i < vars.len() && vars[i].name@ == name {
        Some(choose|i: int| 0 <= i < vars.len() && vars[i].name@ == name)
    } else {
        None
    }
}

/// Does the parent of frame `fr`, standing at position `f`, precede it?
pub open spec fn parent_before(fr: Frame, f: int) -> bool {
    match fr.parent {
        Some(p) => p < f,
        None => true,
    }
}

/// The variables of a frame, as a map from names to values.
pub open spec fn vars_map(vars: Seq<Variable>) -> Map<Seq<char>, SValue> {
    Map::new(
        |k: Seq<char>| exists|i: int| 0 <= i < vars.len() && vars[i].name@ == k,
        |k: Seq<char>| vars[var_pos(vars, k)->0].value@,
    )
}

/// Is `new` the scope table `old` with argument `index` (0-based) recorded as the
/// cause of an error in the current scope, and nothing else changed?
pub open spec fn err_recorded(old: Scope, new: Scope, index: int) -> bool {
    &&& new.wf()
    &&& new.current == old.current
    &&& new.frames@ == old.frames@.update(old.current as int, new.frames@[old.current as int])
    &&& new.frames@[old.current as int].err_arg == index + 1
    &&& new.frames@[old.current as int].vars == old.frames@[old.current as int].vars
    &&& new.frames@[old.current as int].parent == old.frames@[old.current as int].parent
}

impl Scope {
    /// Well-formedness: there is a current scope, parents precede children,
    /// and variable names are unique within each scope.
    pub open spec fn wf(&self) -> bool {
        &&& self.frames.len() > 0
        &&& self.current < self.frames.len()
        &&& forall|f: int| 0 <= f < self.frames.len() ==> parent_before(#[trigger] self.frames@[f], f)
        &&& forall|f: int| 0 <= f < self.frames.len() ==> names_unique(#[trigger] self.frames@[f].vars@)
    }

    /// The variables of scope `f`.
    pub open spec fn vars_of(&self, f: int) -> Map<Seq<char>, SValue> {
        vars_map(self.frames@[f].vars@)
    }

    /// The value of `name` as seen from scope `f`: its own variables first, then its parent's.
    pub open spec fn lookup_from(&self, f: int, name: Seq<char>) -> Option<SValue>
        decreases f,
    {
        if f < 0 || f >= self.frames.len() {
            None
        } else if self.vars_of(f).dom().contains(name) {
            Some(self.vars_of(f)[name])
        } else {
            match self.frames@[f].parent {
                Some(p) => if p < f {
                    self.lookup_from(p as int, name)
                } else {
                    None
                },
                None => None,
            }
        }
    }

    /// The value of `name` as seen from the current scope.
    pub open spec fn spec_lookup(&self, name: Seq<char>) -> Option<SValue> {
        self.lookup_from(self.current as int, name)
    }

    /// The scope, on the chain from scope `f` outwards, that holds `name`: the
    /// one whose variable a lookup from `f` finds.
    pub open spec fn holder(&self, f: int, name: Seq<char>) -> Option<int>
        decreases f,
    {
        if f < 0 || f >= self.frames.len() {
            None
        } else if self.vars_of(f).dom().contains(name) {
            Some(f)
        } else {
            match self.frames@[f].parent {
                Some(p) => if p < f {
                    self.holder(p as int, name)
                } else {
                    None
                },
                None => None,
            }
        }
    }

    /// A table with one empty global scope.
    pub fn new() -> (res: Scope)
        ensures
            res.wf(),
            res.frames.len() == 1,
            res.current == 0,
            res.frames@[0].parent is None,
            res.vars_of(0) == Map::<Seq<char>, SValue>::empty(),
            res.frames@[0].err_arg == 0,
    {
        let mut frames = Vec::new();
        frames.push(Frame { parent: None, vars: Vec::new(), err_arg: 0 });
        let s = Scope { frames, current: 0 };
        assert(s.vars_of(0) =~= Map::<Seq<char>, SValue>::empty());
        s
    }

    /// Add a new empty scope whose parent is `parent`; returns its position.
    pub fn new_child(&mut self, parent: usize) -> (res: usize)
        requires
            old(self).wf(),
            parent < old(self).frames.len(),
            old(self).frames.len() < usize::MAX,
        ensures
            final(self).wf(),
            res == old(self).frames.len(),
            final(self).frames@ == old(self).frames@.push(final(self).frames@[res as int]),
            final(self).frames@[res as int].parent == Some(parent),
            final(self).frames@[res as int].vars@.len() == 0,
            final(self).frames@[res as int].err_arg == 0,
            final(self).current == old(self).current,
    {
        let n = self.frames.len();
        self.frames.push(Frame { parent: Some(parent), vars: Vec::new(), err_arg: 0 });
        assert forall|f: int| 0 <= f < self.frames.len() implies names_unique(
            #[trigger] self.frames@[f].vars@,
        ) by {
            if f < n {
                assert(self.frames@[f] == old(self).frames@[f]);
            }
        }
        assert forall|f: int| 0 <= f < self.frames.len() implies parent_before(#[trigger] self.frames@[f], f) by {
            if f < n {
                assert(self.frames@[f] == old(self).frames@[f]);
            }
        }
        n
    }

    /// Position of `name` among the variables of scope `f`.
    fn find_var(&self, f: usize, name: &Vec<char>) -> (res: Option<usize>)
        requires
            self.wf(),
            f < self.frames.len(),
        ensures
            res matches Some(i) ==> i < self.frames@[f as int].vars@.len()
                && self.frames@[f as int].vars@[i as int].name@ == name@,
            res is None ==> !self.vars_of(f as int).dom().contains(name@),
    {
        let vars = &self.frames[f].vars;
        let mut i: usize = 0;
        while i < vars.len()
            invariant
                vars@ == self.frames@[f as int].vars@,
                i <= vars.len(),
                forall|j: int| 0 <= j < i ==> vars@[j].name@ != name@,
            decreases vars.len() - i,
        {
            if str_eq_vec(vars[i].name.as_str(), name) {
                return Some(i);
            }
            i += 1;
        }
        None
    }

    /// Insert (or overwrite) variable `name` in the current scope.
    pub fn insert(&mut self, name: String, val: Value)
        requires
            old(self).wf(),
        ensures
            final(self).wf(),
            final(self).current == old(self).current,
            final(self).frames.len() == old(self).frames.len(),
            final(self).vars_of(old(self).current as int) == old(self).vars_of(
                old(self).current as int,
            ).insert(name@, val@),
            forall|f: int|
                0 <= f < old(self).frames.len() && f != old(self).current ==> final(self).frames@[f] == old(self).frames@[f],
            final(self).frames@[old(self).current as int].parent == old(self).frames@[old(
                self,
            ).current as int].parent,
            final(self).frames@[old(self).current as int].err_arg == old(self).frames@[old(
                self,
            ).current as int].err_arg,
    {
        let cur = self.current;
        self.insert_at(cur, name, val);
    }

    /// Insert (or overwrite) variable `name` in scope `f`.
    pub fn insert_at(&mut self, f: usize, name: String, val: Value)
        requires
            old(self).wf(),
            f < old(self).frames.len(),
        ensures
            final(self).wf(),
            final(self).current == old(self).current,
            final(self).frames.len() == old(self).frames.len(),
            final(self).vars_of(f as int) == old(self).vars_of(f as int).insert(name@, val@),
            forall|g: int|
                0 <= g < old(self).frames.len() && g != f ==> final(self).frames@[g]
                    == old(self).frames@[g],
            final(self).frames@[f as int].parent == old(self).frames@[f as int].parent,
            final(self).frames@[f as int].err_arg == old(self).frames@[f as int].err_arg,
    {
        let key = chars_of(name.as_str());
        let pos = self.find_var(f, &key);
        let ghost old_vars = self.frames@[f as int].vars@;
        let mut frame = Frame { parent: None, vars: Vec::new(), err_arg: 0 };
        std::mem::swap(&mut frame, &mut self.frames[f]);
        assert(frame.vars@ == old_vars);
        match pos {
            Some(i) => {
                frame.vars.set(i, Variable { name, value: val });
                assert(vars_map(frame.vars@) =~= vars_map(old_vars).insert(key@, val@)) by {
                    assert forall|k: Seq<char>|
                        vars_map(frame.vars@).dom().contains(k) implies vars_map(
                        frame.vars@,
                    )[k] == vars_map(old_vars).insert(key@, val@)[k] by {
                        let j = var_pos(frame.vars@, k)->0;
                        if k != key@ {
                            let j0 = var_pos(old_vars, k)->0;
                            assert(j == j0);
                        }
                    }
                    assert forall|k: Seq<char>|
                        vars_map(old_vars).insert(key@, val@).dom().contains(k) implies vars_map(
                        frame.vars@,
                    ).dom().contains(k) by {
                        if k != key@ {
                            let j0 = choose|j: int| 0 <= j < old_vars.len() && old_vars[j].name@ == k;
                            assert(frame.vars@[j0].name@ == k);
                        } else {
                            assert(frame.vars@[i as int].name@ == k);
                        }
                    }
                }
            },
            None => {
                frame.vars.push(Variable { name, value: val });
                let ghost n = old_vars.len();
                assert(vars_map(frame.vars@) =~= vars_map(old_vars).insert(key@, val@)) by {
                    assert forall|k: Seq<char>|
                        vars_map(frame.vars@).dom().contains(k) implies vars_map(
                        frame.vars@,
                    )[k] == vars_map(old_vars).insert(key@, val@)[k] by {
                        let j = var_pos(frame.vars@, k)->0;
                        if k != key@ {
                            let j0 = var_pos(old_vars, k)->0;
                            assert(j == j0);
                        } else {
                            assert(j == n);
                        }
                    }
                    assert forall|k: Seq<char>|
                        vars_map(old_vars).insert(key@, val@).dom().contains(k) implies vars_map(
                        frame.vars@,
                    ).dom().contains(k) by {
                        if k != key@ {
                            let j0 = choose|j: int| 0 <= j < old_vars.len() && old_vars[j].name@ == k;
                            assert(frame.vars@[j0].name@ == k);
                        } else {
                            assert(frame.vars@[n as int].name@ == k);
                        }
                    }
                }
            },
        }
        std::mem::swap(&mut frame, &mut self.frames[f]);
        assert forall|g: int| 0 <= g < self.frames.len() implies names_unique(
            #[trigger] self.frames@[g].vars@,
        ) by {
            if g != f {
                assert(self.frames@[g] == old(self).frames@[g]);
            }
        }
        assert forall|g: int| 0 <= g < self.frames.len() implies parent_before(#[trigger] self.frames@[g], g) by {
            if g != f {
                assert(self.frames@[g] == old(self).frames@[g]);
            }
        }
    }

    /// The value of variable `name` in scope `f` only.
    pub fn lookup_in(&self, f: usize, name: &str) -> (res: Option<Value>)
        requires
            self.wf(),
            f < self.frames.len(),
        ensures
            res is None <==> !self.vars_of(f as int).dom().contains(name@),
            res matches Some(v) ==> v@ == self.vars_of(f as int)[name@],
    {
        let key = chars_of(name);
        match self.find_var(f, &key) {
            Some(i) => {
                let ghost vars = self.frames@[f as int].vars@;
                assert(vars_map(vars).dom().contains(name@));
                let ghost j = var_pos(vars, name@)->0;
                assert(j == i);
                Some(self.frames[f].vars[i].value.duplicate())
            },
            None => None,
        }
    }

    /// The value of variable `name` in the current scope only.
    pub fn lookup_local(&self, name: &str) -> (res: Option<Value>)
        requires
            self.wf(),
        ensures
            res is None <==> !self.vars_of(self.current as int).dom().contains(name@),
            res matches Some(v) ==> v@ == self.vars_of(self.current as int)[name@],
    {
        self.lookup_in(self.current, name)
    }

    /// The value of `name` seen from scope `f`: its own, or its nearest ancestor's.
    pub fn lookup_from_frame(&self, f: usize, name: &str) -> (res: Option<Value>)
        requires
            self.wf(),
            f < self.frames.len(),
        ensures
            match res {
                Some(v) => self.lookup_from(f as int, name@) == Some(v@),
                None => self.lookup_from(f as int, name@) is None,
            },
    {
        let mut g = f;
        loop
            invariant
                self.wf(),
                g < self.frames.len(),
                self.lookup_from(f as int, name@) == self.lookup_from(g as int, name@),
            decreases g,
        {
            match self.lookup_in(g, name) {
                Some(v) => {
                    return Some(v);
                },
                None => {
                    match self.frames[g].parent {
                        Some(p) => {
                            g = p;
                        },
                        None => {
                            return None;
                        },
                    }
                },
            }
        }
    }

    /// The value of `name` seen from the current scope.
    pub fn lookup(&self, name: &str) -> (res: Option<Value>)
        requires
            self.wf(),
        ensures
            match res {
                Some(v) => self.spec_lookup(name@) == Some(v@),
                None => self.spec_lookup(name@) is None,
            },
    {
        self.lookup_from_frame(self.current, name)
    }

    /// The scope that holds `name`, seen from scope `f`.
    pub fn holder_of(&self, f: usize, name: &str) -> (res: Option<usize>)
        requires
            self.wf(),
            f < self.frames.len(),
        ensures
            match self.holder(f as int, name@) {
                Some(g) => res == Some(g as usize),
                None => res is None,
            },
    {
        let mut g = f;
        loop
            invariant
                self.wf(),
                g < self.frames.len(),
                self.holder(f as int, name@) == self.holder(g as int, name@),
            decreases g,
        {
            match self.lookup_in(g, name) {
                Some(_) => {
                    return Some(g);
                },
                None => {
                    match self.frames[g].parent {
                        Some(p) => {
                            g = p;
                        },
                        None => {
                            return None;
                        },
                    }
                },
            }
        }
    }

    /// Give `name` the value `val` in the scope that holds it, seen from scope
    /// `f`; returns false, changing nothing, if no scope on the chain holds it.
    pub fn assign_from(&mut self, f: usize, name: &str, val: Value) -> (res: bool)
        requires
            old(self).wf(),
            f < old(self).frames.len(),
        ensures
            final(self).wf(),
            final(self).current == old(self).current,
            final(self).frames.len() == old(self).frames.len(),
            res == old(self).holder(f as int, name@) is Some,
            match old(self).holder(f as int, name@) {
                Some(g) => final(self).vars_of(g) == old(self).vars_of(g).insert(name@, val@)
                    && final(self).frames@[g].parent == old(self).frames@[g].parent
                    && final(self).frames@[g].err_arg == old(self).frames@[g].err_arg
                    && forall|h: int| 0 <= h < old(self).frames.len() && h != g ==> final(self).frames@[h]
                    == old(self).frames@[h],
                None => final(self).frames@ == old(self).frames@,
            },
    {
        let mut g = f;
        loop
            invariant
                self == old(self),
                self.wf(),
                g < self.frames.len(),
                self.holder(f as int, name@) == self.holder(g as int, name@),
            decreases g,
        {
            match self.lookup_in(g, name) {
                Some(_) => {
                    self.insert_at(g, to_owned_string(name), val);
                    return true;
                },
                None => {
                    match self.frames[g].parent {
                        Some(p) => {
                            g = p;
                        },
                        None => {
                            return false;
                        },
                    }
                },
            }
        }
    }

    /// Remove `name` from the scope that holds it, seen from scope `f`; returns
    /// its value, or `None`, changing nothing, if no scope on the chain holds it.
    pub fn erase_from(&mut self, f: usize, name: &str) -> (res: Option<Value>)
        requires
            old(self).wf(),
            f < old(self).frames.len(),
        ensures
            final(self).wf(),
            final(self).current == old(self).current,
            final(self).frames.len() == old(self).frames.len(),
            match old(self).holder(f as int, name@) {
                Some(g) => res matches Some(v) && v@ == old(self).vars_of(g)[name@]
                    && final(self).vars_of(g) == old(self).vars_of(g).remove(name@)
                    && final(self).frames@[g].parent == old(self).frames@[g].parent
                    && final(self).frames@[g].err_arg == old(self).frames@[g].err_arg
                    && forall|h: int| 0 <= h < old(self).frames.len() && h != g ==> final(self).frames@[h]
                    == old(self).frames@[h],
                None => res is None && final(self).frames@ == old(self).frames@,
            },
    {
        let mut g = f;
        loop
            invariant
                self == old(self),
                self.wf(),
                g < self.frames.len(),
                self.holder(f as int, name@) == self.holder(g as int, name@),
            decreases g,
        {
            let key = chars_of(name);
            match self.find_var(g, &key) {
                Some(i) => {
                    let v = self.remove_at(g, i);
                    return Some(v);
                },
                None => {
                    match self.frames[g].parent {
                        Some(p) => {
                            g = p;
                        },
                        None => {
                            return None;
                        },
                    }
                },
            }
        }
    }

    /// Remove the variable at position `i` of scope `f`; returns its value.
    fn remove_at(&mut self, f: usize, i: usize) -> (res: Value)
        requires
            old(self).wf(),
            f < old(self).frames.len(),
            i < old(self).frames@[f as int].vars.len(),
        ensures
            final(self).wf(),
            final(self).current == old(self).current,
            final(self).frames.len() == old(self).frames.len(),
            res@ == old(self).vars_of(f as int)[old(self).frames@[f as int].vars@[i as int].name@],
            final(self).vars_of(f as int) == old(self).vars_of(f as int).remove(
                old(self).frames@[f as int].vars@[i as int].name@,
            ),
            final(self).frames@[f as int].parent == old(self).frames@[f as int].parent,
            final(self).frames@[f as int].err_arg == old(self).frames@[f as int].err_arg,
            forall|h: int| 0 <= h < old(self).frames.len() && h != f ==> final(self).frames@[h] == old(self).frames@[h],
    {
        let ghost old_vars = self.frames@[f as int].vars@;
        let ghost key = old_vars[i as int].name@;
        proof {
            assert(vars_map(old_vars).dom().contains(key));
            assert(var_pos(old_vars, key)->0 == i);
        }
        let mut frame = Frame { parent: None, vars: Vec::new(), err_arg: 0 };
        std::mem::swap(&mut frame, &mut self.frames[f]);
        let var = frame.vars.remove(i);
        assert(vars_map(frame.vars@) =~= vars_map(old_vars).remove(key)) by {
            assert forall|k: Seq<char>| vars_map(frame.vars@).dom().contains(k) implies vars_map(frame.vars@)[k]
                == vars_map(old_vars).remove(key)[k] && k != key by {
                let j = var_pos(frame.vars@, k)->0;
                let j0 = if j < i { j } else { j + 1 };
                assert(old_vars[j0].name@ == k);
                assert(j0 != i);
                let w = var_pos(old_vars, k)->0;
                assert(w == j0);
            }
            assert forall|k: Seq<char>| vars_map(old_vars).remove(key).dom().contains(k) implies vars_map(
                frame.vars@,
            ).dom().contains(k) by {
                let j0 = choose|j: int| 0 <= j < old_vars.len() && old_vars[j].name@ == k;
                assert(j0 != i);
                let j = if j0 < i { j0 } else { j0 - 1 };
                assert(frame.vars@[j].name@ == k);
            }
        }
        std::mem::swap(&mut frame, &mut self.frames[f]);
        assert forall|g: int| 0 <= g < self.frames.len() implies names_unique(
            #[trigger] self.frames@[g].vars@,
        ) by {
            if g != f {
                assert(self.frames@[g] == old(self).frames@[g]);
            } else {
                assert forall|a: int, b: int|
                    0 <= a < self.frames@[g].vars@.len() && 0 <= b < self.frames@[g].vars@.len() && a != b
                    implies self.frames@[g].vars@[a].name@ != self.frames@[g].vars@[b].name@ by {
                    let a0 = if a < i { a } else { a + 1 };
                    let b0 = if b < i { b } else { b + 1 };
                    assert(old_vars[a0].name@ != old_vars[b0].name@);
                }
            }
        }
        assert forall|g: int| 0 <= g < self.frames.len() implies parent_before(#[trigger] self.frames@[g], g) by {
            if g != f {
                assert(self.frames@[g] == old(self).frames@[g]);
            }
        }
        var.value
    }

    /// Drop the scopes from position `n` on; the current one must stay.
    pub fn truncate(&mut self, n: usize)
        requires
            old(self).wf(),
            0 < n <= old(self).frames.len(),
            old(self).current < n,
        ensures
            final(self).wf(),
            final(self).current == old(self).current,
            final(self).frames@ == old(self).frames@.take(n as int),
    {
        self.frames.truncate(n);
        assert forall|g: int| 0 <= g < self.frames.len() implies names_unique(
            #[trigger] self.frames@[g].vars@,
        ) by {
            assert(self.frames@[g] == old(self).frames@[g]);
        }
        assert forall|g: int| 0 <= g < self.frames.len() implies parent_before(#[trigger] self.frames@[g], g) by {
            assert(self.frames@[g] == old(self).frames@[g]);
        }
    }

    /// Remove all the variables of scope `f`, and its error index.
    pub fn clear_frame(&mut self, f: usize)
        requires
            old(self).wf(),
            f < old(self).frames.len(),
        ensures
            final(self).wf(),
            final(self).current == old(self).current,
            final(self).frames.len() == old(self).frames.len(),
            final(self).frames@[f as int].vars@.len() == 0,
            final(self).frames@[f as int].err_arg == 0,
            final(self).frames@[f as int].parent == old(self).frames@[f as int].parent,
            forall|g: int|
                0 <= g < old(self).frames.len() && g != f ==> final(self).frames@[g]
                    == old(self).frames@[g],
    {
        let mut frame = Frame { parent: None, vars: Vec::new(), err_arg: 0 };
        std::mem::swap(&mut frame, &mut self.frames[f]);
        frame.vars = Vec::new();
        frame.err_arg = 0;
        std::mem::swap(&mut frame, &mut self.frames[f]);
        assert forall|g: int| 0 <= g < self.frames.len() implies names_unique(
            #[trigger] self.frames@[g].vars@,
        ) by {
            if g != f {
                assert(self.frames@[g] == old(self).frames@[g]);
            }
        }
        assert forall|g: int| 0 <= g < self.frames.len() implies parent_before(#[trigger] self.frames@[g], g) by {
            if g != f {
                assert(self.frames@[g] == old(self).frames@[g]);
            }
        }
    }

    /// Copy the variables of scope `from`, except those the evaluator keeps for
    /// itself, into scope `to` (overwriting those of the same name there).
    pub fn export_vars(&mut self, from: usize, to: usize)
        requires
            old(self).wf(),
            from < old(self).frames.len(),
            to < old(self).frames.len(),
            from != to,
        ensures
            final(self).wf(),
            final(self).current == old(self).current,
            final(self).frames.len() == old(self).frames.len(),
            forall|g: int|
                0 <= g < old(self).frames.len() && g != to ==> final(self).frames@[g]
                    == old(self).frames@[g],
            final(self).frames@[to as int].parent == old(self).frames@[to as int].parent,
            forall|k: Seq<char>| #[trigger] final(self).vars_of(to as int).dom().contains(k) <==> (
                old(self).vars_of(to as int).dom().contains(k) || exported(old(self).vars_of(from as int), k)),
            forall|k: Seq<char>| #[trigger] final(self).vars_of(to as int).dom().contains(k) ==>
                final(self).vars_of(to as int)[k] == (if exported(old(self).vars_of(from as int), k) {
                    old(self).vars_of(from as int)[k]
                } else {
                    old(self).vars_of(to as int)[k]
                }),
    {
        let n = self.frames[from].vars.len();
        let ghost src = self.frames@[from as int].vars@;
        let ghost base = old(self).vars_of(to as int);
        let mut j: usize = 0;
        while j < n
            invariant
                self.wf(),
                from < self.frames.len(),
                to < self.frames.len(),
                from != to,
                self.current == old(self).current,
                self.frames.len() == old(self).frames.len(),
                forall|g: int|
                    0 <= g < old(self).frames.len() && g != to ==> self.frames@[g] == old(self).frames@[g],
                self.frames@[to as int].parent == old(self).frames@[to as int].parent,
                src == old(self).frames@[from as int].vars@,
                names_unique(src),
                n == src.len(),
                j <= n,
                forall|k: Seq<char>| #[trigger] self.vars_of(to as int).dom().contains(k) <==> (
                    base.dom().contains(k) || exported_within(src, j as int, k)),
                forall|k: Seq<char>| #[trigger] self.vars_of(to as int).dom().contains(k) ==>
                    self.vars_of(to as int)[k] == (if exported_within(src, j as int, k) {
                        vars_map(src)[k]
                    } else {
                        base[k]
                    }),
            decreases n - j,
        {
            proof { lemma_vars_map_at(src, j as int); }
            let name = self.frames[from].vars[j].name.clone();
            let special = is_special_name(name.as_str());
            if !special {
                let v = self.frames[from].vars[j].value.duplicate();
                self.insert_at(to, name, v);
            }
            proof {
                assert forall|k: Seq<char>| exported_within(src, j + 1, k) <==> (exported_within(src, j as int, k)
                    || (k == src[j as int].name@ && !is_special_var(k))) by {
                    if exported_within(src, j + 1, k) && !exported_within(src, j as int, k) {
                        let i = choose|i: int| 0 <= i < j + 1 && src[i].name@ == k && !is_special_var(k);
                        assert(i == j);
                    }
                    if k == src[j as int].name@ && !is_special_var(k) {
                        assert(0 <= j < j + 1 && src[j as int].name@ == k && !is_special_var(k));
                    }
                }
            }
            j += 1;
        }
        proof {
            assert forall|k: Seq<char>| exported_within(src, n as int, k) == exported(old(self).vars_of(from as int), k) by {
                if exported_within(src, n as int, k) {
                    let i = choose|i: int| 0 <= i < n && src[i].name@ == k && !is_special_var(k);
                    lemma_vars_map_at(src, i);
                }
            }
        }
    }

    /// The (1-based) index of the argument that caused the last error in the current scope.
    pub fn err_arg(&self) -> (res: usize)
        requires
            self.wf(),
        ensures
            res == self.frames@[self.current as int].err_arg,
    {
        self.frames[self.current].err_arg
    }

    /// Record that argument `index` (0-based) caused an error; it is kept 1-based.
    pub fn set_err_arg(&mut self, index: usize)
        requires
            old(self).wf(),
            index < usize::MAX,
        ensures
            err_recorded(*old(self), *final(self), index as int),
    {
        let cur = self.current;
        let mut frame = Frame { parent: None, vars: Vec::new(), err_arg: 0 };
        std::mem::swap(&mut frame, &mut self.frames[cur]);
        frame.err_arg = index + 1;
        std::mem::swap(&mut frame, &mut self.frames[cur]);
        assert forall|g: int| 0 <= g < self.frames.len() implies names_unique(
            #[trigger] self.frames@[g].vars@,
        ) by {
            if g != cur {
                assert(self.frames@[g] == old(self).frames@[g]);
            }
        }
        assert forall|g: int| 0 <= g < self.frames.len() implies parent_before(#[trigger] self.frames@[g], g) by {
            if g != cur {
                assert(self.frames@[g] == old(self).frames@[g]);
            }
        }
        assert(self.frames@ =~= old(self).frames@.update(cur as int, self.frames@[cur as int]));
    }
}

/// Is `name` one of the variables that the evaluator keeps for itself (the
/// errors seen, and where the standard streams go)?
pub open spec fn is_special_var(name: Seq<char>) -> bool {
    name == "__errors"@ || name == "__stderr"@ || name == "__stdout"@
}

/// Is `name` a variable of `vars` that an export copies?
pub open spec fn exported(vars: Map<Seq<char>, SValue>, name: Seq<char>) -> bool {
    vars.dom().contains(name) && !is_special_var(name)
}

/// Is `name` among the first `j` variables of `vars`, and not special?
pub open spec fn exported_within(vars: Seq<Variable>, j: int, name: Seq<char>) -> bool {
    exists|i: int| 0 <= i < j && vars[i].name@ == name && !is_special_var(name)
}

/// Is `name` one of the variables that the evaluator keeps for itself?
pub fn is_special_name(name: &str) -> (res: bool)
    ensures
        res == is_special_var(name@),
{
    crate::text::str_eq(name, "__errors") || crate::text::str_eq(name, "__stderr") || crate::text::str_eq(
        name,
        "__stdout",
    )
}

/// In a frame whose names are distinct, the variable at position `i` is what
/// its name maps to.
proof fn lemma_vars_map_at(vars: Seq<Variable>, i: int)
    requires
        names_unique(vars),
        0 <= i < vars.len(),
    ensures
        vars_map(vars).dom().contains(vars[i].name@),
        vars_map(vars)[vars[i].name@] == vars[i].value@,
{
    let k = vars[i].name@;
    assert(0 <= i < vars.len() && vars[i].name@ == k);
    let p = var_pos(vars, k)->0;
    assert(vars[p].name@ == k);
}

/// What a lookup gives back of a write: once `name` is given the value `v` in
/// scope `f` (by insertion), a lookup of `name` from `f` finds `v`.
pub proof fn law_insert_then_lookup(before: Scope, after: Scope, f: int, name: Seq<char>, v: SValue)
    requires
        before.wf(),
        after.wf(),
        0 <= f < before.frames.len(),
        after.frames.len() == before.frames.len(),
        after.vars_of(f) == before.vars_of(f).insert(name, v),
    ensures
        after.lookup_from(f, name) == Some(v),
{
    assert(after.vars_of(f).dom().contains(name));
}

/// What a lookup gives back of an assignment: once `name` is given the value `v`
/// in the scope that holds it as seen from `f` (the change that
/// [`Scope::assign_from`] makes), a lookup of `name` from `f` finds `v`.
pub proof fn law_assign_then_lookup(before: Scope, after: Scope, f: int, name: Seq<char>, v: SValue)
    requires
        before.wf(),
        after.wf(),
        0 <= f < before.frames.len(),
        after.frames.len() == before.frames.len(),
        before.holder(f, name) matches Some(g) && after.vars_of(g) == before.vars_of(g).insert(name, v)
            && after.frames@[g].parent == before.frames@[g].parent
            && forall|h: int| 0 <= h < before.frames.len() && h != g ==> after.frames@[h] == before.frames@[h],
    ensures
        after.lookup_from(f, name) == Some(v),
    decreases f,
{
    let g = before.holder(f, name)->0;
    if f == g {
        assert(after.vars_of(f).dom().contains(name));
    } else {
        assert(after.frames@[f] == before.frames@[f]);
        assert(!before.vars_of(f).dom().contains(name));
        match before.frames@[f].parent {
            Some(p) => {
                law_assign_then_lookup(before, after, p as int, name, v);
            },
            None => {},
        }
    }
}

} // verus!

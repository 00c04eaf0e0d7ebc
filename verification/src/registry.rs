//! The table of commands that the shell knows by name.
//!
//! Built-in commands are registered when the shell starts; a program found on
//! the search path is registered as an external command the first time its name
//! is used.
use vstd::prelude::*;
use crate::text::{chars_of, seq_lt, str_eq, vec_lt, lemma_seq_lt_irreflexive,
    lemma_seq_lt_transitive, lemma_seq_lt_total};

verus! {

/// A registered command: its name, and whether it is a program on the search path.
pub struct CommandEntry {
    pub name: String,
    pub external: bool,
}

/// The commands known by name.
pub struct Registry {
    entries: Vec<CommandEntry>,
}

/// The texts of a sequence of strings.
pub open spec fn names_of(v: Seq<String>) -> Seq<Seq<char>> {
    v.map_values(|s: String| s@)
}

/// Is `s` strictly increasing (hence free of repetitions)?
pub open spec fn sorted_strictly(s: Seq<Seq<char>>) -> bool {
    forall|i: int, j: int| 0 <= i < j < s.len() ==> seq_lt(#[trigger] s[i], #[trigger] s[j])
}

/// Is program `name` on the search path (crate `which`)? What is on disk decides,
/// so nothing is stated of the result.
#[verifier::external_body]
fn which_executable(name: &str) -> bool {
    which::which(name).is_ok()
}

impl Registry {
    /// The commands: each name, with whether it is external.
    pub closed spec fn view(&self) -> Map<Seq<char>, bool> {
        Map::new(
            |k: Seq<char>| exists|i: int| 0 <= i < self.entries.len() && self.entries@[i].name@ == k,
            |k: Seq<char>|
                self.entries@[choose|i: int| 0 <= i < self.entries.len() && self.entries@[i].name@ == k].external,
        )
    }

    /// Well-formedness: no name is registered twice.
    pub closed spec fn wf(&self) -> bool {
        forall|i: int, j: int|
            0 <= i < self.entries.len() && 0 <= j < self.entries.len() && i != j
                ==> self.entries@[i].name@ != self.entries@[j].name@
    }

    /// An empty table.
    pub fn new() -> (res: Registry)
        ensures
            res.wf(),
            res@ == Map::<Seq<char>, bool>::empty(),
    {
        let r = Registry { entries: Vec::new() };
        assert(r@ =~= Map::<Seq<char>, bool>::empty());
        r
    }

    /// Position of `name` in the table.
    fn find(&self, name: &str) -> (res: Option<usize>)
        requires
            self.wf(),
        ensures
            match res {
                Some(i) => i < self.entries.len() && self.entries@[i as int].name@ == name@,
                None => !self@.dom().contains(name@),
            },
    {
        let mut i: usize = 0;
        while i < self.entries.len()
            invariant
                i <= self.entries.len(),
                forall|j: int| 0 <= j < i ==> self.entries@[j].name@ != name@,
            decreases self.entries.len() - i,
        {
            if str_eq(self.entries[i].name.as_str(), name) {
                return Some(i);
            }
            i += 1;
        }
        None
    }

    /// Is `name` registered, and if so, is it external?
    pub fn lookup(&self, name: &str) -> (res: Option<bool>)
        requires
            self.wf(),
        ensures
            res == (if self@.dom().contains(name@) { Some(self@[name@]) } else { None }),
    {
        match self.find(name) {
            Some(i) => {
                proof {
                    let k = choose|j: int| 0 <= j < self.entries.len() && self.entries@[j].name@ == name@;
                    assert(k == i);
                }
                Some(self.entries[i].external)
            },
            None => None,
        }
    }

    /// Register command `name` (replacing one of that name); returns whether
    /// one was replaced.
    pub fn register_command(&mut self, name: String, external: bool) -> (res: bool)
        requires
            old(self).wf(),
        ensures
            final(self).wf(),
            final(self)@ == old(self)@.insert(name@, external),
            res == old(self)@.dom().contains(name@),
    {
        let ghost key = name@;
        match self.find(name.as_str()) {
            Some(i) => {
                self.entries.set(i, CommandEntry { name, external });
                assert(self@ =~= old(self)@.insert(key, external)) by {
                    assert forall|k: Seq<char>| #[trigger] self@.dom().contains(k) implies self@[k]
                        == old(self)@.insert(key, external)[k] by {
                        let a = choose|j: int| 0 <= j < self.entries.len() && self.entries@[j].name@ == k;
                        if k != key {
                            let b = choose|j: int| 0 <= j < old(self).entries.len() && old(self).entries@[j].name@ == k;
                            assert(a == b);
                        }
                    }
                    assert forall|k: Seq<char>| old(self)@.insert(key, external).dom().contains(k) implies #[trigger] self@.dom().contains(k) by {
                        if k != key {
                            let b = choose|j: int| 0 <= j < old(self).entries.len() && old(self).entries@[j].name@ == k;
                            assert(self.entries@[b].name@ == k);
                        } else {
                            assert(self.entries@[i as int].name@ == k);
                        }
                    }
                }
                true
            },
            None => {
                let ghost n = self.entries.len();
                self.entries.push(CommandEntry { name, external });
                assert(self@ =~= old(self)@.insert(key, external)) by {
                    assert forall|k: Seq<char>| #[trigger] self@.dom().contains(k) implies self@[k]
                        == old(self)@.insert(key, external)[k] by {
                        let a = choose|j: int| 0 <= j < self.entries.len() && self.entries@[j].name@ == k;
                        if k != key {
                            let b = choose|j: int| 0 <= j < old(self).entries.len() && old(self).entries@[j].name@ == k;
                            assert(a == b);
                        } else {
                            assert(a == n);
                        }
                    }
                    assert forall|k: Seq<char>| old(self)@.insert(key, external).dom().contains(k) implies #[trigger] self@.dom().contains(k) by {
                        if k != key {
                            let b = choose|j: int| 0 <= j < old(self).entries.len() && old(self).entries@[j].name@ == k;
                            assert(self.entries@[b].name@ == k);
                        } else {
                            assert(self.entries@[n as int].name@ == k);
                        }
                    }
                }
                false
            },
        }
    }

    /// Remove command `name`, if registered.
    pub fn unregister_command(&mut self, name: &str)
        requires
            old(self).wf(),
        ensures
            final(self).wf(),
            final(self)@ == old(self)@.remove(name@),
    {
        match self.find(name) {
            Some(i) => {
                let ghost old_entries = self.entries@;
                self.entries.remove(i);
                assert(self@ =~= old(self)@.remove(name@)) by {
                    assert forall|k: Seq<char>| #[trigger] self@.dom().contains(k) implies self@[k]
                        == old(self)@.remove(name@)[k] && k != name@ by {
                        let a = choose|j: int| 0 <= j < self.entries.len() && self.entries@[j].name@ == k;
                        let a0 = if a < i { a } else { a + 1 };
                        assert(old_entries[a0].name@ == k);
                        let b = choose|j: int| 0 <= j < old_entries.len() && old_entries[j].name@ == k;
                        assert(a0 == b);
                    }
                    assert forall|k: Seq<char>| old(self)@.remove(name@).dom().contains(k) implies #[trigger] self@.dom().contains(k) by {
                        let b = choose|j: int| 0 <= j < old_entries.len() && old_entries[j].name@ == k;
                        assert(b != i);
                        let a = if b < i { b } else { b - 1 };
                        assert(self.entries@[a].name@ == k);
                    }
                }
            },
            None => {
                assert(self@ =~= old(self)@.remove(name@));
            },
        }
    }

    /// Does `name` name a command: a registered one, or a program on the search
    /// path, which is then registered as external?
    pub fn get_command(&mut self, name: &str) -> (res: bool)
        requires
            old(self).wf(),
        ensures
            final(self).wf(),
            old(self)@.dom().contains(name@) ==> res && final(self)@ == old(self)@,
            !old(self)@.dom().contains(name@) ==> (if res {
                final(self)@ == old(self)@.insert(name@, true)
            } else {
                final(self)@ == old(self)@
            }),
    {
        match self.lookup(name) {
            Some(_) => true,
            None => {
                if which_executable(name) {
                    self.register_command(crate::text::to_owned_string(name), true);
                    true
                } else {
                    false
                }
            },
        }
    }

    /// The names of the registered commands (only the built-in ones if
    /// `internal_only`), in increasing order.
    pub fn registered_commands(&self, internal_only: bool) -> (res: Vec<String>)
        requires
            self.wf(),
        ensures
            sorted_strictly(names_of(res@)),
            forall|k: Seq<char>| #[trigger] names_of(res@).contains(k) <==> (self@.dom().contains(k)
                && !(internal_only && self@[k])),
    {
        let mut out: Vec<String> = Vec::new();
        let mut keys: Vec<Vec<char>> = Vec::new();
        let mut i: usize = 0;
        while i < self.entries.len()
            invariant
                self.wf(),
                i <= self.entries.len(),
                out.len() == keys.len(),
                forall|j: int| 0 <= j < out.len() ==> #[trigger] keys@[j]@ == out@[j]@,
                sorted_strictly(names_of(out@)),
                forall|k: Seq<char>| #[trigger] names_of(out@).contains(k) <==> exists|j: int|
                    0 <= j < i && #[trigger] self.entries@[j].name@ == k && !(internal_only
                        && self.entries@[j].external),
            decreases self.entries.len() - i,
        {
            let e = &self.entries[i];
            if !(internal_only && e.external) {
                let key = chars_of(e.name.as_str());
                // position of the first key above this one
                let mut p: usize = 0;
                while p < keys.len() && vec_lt(&keys[p], &key)
                    invariant
                        p <= keys.len(),
                        out.len() == keys.len(),
                        forall|j: int| 0 <= j < out.len() ==> #[trigger] keys@[j]@ == out@[j]@,
                        forall|j: int| 0 <= j < p ==> seq_lt(#[trigger] keys@[j]@, key@),
                    decreases keys.len() - p,
                {
                    p += 1;
                }
                let ghost before = names_of(out@);
                proof {
                    // the new name is not yet in the output: names are unique
                    assert forall|j: int| 0 <= j < before.len() implies before[j] != key@ by {
                        let k = before[j];
                        assert(names_of(out@).contains(k));
                        let w = choose|w: int| 0 <= w < i && #[trigger] self.entries@[w].name@ == k
                            && !(internal_only && self.entries@[w].external);
                        assert(w != i);
                    }
                    assert forall|j: int| 0 <= j < p implies seq_lt(#[trigger] before[j], key@) by {
                        assert(keys@[j]@ == out@[j]@);
                    }
                    if p < keys.len() {
                        assert(before[p as int] == keys@[p as int]@);
                        assert(!seq_lt(keys@[p as int]@, key@));
                        assert(keys@[p as int]@ != key@);
                        lemma_seq_lt_total(keys@[p as int]@, key@);
                        assert forall|j: int| p <= j < before.len() implies seq_lt(key@, #[trigger] before[j]) by {
                            if j > p {
                                assert(seq_lt(before[p as int], before[j]));
                                lemma_seq_lt_transitive(key@, before[p as int], before[j]);
                            }
                        }
                    }
                }
                out.insert(p, e.name.clone());
                keys.insert(p, key);
                proof {
                    let after = names_of(out@);
                    assert(after =~= before.insert(p as int, key@));
                    assert forall|a: int, b: int| 0 <= a < b < after.len() implies seq_lt(#[trigger] after[a], #[trigger] after[b]) by {
                        if b < p {
                        } else if a < p && b == p {
                        } else if a < p && b > p {
                            assert(after[a] == before[a]);
                            assert(seq_lt(before[a], key@));
                            lemma_seq_lt_transitive(after[a], key@, after[b]);
                        } else if a == p {
                        } else {
                        }
                    }
                    assert forall|j: int| 0 <= j < out.len() implies #[trigger] keys@[j]@ == out@[j]@ by {
                        if j < p {
                        } else if j == p {
                        } else {
                        }
                    }
                    assert forall|k: Seq<char>| #[trigger] after.contains(k) <==> exists|j: int|
                        0 <= j < i + 1 && #[trigger] self.entries@[j].name@ == k && !(internal_only
                            && self.entries@[j].external) by {
                        if after.contains(k) {
                            let x = choose|x: int| 0 <= x < after.len() && after[x] == k;
                            if x == p {
                                assert(self.entries@[i as int].name@ == k);
                            } else if x < p {
                                assert(before[x] == k);
                                assert(before.contains(k));
                            } else {
                                assert(before[x - 1] == k);
                                assert(before.contains(k));
                            }
                        }
                        if exists|j: int| 0 <= j < i + 1 && #[trigger] self.entries@[j].name@ == k
                            && !(internal_only && self.entries@[j].external) {
                            let j = choose|j: int| 0 <= j < i + 1 && #[trigger] self.entries@[j].name@ == k
                                && !(internal_only && self.entries@[j].external);
                            if j == i {
                                assert(after[p as int] == k);
                            } else {
                                assert(before.contains(k));
                                let x = choose|x: int| 0 <= x < before.len() && before[x] == k;
                                if x < p {
                                    assert(after[x] == k);
                                } else {
                                    assert(after[x + 1] == k);
                                }
                            }
                        }
                    }
                }
            } else {
                proof {
                    assert forall|k: Seq<char>| #[trigger] names_of(out@).contains(k) <==> exists|j: int|
                        0 <= j < i + 1 && #[trigger] self.entries@[j].name@ == k && !(internal_only
                            && self.entries@[j].external) by {
                        if exists|j: int| 0 <= j < i + 1 && #[trigger] self.entries@[j].name@ == k
                            && !(internal_only && self.entries@[j].external) {
                            let j = choose|j: int| 0 <= j < i + 1 && #[trigger] self.entries@[j].name@ == k
                                && !(internal_only && self.entries@[j].external);
                            assert(j != i);
                        }
                    }
                }
            }
            i += 1;
        }
        proof {
            assert forall|k: Seq<char>| #[trigger] names_of(out@).contains(k) <==> (self@.dom().contains(k)
                && !(internal_only && self@[k])) by {
                if self@.dom().contains(k) {
                    let c = choose|j: int| 0 <= j < self.entries.len() && self.entries@[j].name@ == k;
                    if exists|j: int| 0 <= j < i && #[trigger] self.entries@[j].name@ == k
                        && !(internal_only && self.entries@[j].external) {
                        let j = choose|j: int| 0 <= j < i && #[trigger] self.entries@[j].name@ == k
                            && !(internal_only && self.entries@[j].external);
                        assert(j == c);
                    }
                    if !(internal_only && self@[k]) {
                        assert(self.entries@[c].name@ == k);
                    }
                }
            }
        }
        out
    }
}

/// A command that was registered is found, and is external exactly when
/// registered so; removing it makes it unknown.
pub proof fn lemma_register_lookup(r: Registry, name: Seq<char>, external: bool)
    ensures
        r@.insert(name, external).dom().contains(name),
        r@.insert(name, external)[name] == external,
        !r@.remove(name).dom().contains(name),
{
}

/// The hint shown when a program may not be run for lack of permission.
pub fn format_sudo_hints(path: &str, cmd: &str) -> (res: String)
    ensures
        res@ == "Try: sudo "@ + path@ + "\n or: sudo "@ + cmd@,
{
    let mut t = crate::text::concat("Try: sudo ", path);
    crate::text::push_str(&mut t, "\n or: sudo ");
    crate::text::push_str(&mut t, cmd);
    t
}

/// The built-in commands are among all commands: a name that the list of
/// built-in commands holds, the list of all commands holds too.
pub proof fn law_internal_among_all(reg: Registry, internal: Seq<Seq<char>>, all: Seq<Seq<char>>)
    requires
        forall|k: Seq<char>| #[trigger] internal.contains(k) <==> (reg@.dom().contains(k) && !reg@[k]),
        forall|k: Seq<char>| #[trigger] all.contains(k) <==> reg@.dom().contains(k),
    ensures
        forall|k: Seq<char>| internal.contains(k) ==> #[trigger] all.contains(k),
{
}

} // verus!

//! Aliases: names that stand for the start of an expression.
//!
//! An alias is run by evaluating its words followed by the arguments it was
//! given, each as a raw string. It remembers the command it replaced, which
//! comes back when the alias is removed.
use vstd::prelude::*;
use crate::expand::strings_view;
use crate::text::str_eq;

verus! {

/// An alias: its name, its words, and the command of that name that it
/// replaced (whether that one is external), if any; and the alias of that
/// name that it replaced, if any.
pub struct AliasEntry {
    pub name: String,
    pub args: Vec<String>,
    pub overridden: Option<bool>,
    pub previous: Option<Box<AliasEntry>>,
}

/// What an alias stands for: its words, the command it replaced, and the
/// alias it replaced, if any.
pub struct AliasSpec {
    pub args: Seq<Seq<char>>,
    pub overridden: Option<bool>,
    pub previous: Option<Box<AliasSpec>>,
}

/// The view of an alias.
pub open spec fn alias_spec(e: AliasEntry) -> AliasSpec
    decreases e,
{
    AliasSpec {
        args: strings_view(e.args@),
        overridden: e.overridden,
        previous: match e.previous {
            Some(p) => Some(Box::new(alias_spec(*p))),
            None => None,
        },
    }
}

/// The aliases after alias `name` is set to `args`, replacing the command
/// `overridden` and the alias of that name, if any.
pub open spec fn alias_added(
    before: Map<Seq<char>, AliasSpec>,
    name: Seq<char>,
    args: Seq<Seq<char>>,
    overridden: Option<bool>,
) -> Map<Seq<char>, AliasSpec> {
    before.insert(
        name,
        AliasSpec {
            args,
            overridden,
            previous: if before.dom().contains(name) {
                Some(Box::new(before[name]))
            } else {
                None
            },
        },
    )
}

/// The aliases after alias `name` is removed: the alias it replaced comes back.
pub open spec fn alias_removed(view: Map<Seq<char>, AliasSpec>, name: Seq<char>) -> Map<Seq<char>, AliasSpec> {
    match view[name].previous {
        Some(p) => view.insert(name, *p),
        None => view.remove(name),
    }
}

/// Removing an alias that was just set gives back the aliases there were before.
pub proof fn law_alias_removal_restores(
    before: Map<Seq<char>, AliasSpec>,
    name: Seq<char>,
    args: Seq<Seq<char>>,
    overridden: Option<bool>,
)
    ensures
        alias_removed(alias_added(before, name, args, overridden), name) == before,
{
    let after = alias_removed(alias_added(before, name, args, overridden), name);
    assert(after =~= before);
}

/// The aliases, by name.
pub struct AliasTable {
    entries: Vec<AliasEntry>,
}

impl AliasTable {
    /// The aliases: each name, with what it stands for.
    pub closed spec fn view(&self) -> Map<Seq<char>, AliasSpec> {
        Map::new(
            |k: Seq<char>| exists|i: int| 0 <= i < self.entries.len() && self.entries@[i].name@ == k,
            |k: Seq<char>|
                alias_spec(self.entries@[choose|i: int| 0 <= i < self.entries.len() && self.entries@[i].name@ == k]),
        )
    }

    /// Well-formedness: no name twice.
    pub closed spec fn wf(&self) -> bool {
        forall|i: int, j: int|
            0 <= i < self.entries.len() && 0 <= j < self.entries.len() && i != j
                ==> self.entries@[i].name@ != self.entries@[j].name@
    }

    /// No aliases.
    pub fn new() -> (res: AliasTable)
        ensures
            res.wf(),
            res@ == Map::<Seq<char>, AliasSpec>::empty(),
    {
        let t = AliasTable { entries: Vec::new() };
        assert(t@ =~= Map::<Seq<char>, AliasSpec>::empty());
        t
    }

    /// Position of `name` in the table.
    fn find(&self, name: &str) -> (res: Option<usize>)
        requires
            self.wf(),
        ensures
            match res {
                Some(i) => i < self.entries.len() && self.entries@[i as int].name@ == name@,
                None => !self@.dom().contains(name@),
            },
    {
        let mut i: usize = 0;
        while i < self.entries.len()
            invariant
                i <= self.entries.len(),
                forall|j: int| 0 <= j < i ==> self.entries@[j].name@ != name@,
            decreases self.entries.len() - i,
        {
            if str_eq(self.entries[i].name.as_str(), name) {
                return Some(i);
            }
            i += 1;
        }
        None
    }

    /// The alias named `name`, if any.
    pub fn get(&self, name: &str) -> (res: Option<&AliasEntry>)
        requires
            self.wf(),
        ensures
            match res {
                Some(e) => self@.dom().contains(name@) && self@[name@] == alias_spec(*e) && e.name@ == name@,
                None => !self@.dom().contains(name@),
            },
    {
        match self.find(name) {
            Some(i) => {
                proof {
                    let k = choose|j: int| 0 <= j < self.entries.len() && self.entries@[j].name@ == name@;
                    assert(k == i);
                }
                Some(&self.entries[i])
            },
            None => None,
        }
    }

    /// Set alias `entry` (replacing one of that name).
    pub fn set(&mut self, entry: AliasEntry)
        requires
            old(self).wf(),
        ensures
            final(self).wf(),
            final(self)@ == old(self)@.insert(entry.name@, alias_spec(entry)),
    {
        let ghost key = entry.name@;
        let ghost val = alias_spec(entry);
        match self.find(entry.name.as_str()) {
            Some(i) => {
                self.entries.set(i, entry);
                assert(self@ =~= old(self)@.insert(key, val)) by {
                    assert forall|k: Seq<char>| #[trigger] self@.dom().contains(k) implies self@[k]
                        == old(self)@.insert(key, val)[k] by {
                        let a = choose|j: int| 0 <= j < self.entries.len() && self.entries@[j].name@ == k;
                        if k != key {
                            let b = choose|j: int| 0 <= j < old(self).entries.len() && old(self).entries@[j].name@ == k;
                            assert(a == b);
                        }
                    }
                    assert forall|k: Seq<char>| old(self)@.insert(key, val).dom().contains(k) implies #[trigger] self@.dom().contains(k) by {
                        if k != key {
                            let b = choose|j: int| 0 <= j < old(self).entries.len() && old(self).entries@[j].name@ == k;
                            assert(self.entries@[b].name@ == k);
                        } else {
                            assert(self.entries@[i as int].name@ == k);
                        }
                    }
                }
            },
            None => {
                let ghost n = self.entries.len();
                self.entries.push(entry);
                assert(self@ =~= old(self)@.insert(key, val)) by {
                    assert forall|k: Seq<char>| #[trigger] self@.dom().contains(k) implies self@[k]
                        == old(self)@.insert(key, val)[k] by {
                        let a = choose|j: int| 0 <= j < self.entries.len() && self.entries@[j].name@ == k;
                        if k != key {
                            let b = choose|j: int| 0 <= j < old(self).entries.len() && old(self).entries@[j].name@ == k;
                            assert(a == b);
                        } else {
                            assert(a == n);
                        }
                    }
                    assert forall|k: Seq<char>| old(self)@.insert(key, val).dom().contains(k) implies #[trigger] self@.dom().contains(k) by {
                        if k != key {
                            let b = choose|j: int| 0 <= j < old(self).entries.len() && old(self).entries@[j].name@ == k;
                            assert(self.entries@[b].name@ == k);
                        } else {
                            assert(self.entries@[n as int].name@ == k);
                        }
                    }
                }
            },
        }
    }

    /// Remove alias `name`, if any.
    pub fn remove(&mut self, name: &str)
        requires
            old(self).wf(),
        ensures
            final(self).wf(),
            final(self)@ == old(self)@.remove(name@),
    {
        match self.find(name) {
            Some(i) => {
                let ghost old_entries = self.entries@;
                self.entries.remove(i);
                assert(self@ =~= old(self)@.remove(name@)) by {
                    assert forall|k: Seq<char>| #[trigger] self@.dom().contains(k) implies self@[k]
                        == old(self)@.remove(name@)[k] && k != name@ by {
                        let a = choose|j: int| 0 <= j < self.entries.len() && self.entries@[j].name@ == k;
                        let a0 = if a < i { a } else { a + 1 };
                        assert(old_entries[a0].name@ == k);
                        let b = choose|j: int| 0 <= j < old_entries.len() && old_entries[j].name@ == k;
                        assert(a0 == b);
                    }
                    assert forall|k: Seq<char>| old(self)@.remove(name@).dom().contains(k) implies #[trigger] self@.dom().contains(k) by {
                        let b = choose|j: int| 0 <= j < old_entries.len() && old_entries[j].name@ == k;
                        assert(b != i);
                        let a = if b < i { b } else { b - 1 };
                        assert(self.entries@[a].name@ == k);
                    }
                }
            },
            None => {
                assert(self@ =~= old(self)@.remove(name@));
            },
        }
    }
}

/// A copy of a list of strings.
pub fn copy_strings(v: &Vec<String>) -> (res: Vec<String>)
    ensures
        strings_view(res@) == strings_view(v@),
{
    let mut out: Vec<String> = Vec::new();
    let mut i: usize = 0;
    while i < v.len()
        invariant
            i <= v.len(),
            strings_view(out@) == strings_view(v@).take(i as int),
        decreases v.len() - i,
    {
        let ghost before = strings_view(out@);
        out.push(crate::text::to_owned_string(v[i].as_str()));
        proof {
            assert(strings_view(out@) =~= before.push(v@[i as int]@));
            assert(strings_view(v@).take(i + 1) =~= strings_view(v@).take(i as int).push(v@[i as int]@));
        }
        i += 1;
    }
    proof {
        assert(strings_view(v@).take(v.len() as int) =~= strings_view(v@));
    }
    out
}

/// A copy of an alias, with the aliases it replaced.
pub fn copy_alias(e: &AliasEntry) -> (res: AliasEntry)
    ensures
        res.name@ == e.name@,
        alias_spec(res) == alias_spec(*e),
    decreases e,
{
    let previous = match &e.previous {
        Some(p) => Some(Box::new(copy_alias(p))),
        None => None,
    };
    AliasEntry {
        name: crate::text::to_owned_string(e.name.as_str()),
        args: copy_strings(&e.args),
        overridden: e.overridden,
        previous,
    }
}

} // verus!

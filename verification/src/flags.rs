//! Command-line flags of the built-in commands.
//!
//! A [`CommandFlags`] holds the flags that a command accepts, kept sorted by
//! their long names, and the values that parsing the arguments gave them.
use vstd::prelude::*;
use crate::scope::{err_recorded, Scope};
use crate::text::{
    chars_of, concat, concat3, is_prefix, lemma_seq_lt_irreflexive, lemma_seq_lt_total,
    lemma_seq_lt_transitive, push_char, push_str, seq_lt, str_eq, str_eq_vec, string_of,
    string_of_range, to_owned_string, vec_lt, vec_starts_with,
};

verus! {

/// A flag that a command accepts.
pub struct Flag {
    pub short: Option<char>,
    pub long: String,
    pub help: String,
    pub takes_value: bool,
    pub default_value: Option<String>,
}

/// The view of a [`Flag`].
pub struct FlagSpec {
    pub short: Option<char>,
    pub long: Seq<char>,
    pub help: Seq<char>,
    pub takes_value: bool,
    pub default_value: Option<Seq<char>>,
}

/// The view of an optional string.
pub open spec fn opt_view(o: Option<String>) -> Option<Seq<char>> {
    match o {
        Some(s) => Some(s@),
        None => None,
    }
}

impl View for Flag {
    type V = FlagSpec;

    open spec fn view(&self) -> FlagSpec {
        FlagSpec {
            short: self.short,
            long: self.long@,
            help: self.help@,
            takes_value: self.takes_value,
            default_value: opt_view(self.default_value),
        }
    }
}

impl Flag {
    /// A copy of this flag.
    pub fn duplicate(&self) -> (res: Flag)
        ensures
            res@ == self@,
    {
        Flag {
            short: self.short,
            long: self.long.clone(),
            help: self.help.clone(),
            takes_value: self.takes_value,
            default_value: match &self.default_value {
                Some(d) => Some(d.clone()),
                None => None,
            },
        }
    }
}

/// The flags of a command and the values they were given.
pub struct CommandFlags {
    flags: Vec<Flag>,
    values: Vec<(String, String)>,
    index: usize,
}

/// Are the long names strictly increasing and the short names distinct?
pub open spec fn flags_wf(fl: Seq<FlagSpec>) -> bool {
    &&& forall|i: int, j: int| 0 <= i < j < fl.len() ==> seq_lt(fl[i].long, fl[j].long)
    &&& forall|i: int, j: int|
        0 <= i < fl.len() && 0 <= j < fl.len() && i != j && fl[i].short is Some ==> fl[i].short
            != fl[j].short
}

/// Are the keys of the value pairs distinct?
pub open spec fn keys_unique(vals: Seq<(Seq<char>, Seq<char>)>) -> bool {
    forall|i: int, j: int| 0 <= i < vals.len() && 0 <= j < vals.len() && i != j ==> vals[i].0 != vals[j].0
}

/// Does every value belong to a declared flag?
pub open spec fn values_declared(fl: Seq<FlagSpec>, vals: Seq<(Seq<char>, Seq<char>)>) -> bool {
    forall|i: int| 0 <= i < vals.len() ==> #[trigger] find_long(fl, vals[i].0) is Some
}

/// The value pairs as a map.
pub open spec fn pairs_map(vals: Seq<(Seq<char>, Seq<char>)>) -> Map<Seq<char>, Seq<char>> {
    Map::new(
        |k: Seq<char>| exists|i: int| 0 <= i < vals.len() && vals[i].0 == k,
        |k: Seq<char>| vals[choose|i: int| 0 <= i < vals.len() && vals[i].0 == k].1,
    )
}

/// Position of the flag with long name `name`.
pub open spec fn find_long(fl: Seq<FlagSpec>, name: Seq<char>) -> Option<int> {
    if exists|i: int| 0 <= i < fl.len() && fl[i].long == name {
        Some(choose|i: int| 0 <= i < fl.len() && fl[i].long == name)
    } else {
        None
    }
}

/// Position of the flag with short name `c`.
pub open spec fn find_short(fl: Seq<FlagSpec>, c: char) -> Option<int> {
    if exists|i: int| 0 <= i < fl.len() && fl[i].short == Some(c) {
        Some(choose|i: int| 0 <= i < fl.len() && fl[i].short == Some(c))
    } else {
        None
    }
}

/// In a well-formed flag list, the flag with a given long name is the only one.
pub proof fn lemma_find_long_at(fl: Seq<FlagSpec>, name: Seq<char>, k: int)
    requires
        flags_wf(fl),
        0 <= k < fl.len(),
        fl[k].long == name,
    ensures
        find_long(fl, name) == Some(k),
{
    let c = choose|c: int| 0 <= c < fl.len() && fl[c].long == name;
    if c < k {
        assert(seq_lt(fl[c].long, fl[k].long));
        lemma_seq_lt_irreflexive(name);
    } else if c > k {
        assert(seq_lt(fl[k].long, fl[c].long));
        lemma_seq_lt_irreflexive(name);
    }
}

/// Is `new` the sequence `old` with `f` inserted somewhere?
pub open spec fn is_insertion(old: Seq<FlagSpec>, new: Seq<FlagSpec>, f: FlagSpec) -> bool {
    exists|pos: int| 0 <= pos <= old.len() && new == #[trigger] old.insert(pos, f)
}

/// The flags of `after` are those of `before` with `f` inserted in order of long
/// names, and the values given and the parsing position are kept.
pub open spec fn flag_added(
    before: (Seq<FlagSpec>, Map<Seq<char>, Seq<char>>, usize),
    after: (Seq<FlagSpec>, Map<Seq<char>, Seq<char>>, usize),
    f: FlagSpec,
) -> bool {
    &&& flags_wf(after.0)
    &&& is_insertion(before.0, after.0, f)
    &&& after.1 == before.1
    &&& after.2 == before.2
}

/// Adding a flag leaves one state only: two flag sets that both come from
/// adding `f` to the same flags are the same, in their flags, their values and
/// their parsing position. So `add` does what `add_with_default` does with no
/// default, `add_flag` what `add` does with a short name and no value, and
/// `add_option` what `add` does with a short name and a value.
pub proof fn law_flag_added_unique(
    before: (Seq<FlagSpec>, Map<Seq<char>, Seq<char>>, usize),
    a: (Seq<FlagSpec>, Map<Seq<char>, Seq<char>>, usize),
    b: (Seq<FlagSpec>, Map<Seq<char>, Seq<char>>, usize),
    f: FlagSpec,
)
    requires
        flag_added(before, a, f),
        flag_added(before, b, f),
    ensures
        a == b,
{
    let pa = choose|pos: int| 0 <= pos <= before.0.len() && a.0 == #[trigger] before.0.insert(pos, f);
    let pb = choose|pos: int| 0 <= pos <= before.0.len() && b.0 == #[trigger] before.0.insert(pos, f);
    if pa < pb {
        // f sits at pa in a; in b, position pa holds before[pa] and pb holds f
        assert(a.0[pa] == f);
        assert(b.0[pa] == before.0[pa]);
        assert(a.0[pa + 1] == before.0[pa]);
        assert(seq_lt(a.0[pa].long, a.0[pa + 1].long));
        assert(b.0[pb] == f);
        assert(seq_lt(b.0[pa].long, b.0[pb].long));
        lemma_seq_lt_transitive(f.long, before.0[pa].long, f.long);
        lemma_seq_lt_irreflexive(f.long);
    } else if pb < pa {
        assert(b.0[pb] == f);
        assert(a.0[pb] == before.0[pb]);
        assert(b.0[pb + 1] == before.0[pb]);
        assert(seq_lt(b.0[pb].long, b.0[pb + 1].long));
        assert(a.0[pa] == f);
        assert(seq_lt(a.0[pb].long, a.0[pa].long));
        lemma_seq_lt_transitive(f.long, before.0[pb].long, f.long);
        lemma_seq_lt_irreflexive(f.long);
    }
    assert(a.0 =~= b.0);
}

/// No flag is present exactly when no value was given: `is_empty` holds
/// exactly when `is_present` fails for every name.
pub proof fn law_empty_iff_none_present(flags: CommandFlags)
    ensures
        (flags.spec_values() == Map::<Seq<char>, Seq<char>>::empty()) <==> forall|n: Seq<char>|
            !#[trigger] flags.spec_values().dom().contains(n),
{
    if forall|n: Seq<char>| !#[trigger] flags.spec_values().dom().contains(n) {
        assert(flags.spec_values() =~= Map::<Seq<char>, Seq<char>>::empty());
    }
}

/// The help text lists the flags in order of their long names, one line each.
pub proof fn law_help_in_order(flags: CommandFlags)
    requires
        flags.wf(),
    ensures
        forall|i: int, j: int| 0 <= i < j < flags.spec_flags().len() ==> seq_lt(
            flags.spec_flags()[i].long,
            flags.spec_flags()[j].long,
        ),
        help_text(flags.spec_flags()) == if flags.spec_flags().len() == 0 {
            Seq::<char>::empty()
        } else {
            help_text(flags.spec_flags().drop_last()) + help_line(flags.spec_flags().last())
        },
{
}

/// The view of a list of arguments.
pub open spec fn args_view(args: Seq<String>) -> Seq<Seq<char>> {
    args.map_values(|s: String| s@)
}

impl CommandFlags {
    /// The flags, sorted by long name.
    pub closed spec fn spec_flags(&self) -> Seq<FlagSpec> {
        self.flags@.map_values(|f: Flag| f@)
    }

    /// What the flags are: the flags, the values given, the parsing position.
    pub open spec fn flag_state(&self) -> (Seq<FlagSpec>, Map<Seq<char>, Seq<char>>, usize) {
        (self.spec_flags(), self.spec_values(), self.spec_index())
    }

    /// The values given to flags, by long name.
    pub closed spec fn spec_values(&self) -> Map<Seq<char>, Seq<char>> {
        pairs_map(self.pairs())
    }

    /// The position of the argument being parsed.
    pub closed spec fn spec_index(&self) -> usize {
        self.index
    }

    closed spec fn pairs(&self) -> Seq<(Seq<char>, Seq<char>)> {
        self.values@.map_values(|p: (String, String)| (p.0@, p.1@))
    }

    /// Well-formedness.
    pub closed spec fn wf(&self) -> bool {
        &&& flags_wf(self.spec_flags())
        &&& keys_unique(self.pairs())
        &&& values_declared(self.spec_flags(), self.pairs())
    }

    /// No flags and no values.
    pub fn new() -> (res: Self)
        ensures
            res.wf(),
            res.spec_flags() == Seq::<FlagSpec>::empty(),
            res.spec_values() == Map::<Seq<char>, Seq<char>>::empty(),
            res.spec_index() == 0,
    {
        let r = CommandFlags { flags: Vec::new(), values: Vec::new(), index: 0 };
        assert(r.spec_flags() =~= Seq::<FlagSpec>::empty());
        assert(r.spec_values() =~= Map::<Seq<char>, Seq<char>>::empty());
        r
    }

    /// Position of the flag named `name` (its long name).
    fn position_long(&self, name: &Vec<char>) -> (res: Option<usize>)
        requires
            self.wf(),
        ensures
            res matches Some(k) ==> find_long(self.spec_flags(), name@) == Some(k as int),
            res is None ==> find_long(self.spec_flags(), name@) is None,
    {
        let mut i: usize = 0;
        while i < self.flags.len()
            invariant
                i <= self.flags.len(),
                self.wf(),
                forall|j: int| 0 <= j < i ==> self.spec_flags()[j].long != name@,
            decreases self.flags.len() - i,
        {
            if str_eq_vec(self.flags[i].long.as_str(), name) {
                proof {
                    let k = choose|k: int|
                        0 <= k < self.spec_flags().len() && self.spec_flags()[k].long == name@;
                    if k != i {
                        if k < i {
                        } else {
                            assert(seq_lt(self.spec_flags()[i as int].long, self.spec_flags()[k].long));
                            lemma_seq_lt_irreflexive(name@);
                        }
                    }
                }
                return Some(i);
            }
            i += 1;
        }
        None
    }

    /// Is the long name of flag `i` before `key`?
    fn long_lt(&self, i: usize, key: &Vec<char>) -> (res: bool)
        requires
            i < self.spec_flags().len(),
        ensures
            res == seq_lt(self.spec_flags()[i as int].long, key@),
    {
        let k = chars_of(self.flags[i].long.as_str());
        vec_lt(&k, key)
    }

    /// Position of the flag whose short name is `c`.
    fn position_short(&self, c: char) -> (res: Option<usize>)
        requires
            self.wf(),
        ensures
            res matches Some(k) ==> find_short(self.spec_flags(), c) == Some(k as int),
            res is None ==> find_short(self.spec_flags(), c) is None,
    {
        let mut i: usize = 0;
        while i < self.flags.len()
            invariant
                i <= self.flags.len(),
                self.wf(),
                forall|j: int| 0 <= j < i ==> self.spec_flags()[j].short != Some(c),
            decreases self.flags.len() - i,
        {
            if self.flags[i].short == Some(c) {
                assert(self.spec_flags()[i as int].short == Some(c));
                return Some(i);
            }
            i += 1;
        }
        None
    }

    /// Position of the value pair for `name`.
    fn position_value(&self, name: &Vec<char>) -> (res: Option<usize>)
        requires
            self.wf(),
        ensures
            res matches Some(i) ==> i < self.pairs().len() && self.pairs()[i as int].0 == name@,
            res is None ==> !self.spec_values().dom().contains(name@),
    {
        let mut i: usize = 0;
        while i < self.values.len()
            invariant
                i <= self.values.len(),
                self.wf(),
                forall|j: int| 0 <= j < i ==> self.pairs()[j].0 != name@,
            decreases self.values.len() - i,
        {
            if str_eq_vec(self.values[i].0.as_str(), name) {
                return Some(i);
            }
            i += 1;
        }
        None
    }

    /// Add a flag, with an optional default value.
    /// A flag with the same long name, or the same short name, must not exist yet.
    pub fn add_with_default(
        &mut self,
        short: Option<char>,
        long: &str,
        takes_value: bool,
        help: &str,
        default_value: Option<&str>,
    )
        requires
            old(self).wf(),
            find_long(old(self).spec_flags(), long@) is None,
            short matches Some(c) ==> find_short(old(self).spec_flags(), c) is None,
        ensures
            final(self).wf(),
            final(self).spec_values() == old(self).spec_values(),
            final(self).spec_index() == old(self).spec_index(),
            flag_added(old(self).flag_state(), final(self).flag_state(), FlagSpec {
                        short,
                        long: long@,
                        help: help@,
                        takes_value,
                        default_value: match default_value {
                            Some(d) => Some(d@),
                            None => None,
                        },
                    }),
            final(self).spec_option(long@) == match default_value {
                Some(d) => Some(d@),
                None => None::<Seq<char>>,
            },
            forall|n: Seq<char>| n != long@ ==> #[trigger] final(self).spec_option(n) == old(self).spec_option(n),
    {
        let key = chars_of(long);
        let flag = Flag {
            short,
            long: to_owned_string(long),
            help: to_owned_string(help),
            takes_value,
            default_value: match default_value {
                Some(d) => Some(to_owned_string(d)),
                None => None,
            },
        };
        let ghost old_fl = self.spec_flags();
        let mut pos: usize = 0;
        while pos < self.flags.len() && self.long_lt(pos, &key)
            invariant
                pos <= self.flags.len(),
                self.spec_flags() == old_fl,
                forall|j: int| 0 <= j < pos ==> seq_lt(old_fl[j].long, key@),
            decreases self.flags.len() - pos,
        {
            pos += 1;
        }
        proof {
            // every flag from `pos` on is greater than the new one
            assert forall|j: int| pos <= j < old_fl.len() implies seq_lt(key@, old_fl[j].long) by {
                lemma_seq_lt_total(old_fl[pos as int].long, key@);
                if old_fl[pos as int].long == key@ {
                    assert(find_long(old_fl, long@) is Some);
                }
                if j > pos {
                    lemma_seq_lt_transitive(key@, old_fl[pos as int].long, old_fl[j].long);
                }
            }
        }
        let ghost fs = flag@;
        self.flags.insert(pos, flag);
        proof {
            assert(self.flags@.map_values(|f: Flag| f@) =~= old_fl.insert(pos as int, fs));
            assert(is_insertion(old_fl, self.spec_flags(), fs));
            let nf = self.spec_flags();
            let pv = self.pairs();
            assert forall|i: int| 0 <= i < pv.len() implies #[trigger] find_long(nf, pv[i].0) is Some by {
                assert(find_long(old_fl, pv[i].0) is Some);
                let j = choose|j: int| 0 <= j < old_fl.len() && old_fl[j].long == pv[i].0;
                if j < pos {
                    assert(nf[j].long == pv[i].0);
                } else {
                    assert(nf[j + 1].long == pv[i].0);
                }
            }
            assert(nf[pos as int].long == long@);
            assert(find_long(nf, long@) == Some(pos as int)) by {
                let k = choose|k: int| 0 <= k < nf.len() && nf[k].long == long@;
                if k < pos {
                    assert(old_fl[k].long == long@);
                } else if k > pos {
                    assert(old_fl[k - 1].long == long@);
                }
            }
            if self.spec_values().dom().contains(long@) {
                let i = choose|i: int| 0 <= i < pv.len() && pv[i].0 == long@;
                assert(find_long(old_fl, pv[i].0) is Some);
            }
            assert forall|n: Seq<char>| n != long@ implies #[trigger] self.spec_option(n) == old(
                self,
            ).spec_option(n) by {
                if !self.spec_values().dom().contains(n) {
                    match find_long(old_fl, n) {
                        Some(j) => {
                            let j2 = if j < pos { j } else { j + 1 };
                            assert(nf[j2] == old_fl[j]);
                            lemma_find_long_at(old_fl, n, j);
                            lemma_find_long_at(nf, n, j2);
                        },
                        None => {
                            if find_long(nf, n) is Some {
                                let k = choose|k: int| 0 <= k < nf.len() && nf[k].long == n;
                                if k < pos {
                                    assert(old_fl[k].long == n);
                                } else if k > pos {
                                    assert(old_fl[k - 1].long == n);
                                }
                            }
                        },
                    }
                }
            }
            assert forall|i: int, j: int| 0 <= i < j < nf.len() implies seq_lt(
                nf[i].long,
                nf[j].long,
            ) by {
                if i < pos && j == pos {
                } else if i < pos && j > pos {
                    lemma_seq_lt_transitive(nf[i].long, key@, nf[j].long);
                } else if i == pos {
                } else {
                }
            }
            assert forall|i: int, j: int|
                0 <= i < nf.len() && 0 <= j < nf.len() && i != j && nf[i].short is Some implies nf[i].short
                != nf[j].short by {
                if i == pos || j == pos {
                    if nf[i].short == nf[j].short {
                        let c = nf[i].short->0;
                        let other = if i == pos { j } else { i };
                        let oo = if other < pos { other } else { other - 1 };
                        assert(old_fl[oo].short == Some(c));
                    }
                } else {
                    let oi = if i < pos { i } else { i - 1 };
                    let oj = if j < pos { j } else { j - 1 };
                    assert(nf[i] == old_fl[oi]);
                    assert(nf[j] == old_fl[oj]);
                }
            }
        }
    }

    /// Add a flag without a default value.
    pub fn add(&mut self, short: Option<char>, long: &str, takes_value: bool, help: &str)
        requires
            old(self).wf(),
            find_long(old(self).spec_flags(), long@) is None,
            short matches Some(c) ==> find_short(old(self).spec_flags(), c) is None,
        ensures
            final(self).wf(),
            final(self).spec_values() == old(self).spec_values(),
            final(self).spec_index() == old(self).spec_index(),
            flag_added(old(self).flag_state(), final(self).flag_state(), FlagSpec { short, long: long@, help: help@, takes_value, default_value: None }),
            final(self).spec_option(long@) == None::<Seq<char>>,
            forall|n: Seq<char>| n != long@ ==> #[trigger] final(self).spec_option(n) == old(self).spec_option(n),
    {
        self.add_with_default(short, long, takes_value, help, None)
    }

    /// Add a boolean flag.
    pub fn add_flag(&mut self, short: char, long: &str, help: &str)
        requires
            old(self).wf(),
            find_long(old(self).spec_flags(), long@) is None,
            find_short(old(self).spec_flags(), short) is None,
        ensures
            final(self).wf(),
            final(self).spec_values() == old(self).spec_values(),
            final(self).spec_index() == old(self).spec_index(),
            flag_added(old(self).flag_state(), final(self).flag_state(), FlagSpec {
                        short: Some(short),
                        long: long@,
                        help: help@,
                        takes_value: false,
                        default_value: None,
                    }),
            final(self).spec_option(long@) == None::<Seq<char>>,
            forall|n: Seq<char>| n != long@ ==> #[trigger] final(self).spec_option(n) == old(self).spec_option(n),
    {
        self.add(Some(short), long, false, help);
    }

    /// Add a boolean flag that is on by default.
    pub fn add_flag_enabled(&mut self, short: char, long: &str, help: &str)
        requires
            old(self).wf(),
            find_long(old(self).spec_flags(), long@) is None,
            find_short(old(self).spec_flags(), short) is None,
        ensures
            final(self).wf(),
            final(self).spec_values() == old(self).spec_values(),
            final(self).spec_index() == old(self).spec_index(),
            flag_added(old(self).flag_state(), final(self).flag_state(), FlagSpec {
                        short: Some(short),
                        long: long@,
                        help: help@,
                        takes_value: false,
                        default_value: Some("true"@),
                    }),
            final(self).spec_option(long@) == Some("true"@),
            forall|n: Seq<char>| n != long@ ==> #[trigger] final(self).spec_option(n) == old(self).spec_option(n),
    {
        self.add_with_default(Some(short), long, false, help, Some("true"));
    }

    /// Add a flag that takes a value.
    pub fn add_option(&mut self, short: char, long: &str, help: &str)
        requires
            old(self).wf(),
            find_long(old(self).spec_flags(), long@) is None,
            find_short(old(self).spec_flags(), short) is None,
        ensures
            final(self).wf(),
            final(self).spec_values() == old(self).spec_values(),
            final(self).spec_index() == old(self).spec_index(),
            flag_added(old(self).flag_state(), final(self).flag_state(), FlagSpec {
                        short: Some(short),
                        long: long@,
                        help: help@,
                        takes_value: true,
                        default_value: None,
                    }),
            final(self).spec_option(long@) == None::<Seq<char>>,
            forall|n: Seq<char>| n != long@ ==> #[trigger] final(self).spec_option(n) == old(self).spec_option(n),
    {
        self.add(Some(short), long, true, help);
    }

    /// Has no flag been given a value?
    pub fn is_empty(&self) -> (res: bool)
        requires
            self.wf(),
        ensures
            res == (self.spec_values() == Map::<Seq<char>, Seq<char>>::empty()),
    {
        if self.values.len() == 0 {
            assert(self.spec_values() =~= Map::<Seq<char>, Seq<char>>::empty());
            true
        } else {
            assert(self.spec_values().dom().contains(self.pairs()[0].0));
            false
        }
    }

    /// Has the flag with long name `name` been given a value?
    pub fn is_present(&self, name: &str) -> (res: bool)
        requires
            self.wf(),
        ensures
            res == self.spec_values().dom().contains(name@),
    {
        let key = chars_of(name);
        match self.position_value(&key) {
            Some(i) => {
                assert(self.spec_values().dom().contains(name@));
                true
            },
            None => false,
        }
    }

    /// The value of the flag named `name`: the one it was given, else its default.
    pub open spec fn spec_option(&self, name: Seq<char>) -> Option<Seq<char>> {
        if self.spec_values().dom().contains(name) {
            Some(self.spec_values()[name])
        } else {
            match find_long(self.spec_flags(), name) {
                Some(k) => self.spec_flags()[k].default_value,
                None => None,
            }
        }
    }

    /// The value of the flag named `name`: the one it was given, else its default.
    pub fn option(&self, name: &str) -> (res: Option<&str>)
        requires
            self.wf(),
        ensures
            res is Some ==> self.spec_option(name@) == Some(res->0@),
            res is None ==> self.spec_option(name@) is None,
    {
        let key = chars_of(name);
        match self.position_value(&key) {
            Some(i) => {
                proof {
                    let k = choose|j: int| 0 <= j < self.pairs().len() && self.pairs()[j].0 == name@;
                    assert(k == i);
                    assert(self.pairs()[i as int].1 == self.values@[i as int].1@);
                    assert(self.spec_values().dom().contains(name@));
                    assert(self.spec_values()[name@] == self.values@[i as int].1@);
                    assert(self.spec_option(name@) == Some(self.values@[i as int].1@));
                }
                let r = self.values[i].1.as_str();
                assert(self.spec_option(name@) == Some(r@));
                Some(r)
            },
            None => {
                match self.position_long(&key) {
                    Some(k) => {
                        let f = &self.flags[k];
                        assert(self.spec_flags()[k as int] == f@);
                        assert(find_long(self.spec_flags(), name@) == Some(k as int));
                        match &f.default_value {
                            Some(d) => {
                                assert(self.spec_option(name@) == Some(d@));
                                Some(d.as_str())
                            },
                            None => {
                                assert(self.spec_option(name@) is None);
                                None
                            },
                        }
                    },
                    None => {
                        assert(self.spec_option(name@) is None);
                        None
                    },
                }
            },
        }
    }

    /// Give flag `name` the value `value`, replacing any earlier one.
    fn set_value(&mut self, name: String, value: String)
        requires
            old(self).wf(),
            find_long(old(self).spec_flags(), name@) is Some,
        ensures
            final(self).wf(),
            final(self).spec_flags() == old(self).spec_flags(),
            final(self).spec_index() == old(self).spec_index(),
            final(self).spec_values() == old(self).spec_values().insert(name@, value@),
    {
        let key = chars_of(name.as_str());
        let ghost old_pairs = self.pairs();
        let ghost kv = (name@, value@);
        match self.position_value(&key) {
            Some(i) => {
                self.values.set(i, (name, value));
                proof {
                    assert(self.pairs() =~= old_pairs.update(i as int, kv));
                    lemma_pairs_update(old_pairs, i as int, kv);
                }
            },
            None => {
                self.values.push((name, value));
                proof {
                    assert(self.pairs() =~= old_pairs.push(kv));
                    lemma_pairs_push(old_pairs, kv);
                }
            },
        }
    }

    /// Remove the value of flag `name`, if any.
    fn remove_value(&mut self, name: &Vec<char>)
        requires
            old(self).wf(),
        ensures
            final(self).wf(),
            final(self).spec_flags() == old(self).spec_flags(),
            final(self).spec_index() == old(self).spec_index(),
            final(self).spec_values() == old(self).spec_values().remove(name@),
    {
        let ghost old_pairs = self.pairs();
        match self.position_value(name) {
            Some(i) => {
                self.values.remove(i);
                proof {
                    assert(self.pairs() =~= old_pairs.remove(i as int));
                    lemma_pairs_remove(old_pairs, i as int);
                }
            },
            None => {
                assert(self.spec_values() =~= old(self).spec_values().remove(name@));
            },
        }
    }
}

/// The outcome of handling one flag argument: the values, the position of the
/// last argument read, the position of the next argument, and the error, if any.
pub struct Step {
    pub values: Map<Seq<char>, Seq<char>>,
    pub index: int,
    pub next: int,
    pub err: Option<Seq<char>>,
}

/// Words joined by single spaces.
pub open spec fn join_space(words: Seq<Seq<char>>) -> Seq<char>
    decreases words.len(),
{
    if words.len() == 0 {
        seq![]
    } else if words.len() == 1 {
        words[0]
    } else {
        join_space(words.drop_last()) + seq![' '] + words.last()
    }
}

/// Handling a long flag `args[pos]` (one that starts with `--`).
pub open spec fn long_step(
    fl: Seq<FlagSpec>,
    vals: Map<Seq<char>, Seq<char>>,
    index: int,
    args: Seq<Seq<char>>,
    pos: int,
) -> Step {
    let arg = args[pos];
    let name = arg.skip(2);
    let neg = is_prefix(seq!['n', 'o', '-'], name);
    let actual = if neg {
        name.skip(3)
    } else {
        name
    };
    match find_long(fl, actual) {
        None => Step { values: vals, index, next: pos + 1, err: Some("Unknown flag: "@ + arg) },
        Some(k) => if fl[k].takes_value {
            if neg {
                Step {
                    values: vals,
                    index,
                    next: pos + 1,
                    err: Some(
                        "Flag --no-"@ + actual + " is not valid for option that takes a value"@,
                    ),
                }
            } else if pos + 1 < args.len() {
                Step {
                    values: vals.insert(fl[k].long, args[pos + 1]),
                    index: pos + 1,
                    next: pos + 2,
                    err: None,
                }
            } else {
                Step {
                    values: vals,
                    index,
                    next: pos + 1,
                    err: Some("Flag --"@ + name + " requires a value"@),
                }
            }
        } else if neg {
            Step { values: vals.remove(fl[k].long), index, next: pos + 1, err: None }
        } else {
            Step { values: vals.insert(fl[k].long, "true"@), index, next: pos + 1, err: None }
        },
    }
}

/// Storing the value of a short flag `c`; the flag `-` takes all the remaining arguments.
pub open spec fn short_value(
    vals: Map<Seq<char>, Seq<char>>,
    long: Seq<char>,
    c: char,
    value: Seq<char>,
    index: int,
    args: Seq<Seq<char>>,
    next: int,
) -> Step {
    if c == '-' {
        Step {
            values: vals.insert(long, join_space(seq![value] + args.skip(next))),
            index,
            next: args.len() as int,
            err: None,
        }
    } else {
        Step { values: vals.insert(long, value), index, next, err: None }
    }
}

/// Handling the short flags `chars[i..]` of argument `args[pos]`, where `chars`
/// is the argument without its leading dash.
pub open spec fn short_step(
    fl: Seq<FlagSpec>,
    vals: Map<Seq<char>, Seq<char>>,
    index: int,
    args: Seq<Seq<char>>,
    pos: int,
    chars: Seq<char>,
    i: int,
) -> Step
    decreases chars.len() - i,
{
    if i < 0 || i >= chars.len() {
        Step { values: vals, index, next: pos + 1, err: None }
    } else {
        let c = chars[i];
        match find_short(fl, c) {
            None => Step {
                values: vals,
                index,
                next: pos + 1,
                err: Some("Unknown flag: -"@.push(c)),
            },
            Some(k) => if fl[k].takes_value {
                if i + 1 < chars.len() {
                    short_value(vals, fl[k].long, c, chars.skip(i + 1), index, args, pos + 1)
                } else if pos + 1 < args.len() {
                    short_value(vals, fl[k].long, c, args[pos + 1], pos + 1, args, pos + 2)
                } else {
                    Step {
                        values: vals,
                        index,
                        next: pos + 1,
                        err: Some("Flag -"@.push(c) + " requires a value"@),
                    }
                }
            } else {
                short_step(fl, vals.insert(fl[k].long, "true"@), index, args, pos, chars, i + 1)
            },
        }
    }
}

/// Is `arg` a long flag (starts with `--` and is not `--` itself)?
pub open spec fn is_long_flag(arg: Seq<char>) -> bool {
    is_prefix(seq!['-', '-'], arg) && arg != seq!['-', '-']
}

/// The outcome of parsing a list of arguments.
pub struct Parsed {
    pub values: Map<Seq<char>, Seq<char>>,
    pub index: int,
    pub non_flag: Seq<Seq<char>>,
    pub err: Option<Seq<char>>,
}

/// Strict parsing of `args[pos..]`: stops at the first bad flag.
pub open spec fn parse_from(
    fl: Seq<FlagSpec>,
    vals: Map<Seq<char>, Seq<char>>,
    index: int,
    args: Seq<Seq<char>>,
    pos: int,
    non_flag: Seq<Seq<char>>,
) -> Parsed
    decreases args.len() - pos,
{
    if pos < 0 || pos >= args.len() {
        Parsed { values: vals, index, non_flag, err: None }
    } else {
        let arg = args[pos];
        if is_long_flag(arg) || (is_prefix(seq!['-'], arg) && arg != seq!['-']) {
            let st = if is_long_flag(arg) {
                long_step(fl, vals, pos, args, pos)
            } else {
                short_step(fl, vals, pos, args, pos, arg.skip(1), 0)
            };
            if st.err is Some || st.next <= pos || st.next > args.len() {
                Parsed { values: st.values, index: st.index, non_flag, err: st.err }
            } else {
                parse_from(fl, st.values, st.index, args, st.next, non_flag)
            }
        } else if arg == seq!['-'] {
            parse_from(fl, vals, pos, args, pos + 1, non_flag)
        } else {
            parse_from(fl, vals, pos, args, pos + 1, non_flag.push(arg))
        }
    }
}

/// The outcome of tolerant parsing: also the position of the last bad flag.
pub struct ParsedAll {
    pub values: Map<Seq<char>, Seq<char>>,
    pub index: int,
    pub non_flag: Seq<Seq<char>>,
    pub last_err: Option<int>,
}

/// Tolerant parsing of `args[pos..]`: bad flags are kept as ordinary
/// arguments, and everything after `--` too.
pub open spec fn parse_all_from(
    fl: Seq<FlagSpec>,
    vals: Map<Seq<char>, Seq<char>>,
    index: int,
    args: Seq<Seq<char>>,
    pos: int,
    non_flag: Seq<Seq<char>>,
    double_dash: bool,
    last_err: Option<int>,
) -> ParsedAll
    decreases args.len() - pos,
{
    if pos < 0 || pos >= args.len() {
        ParsedAll { values: vals, index, non_flag, last_err }
    } else {
        let arg = args[pos];
        if double_dash || arg == seq!['-', '-'] {
            parse_all_from(fl, vals, pos, args, pos + 1, non_flag.push(arg), true, last_err)
        } else if is_prefix(seq!['-', '-'], arg) || (is_prefix(seq!['-'], arg) && arg != seq!['-']) {
            let st = if is_prefix(seq!['-', '-'], arg) {
                long_step(fl, vals, pos, args, pos)
            } else {
                short_step(fl, vals, pos, args, pos, arg.skip(1), 0)
            };
            if st.err is Some {
                parse_all_from(
                    fl,
                    st.values,
                    st.index,
                    args,
                    pos + 1,
                    non_flag.push(arg),
                    false,
                    Some(st.index),
                )
            } else if st.next <= pos || st.next > args.len() {
                ParsedAll { values: st.values, index: st.index, non_flag, last_err }
            } else {
                parse_all_from(fl, st.values, st.index, args, st.next, non_flag, false, last_err)
            }
        } else {
            parse_all_from(fl, vals, pos, args, pos + 1, non_flag.push(arg), false, last_err)
        }
    }
}

/// A step never goes backwards.
proof fn lemma_short_step_next(
    fl: Seq<FlagSpec>,
    vals: Map<Seq<char>, Seq<char>>,
    index: int,
    args: Seq<Seq<char>>,
    pos: int,
    chars: Seq<char>,
    i: int,
)
    requires
        0 <= pos < args.len(),
    ensures
        short_step(fl, vals, index, args, pos, chars, i).next > pos,
        short_step(fl, vals, index, args, pos, chars, i).next <= args.len(),
        short_step(fl, vals, index, args, pos, chars, i).err is Some ==> short_step(
            fl,
            vals,
            index,
            args,
            pos,
            chars,
            i,
        ).next == pos + 1,
    decreases chars.len() - i,
{
    if 0 <= i < chars.len() {
        let c = chars[i];
        match find_short(fl, c) {
            Some(k) => if !fl[k].takes_value {
                lemma_short_step_next(fl, vals.insert(fl[k].long, "true"@), index, args, pos, chars, i + 1);
            },
            None => {},
        }
    }
}

/// A long-flag step moves forwards, by one argument on error.
proof fn lemma_long_step_next(
    fl: Seq<FlagSpec>,
    vals: Map<Seq<char>, Seq<char>>,
    index: int,
    args: Seq<Seq<char>>,
    pos: int,
)
    requires
        0 <= pos < args.len(),
    ensures
        long_step(fl, vals, index, args, pos).next > pos,
        long_step(fl, vals, index, args, pos).next <= args.len(),
        long_step(fl, vals, index, args, pos).err is Some ==> long_step(fl, vals, index, args, pos).next
            == pos + 1,
{
}

impl CommandFlags {
    /// Handle the long flag `args[pos]`.
    fn handle_long_flag(&mut self, scope: &mut Scope, args: &[String], pos: usize) -> (res: Result<
        usize,
        String,
    >)
        requires
            old(self).wf(),
            old(scope).wf(),
            pos < args@.len(),
            is_prefix(seq!['-', '-'], args@[pos as int]@),
            args@.len() < usize::MAX,
            old(self).spec_index() <= pos,
        ensures
            ({
                let st = long_step(
                    old(self).spec_flags(),
                    old(self).spec_values(),
                    old(self).spec_index() as int,
                    args_view(args@),
                    pos as int,
                );
                &&& final(self).wf()
                &&& final(self).spec_flags() == old(self).spec_flags()
                &&& final(self).spec_values() == st.values
                &&& final(self).spec_index() == st.index
                &&& match res {
                    Ok(n) => st.err is None && n == st.next && *final(scope) == *old(scope),
                    Err(m) => st.err == Some(m@) && err_recorded(
                        *old(scope),
                        *final(scope),
                        st.index,
                    ),
                }
            }),
    {
        let ghost av = args_view(args@);
        assert(av[pos as int] == args@[pos as int]@);
        let arg = chars_of(args[pos].as_str());
        let mut no: Vec<char> = Vec::new();
        no.push('n');
        no.push('o');
        no.push('-');
        let name = string_of_range(&arg, 2, arg.len());
        let name_chars = chars_of(name.as_str());
        assert(name_chars@ == arg@.skip(2));
        let neg = vec_starts_with(&name_chars, &no);
        assert(no@ == seq!['n', 'o', '-']);
        let actual = if neg {
            string_of_range(&name_chars, 3, name_chars.len())
        } else {
            string_of_range(&name_chars, 0, name_chars.len())
        };
        assert(name_chars@.subrange(0, name_chars@.len() as int) == name_chars@);
        assert(neg ==> name_chars@.subrange(3, name_chars@.len() as int) == name_chars@.skip(3));
        let actual_chars = chars_of(actual.as_str());
        match self.position_long(&actual_chars) {
            None => {
                scope.set_err_arg(self.index);
                Err(concat("Unknown flag: ", args[pos].as_str()))
            },
            Some(k) => {
                let ghost f = self.spec_flags()[k as int];
                assert(f == self.flags@[k as int]@);
                if self.flags[k].takes_value {
                    if neg {
                        scope.set_err_arg(self.index);
                        Err(
                            concat3(
                                "Flag --no-",
                                actual.as_str(),
                                " is not valid for option that takes a value",
                            ),
                        )
                    } else if pos + 1 < args.len() {
                        let long = self.flags[k].long.clone();
                        let value = args[pos + 1].clone();
                        assert(av[pos + 1] == args@[pos + 1]@);
                        self.index = pos + 1;
                        self.set_value(long, value);
                        Ok(pos + 2)
                    } else {
                        scope.set_err_arg(self.index);
                        Err(concat3("Flag --", name.as_str(), " requires a value"))
                    }
                } else if neg {
                    let long = chars_of(self.flags[k].long.as_str());
                    self.remove_value(&long);
                    Ok(pos + 1)
                } else {
                    let long = self.flags[k].long.clone();
                    self.set_value(long, to_owned_string("true"));
                    Ok(pos + 1)
                }
            },
        }
    }

    /// Store the value of short flag `c` (flag `k`); see [`short_value`].
    fn store_short_value(
        &mut self,
        k: usize,
        c: char,
        value: String,
        args: &[String],
        next: usize,
    ) -> (res: usize)
        requires
            old(self).wf(),
            k < old(self).spec_flags().len(),
            next <= args@.len(),
        ensures
            ({
                let st = short_value(
                    old(self).spec_values(),
                    old(self).spec_flags()[k as int].long,
                    c,
                    value@,
                    old(self).spec_index() as int,
                    args_view(args@),
                    next as int,
                );
                &&& final(self).wf()
                &&& final(self).spec_flags() == old(self).spec_flags()
                &&& final(self).spec_values() == st.values
                &&& final(self).spec_index() == st.index
                &&& res == st.next
            }),
    {
        let long = self.flags[k].long.clone();
        assert(long@ == self.spec_flags()[k as int].long);
        if c == '-' {
            let ghost av = args_view(args@);
            let ghost words = seq![value@] + av.skip(next as int);
            let mut joined = value;
            let mut j: usize = next;
            assert(words.take(1) == seq![value@]);
            while j < args.len()
                invariant
                    next <= j <= args@.len(),
                    words == seq![value@] + av.skip(next as int),
                    av == args_view(args@),
                    joined@ == join_space(words.take(j - next + 1)),
                decreases args.len() - j,
            {
                push_char(&mut joined, ' ');
                push_str(&mut joined, args[j].as_str());
                proof {
                    let t = words.take(j - next + 2);
                    assert(t.drop_last() == words.take(j - next + 1));
                    assert(t.last() == av[j as int]);
                    assert(av[j as int] == args@[j as int]@);
                }
                j += 1;
            }
            assert(words.take(args@.len() - next + 1) == words);
            self.set_value(long, joined);
            args.len()
        } else {
            self.set_value(long, value);
            next
        }
    }

    /// Handle the short flags in `args[pos]` from character `i` of the argument
    /// without its dash (`chars`).
    #[verifier::loop_isolation(false)]
    fn handle_short_flags(
        &mut self,
        scope: &mut Scope,
        args: &[String],
        pos: usize,
        chars: &Vec<char>,
    ) -> (res: Result<usize, String>)
        requires
            old(self).wf(),
            old(scope).wf(),
            pos < args@.len(),
            args@.len() < usize::MAX,
            old(self).spec_index() <= pos,
        ensures
            ({
                let st = short_step(
                    old(self).spec_flags(),
                    old(self).spec_values(),
                    old(self).spec_index() as int,
                    args_view(args@),
                    pos as int,
                    chars@,
                    0,
                );
                &&& final(self).wf()
                &&& final(self).spec_flags() == old(self).spec_flags()
                &&& final(self).spec_values() == st.values
                &&& final(self).spec_index() == st.index
                &&& match res {
                    Ok(n) => st.err is None && n == st.next && *final(scope) == *old(scope),
                    Err(m) => st.err == Some(m@) && err_recorded(
                        *old(scope),
                        *final(scope),
                        st.index,
                    ),
                }
            }),
    {
        let ghost fl = self.spec_flags();
        let ghost av = args_view(args@);
        let ghost target = short_step(
            fl,
            self.spec_values(),
            self.spec_index() as int,
            av,
            pos as int,
            chars@,
            0,
        );
        let mut i: usize = 0;
        while i < chars.len()
            invariant
                self.wf(),
                self.spec_flags() == fl,
                av == args_view(args@),
                pos < args@.len(),
                args@.len() < usize::MAX,
                i <= chars.len(),
                *scope == *old(scope),
                old(scope).wf(),
                self.spec_index() == old(self).spec_index(),
                old(self).spec_index() <= pos,
                short_step(fl, self.spec_values(), self.spec_index() as int, av, pos as int, chars@, i as int) == target,
            decreases chars.len() - i,
        {
            let c = chars[i];
            match self.position_short(c) {
                None => {
                    let mut m = to_owned_string("Unknown flag: -");
                    push_char(&mut m, c);
                    assert(target.values == self.spec_values());
                    assert(target.index == self.spec_index());
                    assert(target.err == Some(m@));
                    scope.set_err_arg(self.index);
                    return Err(m);
                },
                Some(k) => {
                    assert(fl[k as int] == self.flags@[k as int]@);
                    if self.flags[k].takes_value {
                        if i + 1 < chars.len() {
                            let value = string_of_range(chars, i + 1, chars.len());
                            assert(chars@.subrange(i + 1, chars@.len() as int) == chars@.skip(i + 1));
                            let n = self.store_short_value(k, c, value, args, pos + 1);
                            return Ok(n);
                        } else if pos + 1 < args.len() {
                            let value = args[pos + 1].clone();
                            assert(av[pos + 1] == args@[pos + 1]@);
                            self.index = pos + 1;
                            let n = self.store_short_value(k, c, value, args, pos + 2);
                            return Ok(n);
                        } else {
                            let mut m = to_owned_string("Flag -");
                            push_char(&mut m, c);
                            push_str(&mut m, " requires a value");
                            scope.set_err_arg(self.index);
                            return Err(m);
                        }
                    } else {
                        let long = self.flags[k].long.clone();
                        self.set_value(long, to_owned_string("true"));
                    }
                },
            }
            i += 1;
        }
        Ok(pos + 1)
    }

    /// Parse the arguments: flags get their values, the other arguments are
    /// returned in order; the first bad flag is an error, and the index of its
    /// argument is recorded in the scope.
    #[verifier::loop_isolation(false)]
    pub fn parse(&mut self, scope: &mut Scope, args: &[String]) -> (res: Result<Vec<String>, String>)
        requires
            old(self).wf(),
            old(scope).wf(),
            args@.len() < usize::MAX,
        ensures
            ({
                let p = parse_from(
                    old(self).spec_flags(),
                    old(self).spec_values(),
                    old(self).spec_index() as int,
                    args_view(args@),
                    0,
                    Seq::empty(),
                );
                &&& final(self).wf()
                &&& final(self).spec_flags() == old(self).spec_flags()
                &&& final(self).spec_values() == p.values
                &&& final(self).spec_index() == p.index
                &&& match res {
                    Ok(v) => p.err is None && args_view(v@) == p.non_flag && *final(scope) == *old(
                        scope,
                    ),
                    Err(m) => p.err == Some(m@) && err_recorded(*old(scope), *final(scope), p.index),
                }
            }),
    {
        let ghost fl = self.spec_flags();
        let ghost av = args_view(args@);
        let ghost target = parse_from(
            fl,
            self.spec_values(),
            self.spec_index() as int,
            av,
            0,
            Seq::empty(),
        );
        let mut non_flag: Vec<String> = Vec::new();
        let mut pos: usize = 0;
        assert(args_view(non_flag@) =~= Seq::<Seq<char>>::empty());
        while pos < args.len()
            invariant
                self.wf(),
                self.spec_flags() == fl,
                av == args_view(args@),
                args@.len() < usize::MAX,
                pos <= args@.len(),
                *scope == *old(scope),
                old(scope).wf(),
                parse_from(fl, self.spec_values(), self.spec_index() as int, av, pos as int, args_view(non_flag@)) == target,
            decreases args.len() - pos,
        {
            let ghost vals0 = self.spec_values();
            let ghost nf0 = args_view(non_flag@);
            let arg = chars_of(args[pos].as_str());
            assert(arg@ == av[pos as int]);
            let mut dd: Vec<char> = Vec::new();
            dd.push('-');
            dd.push('-');
            let mut d: Vec<char> = Vec::new();
            d.push('-');
            assert(dd@ == seq!['-', '-']);
            assert(d@ == seq!['-']);
            self.index = pos;
            let is_long = vec_starts_with(&arg, &dd) && !vec_eq_lit(&arg, &dd);
            let is_short = vec_starts_with(&arg, &d) && !vec_eq_lit(&arg, &d);
            if is_long {
                proof {
                    lemma_long_step_next(fl, vals0, pos as int, av, pos as int);
                }
                let r = self.handle_long_flag(scope, args, pos);
                match r {
                    Ok(n) => {
                        pos = n;
                    },
                    Err(m) => {
                        return Err(m);
                    },
                }
            } else if is_short {
                let rest = string_of_range(&arg, 1, arg.len());
                let rest_chars = chars_of(rest.as_str());
                assert(rest_chars@ == arg@.skip(1));
                proof {
                    lemma_short_step_next(fl, vals0, pos as int, av, pos as int, arg@.skip(1), 0);
                }
                let r = self.handle_short_flags(scope, args, pos, &rest_chars);
                match r {
                    Ok(n) => {
                        pos = n;
                    },
                    Err(m) => {
                        return Err(m);
                    },
                }
            } else {
                if !vec_eq_lit(&arg, &d) {
                    non_flag.push(args[pos].clone());
                    assert(args_view(non_flag@) =~= nf0.push(av[pos as int]));
                }
                pos += 1;
            }
        }
        Ok(non_flag)
    }

    /// Parse the arguments, keeping bad flags (and everything after `--`) as
    /// ordinary arguments; the index of the last bad flag is recorded in the scope.
    pub fn parse_all(&mut self, scope: &mut Scope, args: &[String]) -> (res: Vec<String>)
        requires
            old(self).wf(),
            old(scope).wf(),
            args@.len() < usize::MAX,
        ensures
            ({
                let p = parse_all_from(
                    old(self).spec_flags(),
                    old(self).spec_values(),
                    old(self).spec_index() as int,
                    args_view(args@),
                    0,
                    Seq::empty(),
                    false,
                    None,
                );
                &&& final(self).wf()
                &&& final(self).spec_flags() == old(self).spec_flags()
                &&& final(self).spec_values() == p.values
                &&& final(self).spec_index() == p.index
                &&& args_view(res@) == p.non_flag
                &&& match p.last_err {
                    None => *final(scope) == *old(scope),
                    Some(e) => err_recorded(*old(scope), *final(scope), e),
                }
            }),
    {
        let ghost fl = self.spec_flags();
        let ghost av = args_view(args@);
        let ghost target = parse_all_from(
            fl,
            self.spec_values(),
            self.spec_index() as int,
            av,
            0,
            Seq::empty(),
            false,
            None,
        );
        let mut non_flag: Vec<String> = Vec::new();
        let mut pos: usize = 0;
        let mut double_dash = false;
        let ghost mut last_err: Option<int> = None;
        assert(args_view(non_flag@) =~= Seq::<Seq<char>>::empty());
        while pos < args.len()
            invariant
                self.wf(),
                self.spec_flags() == fl,
                av == args_view(args@),
                args@.len() < usize::MAX,
                pos <= args@.len(),
                old(scope).wf(),
                match last_err {
                    None => *scope == *old(scope),
                    Some(e) => err_recorded(*old(scope), *scope, e),
                },
                parse_all_from(fl, self.spec_values(), self.spec_index() as int, av, pos as int, args_view(non_flag@), double_dash, last_err) == target,
            decreases args.len() - pos,
        {
            let ghost vals0 = self.spec_values();
            let ghost nf0 = args_view(non_flag@);
            let ghost scope0 = *scope;
            let arg = chars_of(args[pos].as_str());
            assert(arg@ == av[pos as int]);
            let mut dd: Vec<char> = Vec::new();
            dd.push('-');
            dd.push('-');
            let mut d: Vec<char> = Vec::new();
            d.push('-');
            assert(dd@ == seq!['-', '-']);
            assert(d@ == seq!['-']);
            self.index = pos;
            if double_dash || vec_eq_lit(&arg, &dd) {
                double_dash = true;
                non_flag.push(args[pos].clone());
                assert(args_view(non_flag@) =~= nf0.push(av[pos as int]));
                pos += 1;
            } else if vec_starts_with(&arg, &dd) || (vec_starts_with(&arg, &d) && !vec_eq_lit(
                &arg,
                &d,
            )) {
                let r = if vec_starts_with(&arg, &dd) {
                    proof {
                        lemma_long_step_next(fl, vals0, pos as int, av, pos as int);
                    }
                    self.handle_long_flag(scope, args, pos)
                } else {
                    let rest = string_of_range(&arg, 1, arg.len());
                    let rest_chars = chars_of(rest.as_str());
                    assert(rest_chars@ == arg@.skip(1));
                    proof {
                        lemma_short_step_next(fl, vals0, pos as int, av, pos as int, arg@.skip(1), 0);
                    }
                    self.handle_short_flags(scope, args, pos, &rest_chars)
                };
                match r {
                    Ok(n) => {
                        pos = n;
                    },
                    Err(_) => {
                        proof {
                            last_err = Some(self.spec_index() as int);
                            lemma_err_recorded_trans(*old(scope), scope0, *scope, self.spec_index() as int);
                        }
                        non_flag.push(args[pos].clone());
                        assert(args_view(non_flag@) =~= nf0.push(av[pos as int]));
                        pos += 1;
                    },
                }
            } else {
                non_flag.push(args[pos].clone());
                assert(args_view(non_flag@) =~= nf0.push(av[pos as int]));
                pos += 1;
            }
        }
        non_flag
    }
}

/// `s` padded with spaces on the right to at least `w` characters (the `{:w}` format).
pub open spec fn pad_right(s: Seq<char>, w: nat) -> Seq<char> {
    if s.len() >= w {
        s
    } else {
        s + Seq::new((w - s.len()) as nat, |i: int| ' ')
    }
}

/// The help line of one flag: `-s, ` padded to 4, `--`, the long name padded to 20,
/// a space, the help text, the default value if any, and a newline.
pub open spec fn help_line(f: FlagSpec) -> Seq<char> {
    let short = match f.short {
        Some(c) => seq!['-', c, ',', ' '],
        None => Seq::empty(),
    };
    let default = match f.default_value {
        Some(d) => " (default: "@ + d + ")"@,
        None => Seq::empty(),
    };
    pad_right(short, 4) + "--"@ + pad_right(f.long, 20) + " "@ + f.help + default + "\n"@
}

/// The help text of a list of flags: their help lines, in order.
pub open spec fn help_text(fl: Seq<FlagSpec>) -> Seq<char>
    decreases fl.len(),
{
    if fl.len() == 0 {
        Seq::empty()
    } else {
        help_text(fl.drop_last()) + help_line(fl.last())
    }
}

/// Append `text` padded with spaces to at least `w` characters.
fn push_padded(out: &mut String, text: &str, w: usize)
    ensures
        final(out)@ == old(out)@ + pad_right(text@, w as nat),
{
    push_str(out, text);
    let n = crate::text::chars_of(text).len();
    let mut k = n;
    let ghost base = old(out)@;
    while k < w
        invariant
            n == text@.len(),
            n <= k,
            k <= w || n > w,
            n >= w ==> k == n,
            out@ == base + text@ + Seq::new((k - n) as nat, |i: int| ' '),
        decreases w - k,
    {
        push_char(out, ' ');
        k += 1;
        assert(out@ =~= base + text@ + Seq::new((k - n) as nat, |i: int| ' '));
    }
    if n >= w {
        assert(k == n);
        assert(Seq::new((k - n) as nat, |i: int| ' ') =~= Seq::<char>::empty());
        assert(out@ =~= base + text@);
    } else {
        assert(k == w);
    }
    assert(out@ =~= base + pad_right(text@, w as nat));
}

impl CommandFlags {
    /// The help text: one line per flag, in the order of their long names.
    pub fn help(&self) -> (res: String)
        requires
            self.wf(),
        ensures
            res@ == help_text(self.spec_flags()),
    {
        let mut text = String::new();
        let mut i: usize = 0;
        while i < self.flags.len()
            invariant
                i <= self.flags.len(),
                text@ == help_text(self.spec_flags().take(i as int)),
            decreases self.flags.len() - i,
        {
            let f = &self.flags[i];
            let ghost fs = self.spec_flags()[i as int];
            assert(fs == f@);
            let mut short = String::new();
            match f.short {
                Some(c) => {
                    push_char(&mut short, '-');
                    push_char(&mut short, c);
                    push_char(&mut short, ',');
                    push_char(&mut short, ' ');
                },
                None => {},
            }
            assert(short@ =~= match fs.short {
                Some(c) => seq!['-', c, ',', ' '],
                None => Seq::<char>::empty(),
            });
            let ghost before = text@;
            push_padded(&mut text, short.as_str(), 4);
            push_str(&mut text, "--");
            push_padded(&mut text, f.long.as_str(), 20);
            push_str(&mut text, " ");
            push_str(&mut text, f.help.as_str());
            match &f.default_value {
                Some(d) => {
                    push_str(&mut text, " (default: ");
                    push_str(&mut text, d.as_str());
                    push_str(&mut text, ")");
                },
                None => {},
            }
            push_str(&mut text, "\n");
            proof {
                let t = self.spec_flags().take(i + 1);
                assert(t.drop_last() == self.spec_flags().take(i as int));
                assert(t.last() == fs);
                assert(text@ =~= before + help_line(fs));
            }
            i += 1;
        }
        assert(self.spec_flags().take(self.flags.len() as int) == self.spec_flags());
        text
    }
}

/// After an insertion, each flag is the inserted one or an old one.
pub proof fn lemma_insertion_members(old: Seq<FlagSpec>, new: Seq<FlagSpec>, f: FlagSpec)
    requires
        is_insertion(old, new, f),
    ensures
        new.len() == old.len() + 1,
        forall|i: int|
            0 <= i < new.len() ==> #[trigger] new[i] == f || exists|j: int|
                0 <= j < old.len() && old[j] == new[i],
{
    let pos = choose|pos: int| 0 <= pos <= old.len() && new == #[trigger] old.insert(pos, f);
    assert forall|i: int| 0 <= i < new.len() implies #[trigger] new[i] == f || exists|j: int|
        0 <= j < old.len() && old[j] == new[i] by {
        if i < pos {
            assert(old[i] == new[i]);
        } else if i > pos {
            assert(old[i - 1] == new[i]);
        }
    }
}

/// What an insertion keeps: one more flag, the one inserted among them, and
/// every flag there was.
pub proof fn lemma_insertion_keeps(old: Seq<FlagSpec>, new: Seq<FlagSpec>, f: FlagSpec)
    requires
        is_insertion(old, new, f),
    ensures
        new.len() == old.len() + 1,
        new.contains(f),
        forall|g: FlagSpec| old.contains(g) ==> #[trigger] new.contains(g),
{
    let pos = choose|pos: int| 0 <= pos <= old.len() && new == #[trigger] old.insert(pos, f);
    assert(new[pos] == f);
    assert forall|g: FlagSpec| old.contains(g) implies #[trigger] new.contains(g) by {
        let j = choose|j: int| 0 <= j < old.len() && old[j] == g;
        if j < pos {
            assert(new[j] == g);
        } else {
            assert(new[j + 1] == g);
        }
    }
}

/// Well-formed flags are sorted by long name, each short name once.
pub proof fn lemma_wf_sorted(f: CommandFlags)
    requires
        f.wf(),
    ensures
        flags_wf(f.spec_flags()),
{
}

/// Three flags sorted by long name, and nothing else, are in that order.
pub proof fn lemma_three_flags(fl: Seq<FlagSpec>, a: FlagSpec, b: FlagSpec, c: FlagSpec)
    requires
        flags_wf(fl),
        fl.len() == 3,
        fl.contains(a),
        fl.contains(b),
        fl.contains(c),
        seq_lt(a.long, b.long),
        seq_lt(b.long, c.long),
    ensures
        fl == seq![a, b, c],
{
    let ia = choose|i: int| 0 <= i < fl.len() && fl[i] == a;
    let ib = choose|i: int| 0 <= i < fl.len() && fl[i] == b;
    let ic = choose|i: int| 0 <= i < fl.len() && fl[i] == c;
    crate::text::lemma_seq_lt_total(a.long, b.long);
    crate::text::lemma_seq_lt_total(b.long, c.long);
    crate::text::lemma_seq_lt_irreflexive(a.long);
    crate::text::lemma_seq_lt_irreflexive(b.long);
    if ib < ia {
        assert(seq_lt(fl[ib].long, fl[ia].long));
    }
    if ic < ib {
        assert(seq_lt(fl[ic].long, fl[ib].long));
    }
    assert(ia != ib);
    assert(ib != ic);
    assert(fl =~= seq![a, b, c]);
}

/// Are the long names and short names of `fl` among `names` and `shorts`?
pub open spec fn names_within(fl: Seq<FlagSpec>, names: Set<Seq<char>>, shorts: Set<Option<char>>) -> bool {
    forall|i: int| 0 <= i < fl.len() ==> names.contains(#[trigger] fl[i].long) && shorts.contains(fl[i].short)
}

/// A name outside `names` (a short name outside `shorts`) is not a flag's.
pub proof fn lemma_within_absent(
    fl: Seq<FlagSpec>,
    names: Set<Seq<char>>,
    shorts: Set<Option<char>>,
    name: Seq<char>,
    c: Option<char>,
)
    requires
        names_within(fl, names, shorts),
        !names.contains(name),
        c matches Some(x) ==> !shorts.contains(Some(x)),
    ensures
        find_long(fl, name) is None,
        c matches Some(x) ==> find_short(fl, x) is None,
{
    if c is Some {
        let x = c->0;
        assert forall|i: int| 0 <= i < fl.len() implies fl[i].short != Some(x) by {
            assert(names.contains(fl[i].long));
        }
    }
}

/// Inserting a flag adds its names to the known ones.
pub proof fn lemma_within_insert(
    old: Seq<FlagSpec>,
    new: Seq<FlagSpec>,
    f: FlagSpec,
    names: Set<Seq<char>>,
    shorts: Set<Option<char>>,
)
    requires
        is_insertion(old, new, f),
        names_within(old, names, shorts),
    ensures
        names_within(new, names.insert(f.long), shorts.insert(f.short)),
{
    lemma_insertion_members(old, new, f);
    assert forall|i: int| 0 <= i < new.len() implies names.insert(f.long).contains(#[trigger] new[i].long)
        && shorts.insert(f.short).contains(new[i].short) by {
        if new[i] != f {
            let j = choose|j: int| 0 <= j < old.len() && old[j] == new[i];
            assert(names.contains(old[j].long));
        }
    }
}

/// A name that neither the old flags nor the inserted one has is still absent.
pub proof fn lemma_insertion_absent(
    old: Seq<FlagSpec>,
    new: Seq<FlagSpec>,
    f: FlagSpec,
    name: Seq<char>,
    c: char,
)
    requires
        is_insertion(old, new, f),
    ensures
        find_long(old, name) is None && f.long != name ==> find_long(new, name) is None,
        find_short(old, c) is None && f.short != Some(c) ==> find_short(new, c) is None,
{
    lemma_insertion_members(old, new, f);
    if find_long(old, name) is None && f.long != name {
        assert forall|i: int| 0 <= i < new.len() implies new[i].long != name by {
            if new[i] != f {
                let j = choose|j: int| 0 <= j < old.len() && old[j] == new[i];
            }
        }
    }
    if find_short(old, c) is None && f.short != Some(c) {
        assert forall|i: int| 0 <= i < new.len() implies new[i].short != Some(c) by {
            if new[i] != f {
                let j = choose|j: int| 0 <= j < old.len() && old[j] == new[i];
            }
        }
    }
}

impl CommandFlags {
    /// Flags with only `-?`, `--help`.
    pub fn with_help() -> (res: Self)
        ensures
            res.wf(),
            res.spec_flags() == seq![
                FlagSpec {
                    short: Some('?'),
                    long: "help"@,
                    help: "Display this help message"@,
                    takes_value: false,
                    default_value: None,
                },
            ],
            res.spec_values() == Map::<Seq<char>, Seq<char>>::empty(),
            res.spec_index() == 0,
    {
        let mut flags = CommandFlags::new();
        flags.add_flag('?', "help", "Display this help message");
        proof {
            let f = FlagSpec {
                short: Some('?'),
                long: "help"@,
                help: "Display this help message"@,
                takes_value: false,
                default_value: None,
            };
            let pos = choose|pos: int|
                0 <= pos <= 0 && flags.spec_flags() == #[trigger] Seq::<FlagSpec>::empty().insert(pos, f);
            assert(flags.spec_flags() =~= seq![f]);
        }
        flags
    }
}

impl CommandFlags {
    /// Flags with `-?`, `--help` and `-L`, `--follow-links`.
    pub fn with_follow_links() -> (res: Self)
        ensures
            res.wf(),
            res.spec_values() == Map::<Seq<char>, Seq<char>>::empty(),
            is_insertion(
                seq![
                    FlagSpec {
                        short: Some('?'),
                        long: "help"@,
                        help: "Display this help message"@,
                        takes_value: false,
                        default_value: None,
                    },
                ],
                res.spec_flags(),
                FlagSpec {
                    short: Some('L'),
                    long: "follow-links"@,
                    help: "Follow symbolic links"@,
                    takes_value: false,
                    default_value: None,
                },
            ),
    {
        let mut flags = CommandFlags::with_help();
        proof {
            reveal_strlit("help");
            reveal_strlit("follow-links");
        }
        let ghost f0 = flags.spec_flags();
        assert("help"@.len() == 4);
        assert("follow-links"@.len() == 12);
        assert(find_long(f0, "follow-links"@) is None);
        flags.add_flag('L', "follow-links", "Follow symbolic links");
        flags
    }
}

/// Two successive recordings leave only the last one.
proof fn lemma_err_recorded_trans(a: Scope, b: Scope, c: Scope, e: int)
    requires
        a.wf(),
        b == a || (exists|e0: int| err_recorded(a, b, e0)),
        err_recorded(b, c, e),
    ensures
        err_recorded(a, c, e),
{
    assert(c.frames@ =~= a.frames@.update(a.current as int, c.frames@[a.current as int]));
}

/// Equality of two character vectors.
fn vec_eq_lit(a: &Vec<char>, b: &Vec<char>) -> (res: bool)
    ensures
        res == (a@ == b@),
{
    crate::text::vec_eq(a, b)
}

/// Replacing a pair by one with the same key updates the map.
proof fn lemma_pairs_update(
    vals: Seq<(Seq<char>, Seq<char>)>,
    i: int,
    kv: (Seq<char>, Seq<char>),
)
    requires
        keys_unique(vals),
        0 <= i < vals.len(),
        vals[i].0 == kv.0,
    ensures
        keys_unique(vals.update(i, kv)),
        pairs_map(vals.update(i, kv)) == pairs_map(vals).insert(kv.0, kv.1),
{
    let nv = vals.update(i, kv);
    assert forall|k: Seq<char>| pairs_map(nv).dom().contains(k) implies pairs_map(nv)[k] == pairs_map(
        vals,
    ).insert(kv.0, kv.1)[k] by {
        let j = choose|j: int| 0 <= j < nv.len() && nv[j].0 == k;
        if k != kv.0 {
            let j0 = choose|j: int| 0 <= j < vals.len() && vals[j].0 == k;
            assert(j == j0);
        } else {
            assert(j == i);
        }
    }
    assert forall|k: Seq<char>| pairs_map(vals).insert(kv.0, kv.1).dom().contains(k) implies pairs_map(
        nv,
    ).dom().contains(k) by {
        if k != kv.0 {
            let j0 = choose|j: int| 0 <= j < vals.len() && vals[j].0 == k;
            assert(nv[j0].0 == k);
        } else {
            assert(nv[i].0 == k);
        }
    }
    assert(pairs_map(nv) =~= pairs_map(vals).insert(kv.0, kv.1));
}

/// Appending a pair with a new key inserts it in the map.
proof fn lemma_pairs_push(vals: Seq<(Seq<char>, Seq<char>)>, kv: (Seq<char>, Seq<char>))
    requires
        keys_unique(vals),
        !pairs_map(vals).dom().contains(kv.0),
    ensures
        keys_unique(vals.push(kv)),
        pairs_map(vals.push(kv)) == pairs_map(vals).insert(kv.0, kv.1),
{
    let nv = vals.push(kv);
    let n = vals.len() as int;
    assert forall|i: int, j: int| 0 <= i < nv.len() && 0 <= j < nv.len() && i != j implies nv[i].0
        != nv[j].0 by {
        if i == n && j < n {
            assert(vals[j].0 == nv[j].0);
        } else if j == n && i < n {
            assert(vals[i].0 == nv[i].0);
        }
    }
    assert forall|k: Seq<char>| pairs_map(nv).dom().contains(k) implies pairs_map(nv)[k] == pairs_map(
        vals,
    ).insert(kv.0, kv.1)[k] by {
        let j = choose|j: int| 0 <= j < nv.len() && nv[j].0 == k;
        if k != kv.0 {
            let j0 = choose|j: int| 0 <= j < vals.len() && vals[j].0 == k;
            assert(nv[j0].0 == k);
            assert(j == j0);
        } else {
            assert(nv[n].0 == k);
            assert(j == n);
        }
    }
    assert forall|k: Seq<char>| pairs_map(vals).insert(kv.0, kv.1).dom().contains(k) implies pairs_map(
        nv,
    ).dom().contains(k) by {
        if k != kv.0 {
            let j0 = choose|j: int| 0 <= j < vals.len() && vals[j].0 == k;
            assert(nv[j0].0 == k);
        } else {
            assert(nv[n].0 == k);
        }
    }
    assert(pairs_map(nv) =~= pairs_map(vals).insert(kv.0, kv.1));
}

/// Removing a pair removes its key from the map.
proof fn lemma_pairs_remove(vals: Seq<(Seq<char>, Seq<char>)>, i: int)
    requires
        keys_unique(vals),
        0 <= i < vals.len(),
    ensures
        keys_unique(vals.remove(i)),
        pairs_map(vals.remove(i)) == pairs_map(vals).remove(vals[i].0),
{
    let nv = vals.remove(i);
    let key = vals[i].0;
    assert forall|a: int, b: int| 0 <= a < nv.len() && 0 <= b < nv.len() && a != b implies nv[a].0
        != nv[b].0 by {
        let oa = if a < i { a } else { a + 1 };
        let ob = if b < i { b } else { b + 1 };
        assert(nv[a] == vals[oa]);
        assert(nv[b] == vals[ob]);
    }
    assert forall|k: Seq<char>| pairs_map(nv).dom().contains(k) implies pairs_map(vals).remove(
        key,
    ).dom().contains(k) && pairs_map(nv)[k] == pairs_map(vals)[k] by {
        let j = choose|j: int| 0 <= j < nv.len() && nv[j].0 == k;
        let oj = if j < i { j } else { j + 1 };
        assert(nv[j] == vals[oj]);
        assert(k != key);
        let j0 = choose|j: int| 0 <= j < vals.len() && vals[j].0 == k;
        assert(j0 == oj);
    }
    assert forall|k: Seq<char>| pairs_map(vals).remove(key).dom().contains(k) implies pairs_map(
        nv,
    ).dom().contains(k) by {
        let j0 = choose|j: int| 0 <= j < vals.len() && vals[j].0 == k;
        assert(j0 != i);
        let nj = if j0 < i { j0 } else { j0 - 1 };
        assert(nv[nj] == vals[j0]);
    }
    assert(pairs_map(nv) =~= pairs_map(vals).remove(key));
}

} // verus!

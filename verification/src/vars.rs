//! `vars` (and `env -l`): the variables seen from a scope, by name, each once
//! (the innermost one of a name).
use vstd::prelude::*;
use crate::expand::{value_chars, value_text};
use crate::registry::{names_of, sorted_strictly};
use crate::flags::{find_long, find_short, CommandFlags, FlagSpec};
use crate::scope::Scope;
use crate::text::{
    chars_of, lemma_seq_lt_total, lemma_seq_lt_transitive, seq_lt, str_eq, string_of,
    texts, to_owned_string, vec_lt,
};
use crate::value::SValue;

verus! {

/// Is variable `name` shown: one of scope `f` itself with `local_only`, else
/// one that a lookup from `f` finds?
pub open spec fn shown(scope: Scope, f: int, local_only: bool, name: Seq<char>) -> bool {
    if local_only {
        scope.vars_of(f).dom().contains(name)
    } else {
        scope.lookup_from(f, name) is Some
    }
}

/// The value shown for variable `name`.
pub open spec fn shown_value(scope: Scope, f: int, local_only: bool, name: Seq<char>) -> SValue {
    if local_only {
        scope.vars_of(f)[name]
    } else {
        scope.lookup_from(f, name)->0
    }
}

/// Put `name` among the names of `out`, which stay in increasing order, each
/// once.
fn insert_name(out: &mut Vec<String>, name: &str)
    requires
        sorted_strictly(names_of(old(out)@)),
    ensures
        sorted_strictly(names_of(final(out)@)),
        forall|k: Seq<char>| #[trigger] names_of(final(out)@).contains(k) <==> (names_of(old(out)@).contains(k) || k == name@),
{
    let c = chars_of(name);
    let ghost before = names_of(out@);
    let mut pos: usize = 0;
    while pos < out.len() && vec_lt(&chars_of(out[pos].as_str()), &c)
        invariant
            pos <= out.len(),
            c@ == name@,
            before == names_of(out@),
            forall|a: int| 0 <= a < pos ==> seq_lt(#[trigger] before[a], name@),
        decreases out.len() - pos,
    {
        pos += 1;
    }
    if pos < out.len() && str_eq(out[pos].as_str(), name) {
        proof {
            assert forall|k: Seq<char>| #[trigger] names_of(out@).contains(k) <==> (before.contains(k) || k == name@) by {
                if k == name@ {
                    assert(before[pos as int] == k);
                }
            }
        }
        return;
    }
    out.insert(pos, to_owned_string(name));
    proof {
        let after = names_of(out@);
        assert(after =~= before.insert(pos as int, name@));
        if pos < before.len() {
            lemma_seq_lt_total(before[pos as int], name@);
        }
        assert forall|i: int, j: int| 0 <= i < j < after.len() implies seq_lt(#[trigger] after[i], #[trigger] after[j]) by {
            if i < pos && j < pos {
                assert(seq_lt(before[i], before[j]));
            } else if i < pos && j == pos {
            } else if i < pos && j > pos {
                assert(seq_lt(before[i], before[j - 1]));
            } else if i == pos {
                if j - 1 > pos {
                    assert(seq_lt(before[pos as int], before[j - 1]));
                    lemma_seq_lt_transitive(name@, before[pos as int], before[j - 1]);
                }
            } else {
                assert(seq_lt(before[i - 1], before[j - 1]));
            }
        }
        assert forall|k: Seq<char>| #[trigger] after.contains(k) <==> (before.contains(k) || k == name@) by {
            if after.contains(k) {
                let a = choose|a: int| 0 <= a < after.len() && after[a] == k;
                if a < pos {
                    assert(before[a] == k);
                } else if a > pos {
                    assert(before[a - 1] == k);
                }
            }
            if before.contains(k) {
                let a = choose|a: int| 0 <= a < before.len() && before[a] == k;
                if a < pos {
                    assert(after[a] == k);
                } else {
                    assert(after[a + 1] == k);
                }
            }
            if k == name@ {
                assert(after[pos as int] == k);
            }
        }
    }
}

/// The names of the variables shown (see [`shown`]), in increasing order.
pub fn shown_names(scope: &Scope, f: usize, local_only: bool) -> (res: Vec<String>)
    requires
        scope.wf(),
        f < scope.frames.len(),
    ensures
        sorted_strictly(names_of(res@)),
        forall|k: Seq<char>| #[trigger] names_of(res@).contains(k) <==> shown(*scope, f as int, local_only, k),
{
    let mut out: Vec<String> = Vec::new();
    let mut g: usize = f;
    let mut more = true;
    while more
        invariant
            scope.wf(),
            f < scope.frames.len(),
            g < scope.frames.len(),
            g <= f,
            sorted_strictly(names_of(out@)),
            more ==> forall|k: Seq<char>| #[trigger] shown(*scope, f as int, local_only, k) <==> (names_of(out@).contains(k)
                || (if local_only {
                scope.vars_of(g as int).dom().contains(k)
            } else {
                scope.lookup_from(g as int, k) is Some
            })),
            !more ==> forall|k: Seq<char>| #[trigger] shown(*scope, f as int, local_only, k) <==> names_of(out@).contains(k),
            local_only && more ==> g == f,
        decreases g + if more {
            1int
        } else {
            0int
        },
    {
        let ghost before = names_of(out@);
        let vars = &scope.frames[g].vars;
        let mut i: usize = 0;
        while i < vars.len()
            invariant
                scope.wf(),
                g < scope.frames.len(),
                vars == &scope.frames@[g as int].vars,
                i <= vars.len(),
                sorted_strictly(names_of(out@)),
                forall|k: Seq<char>| #[trigger] names_of(out@).contains(k) <==> (before.contains(k) || exists|j: int|
                    0 <= j < i && vars@[j].name@ == k),
            decreases vars.len() - i,
        {
            let ghost prev = names_of(out@);
            insert_name(&mut out, vars[i].name.as_str());
            proof {
                assert forall|k: Seq<char>| #[trigger] names_of(out@).contains(k) <==> (before.contains(k) || exists|j: int|
                    0 <= j < i + 1 && vars@[j].name@ == k) by {
                    if k == vars@[i as int].name@ {
                        assert(exists|j: int| 0 <= j < i + 1 && vars@[j].name@ == k);
                    }
                    if exists|j: int| 0 <= j < i + 1 && vars@[j].name@ == k {
                        let j = choose|j: int| 0 <= j < i + 1 && vars@[j].name@ == k;
                        if j < i {
                            assert(prev.contains(k));
                        }
                    }
                }
            }
            i += 1;
        }
        proof {
            assert forall|k: Seq<char>| #[trigger] names_of(out@).contains(k) <==> (before.contains(k)
                || scope.vars_of(g as int).dom().contains(k)) by {
            }
        }
        if local_only {
            more = false;
        } else {
            match scope.frames[g].parent {
                Some(p) => {
                    assert(crate::scope::parent_before(scope.frames@[g as int], g as int));
                    g = p;
                },
                None => {
                    more = false;
                },
            }
        }
    }
    out
}

/// The lines of `vars`: `name=value` for each variable shown (see
/// [`shown`]), by name in increasing order.
pub fn vars_lines(scope: &Scope, f: usize, local_only: bool) -> (res: Vec<String>)
    requires
        scope.wf(),
        f < scope.frames.len(),
    ensures
        exists|names: Seq<Seq<char>>|
            {
                &&& sorted_strictly(names)
                &&& forall|k: Seq<char>| #[trigger] names.contains(k) <==> shown(*scope, f as int, local_only, k)
                &&& texts(res@) == Seq::new(
                    names.len(),
                    |j: int| names[j] + "="@ + value_text(shown_value(*scope, f as int, local_only, names[j])),
                )
            },
{
    let names = shown_names(scope, f, local_only);
    let ghost nv = names_of(names@);
    let mut out: Vec<String> = Vec::new();
    let mut j: usize = 0;
    while j < names.len()
        invariant
            scope.wf(),
            f < scope.frames.len(),
            nv == names_of(names@),
            j <= names.len(),
            forall|k: Seq<char>| #[trigger] nv.contains(k) <==> shown(*scope, f as int, local_only, k),
            texts(out@) == Seq::new(
                j as nat,
                |m: int| nv[m] + "="@ + value_text(shown_value(*scope, f as int, local_only, nv[m])),
            ),
        decreases names.len() - j,
    {
        let n = names[j].as_str();
        assert(nv.contains(nv[j as int]));
        let v = if local_only {
            scope.lookup_in(f, n)
        } else {
            scope.lookup_from_frame(f, n)
        };
        assert(shown(*scope, f as int, local_only, nv[j as int]));
        let mut line = chars_of(n);
        line.push('=');
        proof {
            reveal_strlit("=");
        }
        let ghost head = line@;
        assert(head =~= nv[j as int] + "="@);
        match v {
            Some(val) => {
                assert(val@ == shown_value(*scope, f as int, local_only, nv[j as int]));
                let t = value_chars(&val);
                crate::text::vec_extend(&mut line, &t);
            },
            None => {},
        }
        assert(line@ =~= nv[j as int] + "="@ + value_text(shown_value(*scope, f as int, local_only, nv[j as int])));
        let ghost before = texts(out@);
        out.push(string_of(&line));
        proof {
            reveal_strlit("=");
            assert(texts(out@) =~= before.push(line@));
            assert(texts(out@) =~= Seq::new(
                (j + 1) as nat,
                |m: int| nv[m] + "="@ + value_text(shown_value(*scope, f as int, local_only, nv[m])),
            ));
        }
        j += 1;
    }
    out
}

/// The `vars` (and `env`) command and its flags.
pub struct Vars {
    pub flags: CommandFlags,
}

/// The usage of `vars`, before its options.
pub const VARS_USAGE: &'static str = "Usage: vars [-l]
Display variables visible in the current scope.

Options:
";

impl Vars {
    /// The command with its flags: `-?`, `--help` and `-l`, `--local`.
    pub fn new() -> (res: Self)
        ensures
            res.flags.wf(),
            res.flags.spec_flags().len() == 2,
            res.flags.spec_flags().contains(FlagSpec { short: Some('?'), long: "help"@, help: "Display this help message"@, takes_value: false, default_value: None }),
            res.flags.spec_flags().contains(FlagSpec { short: Some('l'), long: "local"@, help: "Display inner, local scope variables only"@, takes_value: false, default_value: None }),
            res.flags.spec_values() == Map::<Seq<char>, Seq<char>>::empty(),
    {
        let mut flags = CommandFlags::with_help();
        proof { assert(flags.spec_flags()[0] == FlagSpec { short: Some('?'), long: "help"@, help: "Display this help message"@, takes_value: false, default_value: None }); }
        proof {
            reveal_strlit("help");
            reveal_strlit("local");
            assert("help"@.len() == 4);
            assert("local"@.len() == 5);
            assert(flags.spec_flags()[0].long == "help"@);
            assert(find_long(flags.spec_flags(), "local"@) is None);
            assert(find_short(flags.spec_flags(), 'l') is None);
        }
        let ghost pre_flags_0 = flags.spec_flags();
        flags.add_flag('l', "local", "Display inner, local scope variables only");
        proof { crate::flags::lemma_insertion_keeps(pre_flags_0, flags.spec_flags(), FlagSpec { short: Some('l'), long: "local"@, help: "Display inner, local scope variables only"@, takes_value: false, default_value: None }); }
        Vars { flags }
    }
}

} // verus!

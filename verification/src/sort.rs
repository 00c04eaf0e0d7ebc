//! The `sort` command: lines in the order of `str`, optionally without repeats
//! and reversed. Lines are compared character by character, as `str` compares
//! (code points, which is the order of their UTF-8 bytes).
use vstd::prelude::*;
use vstd::seq_lib::to_multiset_build;
use vstd::seq_lib::to_multiset_insert;
use crate::expand::strings_view;
use crate::flags::{CommandFlags, FlagSpec, find_long, lemma_insertion_absent};
use crate::text::{chars_of, lemma_seq_lt_irreflexive, lemma_seq_lt_total, lemma_seq_lt_transitive, seq_lt, string_of, vec_eq, vec_lt};

verus! {

/// Is `s` in order: no line is less than one before it?
pub open spec fn sorted_lines(s: Seq<Seq<char>>) -> bool {
    forall|i: int, j: int| 0 <= i < j < s.len() ==> !seq_lt(#[trigger] s[j], #[trigger] s[i])
}

/// Is `s` in strictly increasing order (and so without repeats)?
pub open spec fn strictly_sorted(s: Seq<Seq<char>>) -> bool {
    forall|i: int, j: int| 0 <= i < j < s.len() ==> seq_lt(#[trigger] s[i], #[trigger] s[j])
}

/// The texts of a sequence of character vectors.
pub open spec fn chars_view(v: Seq<Vec<char>>) -> Seq<Seq<char>> {
    v.map_values(|c: Vec<char>| c@)
}

/// The `sort` command and its flags.
pub struct Sort {
    pub flags: CommandFlags,
}

/// Insert `line` into the ordered `out`, after the lines that are not greater.
fn insert_in_order(out: &mut Vec<Vec<char>>, line: Vec<char>)
    requires
        sorted_lines(chars_view(old(out)@)),
    ensures
        sorted_lines(chars_view(final(out)@)),
        chars_view(final(out)@).to_multiset() == chars_view(old(out)@).to_multiset().insert(line@),
{
    let ghost s = chars_view(out@);
    let mut pos: usize = 0;
    while pos < out.len() && !vec_lt(&line, &out[pos])
        invariant
            pos <= out.len(),
            s == chars_view(out@),
            forall|k: int| 0 <= k < pos ==> !seq_lt(line@, #[trigger] s[k]),
        decreases out.len() - pos,
    {
        pos += 1;
    }
    let ghost x = line@;
    out.insert(pos, line);
    proof {
        let t = chars_view(out@);
        assert(t =~= s.insert(pos as int, x));
        to_multiset_insert(s, pos as int, x);
        assert forall|k: int| pos <= k < s.len() implies !seq_lt(#[trigger] s[k], x) by {
            assert(seq_lt(x, s[pos as int]));
            if seq_lt(s[k], x) {
                lemma_seq_lt_transitive(s[k], x, s[pos as int]);
                if k == pos {
                    lemma_seq_lt_irreflexive(s[k]);
                }
            }
        }
        assert forall|i: int, j: int| 0 <= i < j < t.len() implies !seq_lt(#[trigger] t[j], #[trigger] t[i]) by {
            if j < pos {
                assert(t[i] == s[i] && t[j] == s[j]);
            } else if j == pos {
                assert(t[i] == s[i]);
            } else if i == pos {
                assert(t[j] == s[j - 1]);
            } else if i < pos {
                assert(t[i] == s[i] && t[j] == s[j - 1]);
            } else {
                assert(t[i] == s[i - 1] && t[j] == s[j - 1]);
            }
        }
    }
}

/// Insert `line` into the strictly ordered `out`, unless it is there already.
fn insert_new_in_order(out: &mut Vec<Vec<char>>, line: Vec<char>)
    requires
        strictly_sorted(chars_view(old(out)@)),
    ensures
        strictly_sorted(chars_view(final(out)@)),
        forall|y: Seq<char>| #[trigger] chars_view(final(out)@).contains(y) <==> (chars_view(old(out)@).contains(y)
            || y == line@),
{
    let ghost s = chars_view(out@);
    let mut pos: usize = 0;
    while pos < out.len() && vec_lt(&out[pos], &line)
        invariant
            pos <= out.len(),
            s == chars_view(out@),
            forall|k: int| 0 <= k < pos ==> seq_lt(#[trigger] s[k], line@),
        decreases out.len() - pos,
    {
        pos += 1;
    }
    if pos < out.len() && vec_eq(&out[pos], &line) {
        proof {
            assert(s[pos as int] == line@);
        }
        return;
    }
    let ghost x = line@;
    out.insert(pos, line);
    proof {
        let t = chars_view(out@);
        assert(t =~= s.insert(pos as int, x));
        assert forall|k: int| pos <= k < s.len() implies seq_lt(x, #[trigger] s[k]) by {
            lemma_seq_lt_total(x, s[pos as int]);
            if k > pos {
                lemma_seq_lt_transitive(x, s[pos as int], s[k]);
            }
        }
        assert forall|i: int, j: int| 0 <= i < j < t.len() implies seq_lt(#[trigger] t[i], #[trigger] t[j]) by {
            if j < pos {
                assert(t[i] == s[i] && t[j] == s[j]);
            } else if j == pos {
                assert(t[i] == s[i]);
            } else if i == pos {
                assert(t[j] == s[j - 1]);
            } else if i < pos {
                assert(t[i] == s[i] && t[j] == s[j - 1]);
            } else {
                assert(t[i] == s[i - 1] && t[j] == s[j - 1]);
            }
        }
        assert forall|y: Seq<char>| #[trigger] t.contains(y) <==> (s.contains(y) || y == x) by {
            if t.contains(y) {
                let k = choose|k: int| 0 <= k < t.len() && t[k] == y;
                if k < pos {
                    assert(s[k] == y);
                } else if k > pos {
                    assert(s[k - 1] == y);
                }
            }
            if s.contains(y) {
                let k = choose|k: int| 0 <= k < s.len() && s[k] == y;
                if k < pos {
                    assert(t[k] == y);
                } else {
                    assert(t[k + 1] == y);
                }
            }
            if y == x {
                assert(t[pos as int] == y);
            }
        }
    }
}


/// The lines as they come out: reversed if `reverse`.
pub open spec fn oriented(lines: Seq<Seq<char>>, reverse: bool) -> Seq<Seq<char>> {
    if reverse {
        lines.reverse()
    } else {
        lines
    }
}

impl Sort {
    /// The command with its flags: `--unique`, `--reverse`, `--numeric-sort`.
    pub fn new() -> (res: Self)
        ensures
            res.flags.wf(),
            res.flags.spec_flags().len() == 4,
            res.flags.spec_flags().contains(FlagSpec { short: Some('?'), long: "help"@, help: "Display this help message"@, takes_value: false, default_value: None }),
            res.flags.spec_flags().contains(FlagSpec { short: Some('u'), long: "unique"@, help: "Output only the first of an equal run"@, takes_value: false, default_value: None }),
            res.flags.spec_flags().contains(FlagSpec { short: Some('r'), long: "reverse"@, help: "Reverse the result of comparisons"@, takes_value: false, default_value: None }),
            res.flags.spec_flags().contains(FlagSpec { short: Some('n'), long: "numeric-sort"@, help: "Compare according to string numerical value"@, takes_value: false, default_value: None }),
    {
        let mut flags = CommandFlags::with_help();
        proof { assert(flags.spec_flags()[0] == FlagSpec { short: Some('?'), long: "help"@, help: "Display this help message"@, takes_value: false, default_value: None }); }
        proof {
            reveal_strlit("help");
            reveal_strlit("unique");
            reveal_strlit("reverse");
            reveal_strlit("numeric-sort");
        }
        let ghost f0 = flags.spec_flags();
        assert("help"@.len() == 4);
        assert("unique"@.len() == 6);
        assert("reverse"@.len() == 7);
        assert("numeric-sort"@.len() == 12);
        assert(find_long(f0, "unique"@) is None);
        assert(find_long(f0, "reverse"@) is None);
        assert(find_long(f0, "numeric-sort"@) is None);
        let ghost pre_flags_0 = flags.spec_flags();
        flags.add_flag('u', "unique", "Output only the first of an equal run");
        proof { crate::flags::lemma_insertion_keeps(pre_flags_0, flags.spec_flags(), FlagSpec { short: Some('u'), long: "unique"@, help: "Output only the first of an equal run"@, takes_value: false, default_value: None }); }
        proof {
            let f = FlagSpec {
                short: Some('u'),
                long: "unique"@,
                help: "Output only the first of an equal run"@,
                takes_value: false,
                default_value: None,
            };
            lemma_insertion_absent(f0, flags.spec_flags(), f, "reverse"@, 'r');
            lemma_insertion_absent(f0, flags.spec_flags(), f, "numeric-sort"@, 'n');
        }
        let ghost f1 = flags.spec_flags();
        let ghost pre_flags_1 = flags.spec_flags();
        flags.add_flag('r', "reverse", "Reverse the result of comparisons");
        proof { crate::flags::lemma_insertion_keeps(pre_flags_1, flags.spec_flags(), FlagSpec { short: Some('r'), long: "reverse"@, help: "Reverse the result of comparisons"@, takes_value: false, default_value: None }); }
        proof {
            let f = FlagSpec {
                short: Some('r'),
                long: "reverse"@,
                help: "Reverse the result of comparisons"@,
                takes_value: false,
                default_value: None,
            };
            lemma_insertion_absent(f1, flags.spec_flags(), f, "numeric-sort"@, 'n');
        }
        let ghost pre_flags_2 = flags.spec_flags();
        flags.add_flag('n', "numeric-sort", "Compare according to string numerical value");
        proof { crate::flags::lemma_insertion_keeps(pre_flags_2, flags.spec_flags(), FlagSpec { short: Some('n'), long: "numeric-sort"@, help: "Compare according to string numerical value"@, takes_value: false, default_value: None }); }
        Sort { flags }
    }

    /// The lines in order (each distinct line once, if `unique`), reversed if
    /// `reverse`. (Numeric order compares the lines as floating-point numbers,
    /// which this library does not hold.)
    pub fn sort_lines(&self, lines: Vec<String>, unique: bool, reverse: bool) -> (res: Vec<String>)
        ensures
            ({
                let out = oriented(strings_view(res@), reverse);
                &&& unique ==> strictly_sorted(out) && forall|y: Seq<char>| #[trigger] out.contains(y)
                    <==> strings_view(lines@).contains(y)
                &&& !unique ==> sorted_lines(out) && out.to_multiset() == strings_view(lines@).to_multiset()
            }),
    {
        let ghost input = strings_view(lines@);
        let mut keys: Vec<Vec<char>> = Vec::new();
        let mut i: usize = 0;
        proof {
            assert(chars_view(keys@) =~= input.take(0));
        }
        while i < lines.len()
            invariant
                i <= lines.len(),
                input == strings_view(lines@),
                unique ==> strictly_sorted(chars_view(keys@)) && forall|y: Seq<char>| #[trigger] chars_view(
                    keys@,
                ).contains(y) <==> input.take(i as int).contains(y),
                !unique ==> sorted_lines(chars_view(keys@)) && chars_view(keys@).to_multiset() == input.take(
                    i as int,
                ).to_multiset(),
            decreases lines.len() - i,
        {
            let line = chars_of(lines[i].as_str());
            proof {
                assert(input.take(i + 1) =~= input.take(i as int).push(line@));
                to_multiset_build(input.take(i as int), line@);
                let a = input.take(i + 1);
                let b = input.take(i as int);
                assert forall|y: Seq<char>| #[trigger] a.contains(y) <==> (b.contains(y) || y == line@) by {
                    if a.contains(y) {
                        let k = choose|k: int| 0 <= k < a.len() && a[k] == y;
                        if k < i {
                            assert(b[k] == y);
                        }
                    }
                    if b.contains(y) {
                        let k = choose|k: int| 0 <= k < b.len() && b[k] == y;
                        assert(a[k] == y);
                    }
                    if y == line@ {
                        assert(a[i as int] == y);
                    }
                }
            }
            if unique {
                insert_new_in_order(&mut keys, line);
            } else {
                insert_in_order(&mut keys, line);
            }
            i += 1;
        }
        proof {
            assert(input.take(lines.len() as int) =~= input);
        }
        let mut res: Vec<String> = Vec::new();
        let n = keys.len();
        let mut k: usize = 0;
        while k < n
            invariant
                n == keys.len(),
                k <= n,
                reverse ==> strings_view(res@) =~= chars_view(keys@).subrange(n - k, n as int).reverse(),
                !reverse ==> strings_view(res@) =~= chars_view(keys@).take(k as int),
            decreases n - k,
        {
            let j = if reverse { n - 1 - k } else { k };
            let ghost before = strings_view(res@);
            res.push(string_of(&keys[j]));
            proof {
                let cv = chars_view(keys@);
                assert(strings_view(res@) =~= before.push(cv[j as int]));
                if reverse {
                    assert(cv.subrange(n - k - 1, n as int).reverse() =~= cv.subrange(n - k, n as int).reverse().push(
                        cv[j as int],
                    ));
                } else {
                    assert(cv.take(k + 1) =~= cv.take(k as int).push(cv[j as int]));
                }
            }
            k += 1;
        }
        proof {
            assert(chars_view(keys@).take(n as int) =~= chars_view(keys@));
            assert(chars_view(keys@).subrange(0, n as int) =~= chars_view(keys@));
            if reverse {
                assert(strings_view(res@).reverse() =~= chars_view(keys@));
            }
        }
        res
    }
}

} // verus!

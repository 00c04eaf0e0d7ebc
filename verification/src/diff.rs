//! `diff`: a line by line comparison of two texts, shown in unified form (the
//! hunks of changed lines, each with a header that says where it starts in
//! each text and how many lines it takes of each; no context lines).
use vstd::prelude::*;
use crate::edit_graph::{changes_only_differences, dest_pos, diff, edit_script, src_pos, steps_match, valid_script, Edit};
use crate::flags::{find_long, find_short, help_text, CommandFlags, FlagSpec};
use crate::expand::{append_strings, strings_view};
use crate::text::{chars_of, concat, concat3, nat_to_decimal, push_str, replace_all, str_replace, string_of, to_owned_string, u64_to_string};

verus! {

/// Where the run of changed lines that includes step `k` ends: the first kept
/// step from `k` on, or the end of the script.
pub open spec fn run_end(s: Seq<Edit>, k: int) -> int
    decreases s.len() - k,
{
    if k < 0 || k >= s.len() || s[k] == Edit::Keep {
        k
    } else {
        run_end(s, k + 1)
    }
}

/// A run of changes ends at a kept step or the end of the script, and takes
/// only changed steps.
pub proof fn lemma_run_end(s: Seq<Edit>, k: int)
    requires
        0 <= k <= s.len(),
    ensures
        k <= run_end(s, k) <= s.len(),
        run_end(s, k) == s.len() || s[run_end(s, k)] == Edit::Keep,
        forall|m: int| k <= m < run_end(s, k) ==> s[m] != Edit::Keep,
    decreases s.len() - k,
{
    if k < s.len() && s[k] != Edit::Keep {
        lemma_run_end(s, k + 1);
    }
}

/// The line shown for changed step `k`: `-` and the line left out of `src`,
/// or `+` and the line put in from `dest`.
pub open spec fn edit_line(s: Seq<Edit>, src: Seq<Seq<char>>, dest: Seq<Seq<char>>, k: int) -> Seq<char> {
    if s[k] == Edit::Delete {
        "-"@ + src[src_pos(s.take(k)) as int]
    } else {
        "+"@ + dest[dest_pos(s.take(k)) as int]
    }
}

/// The lines shown for steps `k` up to `e`.
pub open spec fn run_lines(s: Seq<Edit>, src: Seq<Seq<char>>, dest: Seq<Seq<char>>, k: int, e: int) -> Seq<Seq<char>>
    decreases e - k,
{
    if e <= k {
        Seq::empty()
    } else {
        run_lines(s, src, dest, k, e - 1).push(edit_line(s, src, dest, e - 1))
    }
}

/// The line number a hunk header shows for a hunk that starts after `pos`
/// lines and takes `count` of them: the next line, or, for a hunk that takes
/// none, the line before it.
pub open spec fn hunk_start(pos: nat, count: nat) -> nat {
    (if count == 0 && pos > 0 {
        (pos - 1) as nat
    } else {
        pos
    }) + 1
}

/// `@@ -a,b +c,d @@`.
pub open spec fn hunk_header(a: nat, b: nat, c: nat, d: nat) -> Seq<char> {
    "@@ -"@ + nat_to_decimal(a) + ","@ + nat_to_decimal(b) + " +"@ + nat_to_decimal(c) + ","@ + nat_to_decimal(d)
        + " @@"@
}

/// The hunks of the changes from step `k` on: for each run of changed steps,
/// a header with where it starts in each text and how many lines it takes
/// of each, then its lines.
pub open spec fn hunks_from(s: Seq<Edit>, src: Seq<Seq<char>>, dest: Seq<Seq<char>>, k: int) -> Seq<Seq<char>>
    decreases s.len() - k,
{
    if k < 0 || k >= s.len() {
        Seq::empty()
    } else if s[k] == Edit::Keep {
        hunks_from(s, src, dest, k + 1)
    } else {
        let e = run_end(s, k + 1);
        proof {
            lemma_run_end(s, k + 1);
        }
        let dels = src_pos(s.subrange(k, e));
        let ins = dest_pos(s.subrange(k, e));
        let p = src_pos(s.take(k));
        let q = dest_pos(s.take(k));
        seq![hunk_header(hunk_start(p, dels), dels, hunk_start(q, ins), ins)] + run_lines(s, src, dest, k, e)
            + hunks_from(s, src, dest, e)
    }
}

/// Does a run of changes start at step `m`, after a kept line?
pub open spec fn change_after_keep(s: Seq<Edit>, m: int) -> bool {
    0 < m < s.len() && s[m] != Edit::Keep && s[m - 1] == Edit::Keep
}

/// Does a run of changes come after a kept line? Only then are the names of
/// the texts shown.
pub open spec fn names_shown(s: Seq<Edit>) -> bool {
    exists|m: int| #[trigger] change_after_keep(s, m)
}

/// The unified view of script `s` from `src` (named `src_name`) to `dest`
/// (named `dest_name`): the names, with `\` written `/`, when a run of
/// changes comes after a kept line; then the hunks.
pub open spec fn unified_text(
    s: Seq<Edit>,
    src: Seq<Seq<char>>,
    dest: Seq<Seq<char>>,
    src_name: Seq<char>,
    dest_name: Seq<char>,
) -> Seq<Seq<char>> {
    (if names_shown(s) {
        seq!["--- "@ + str_replace(src_name, "\\"@, "/"@), "+++ "@ + str_replace(dest_name, "\\"@, "/"@)]
    } else {
        Seq::empty()
    }) + hunks_from(s, src, dest, 0)
}

proof fn lemma_pos_step(s: Seq<Edit>, k: int)
    requires
        0 <= k < s.len(),
    ensures
        src_pos(s.take(k + 1)) == src_pos(s.take(k)) + if s[k] == Edit::Insert {
            0int
        } else {
            1int
        },
        dest_pos(s.take(k + 1)) == dest_pos(s.take(k)) + if s[k] == Edit::Delete {
            0int
        } else {
            1int
        },
{
    assert(s.take(k + 1).drop_last() =~= s.take(k));
}

proof fn lemma_sub_step(s: Seq<Edit>, k0: int, k: int)
    requires
        0 <= k0 <= k < s.len(),
    ensures
        src_pos(s.subrange(k0, k + 1)) == src_pos(s.subrange(k0, k)) + if s[k] == Edit::Insert {
            0int
        } else {
            1int
        },
        dest_pos(s.subrange(k0, k + 1)) == dest_pos(s.subrange(k0, k)) + if s[k] == Edit::Delete {
            0int
        } else {
            1int
        },
{
    assert(s.subrange(k0, k + 1).drop_last() =~= s.subrange(k0, k));
}

proof fn lemma_steps_match_prefix(s: Seq<Edit>, src: Seq<Seq<char>>, dest: Seq<Seq<char>>, k: int)
    requires
        steps_match(s, src, dest),
        0 <= k <= s.len(),
    ensures
        steps_match(s.take(k), src, dest),
    decreases s.len() - k,
{
    if k < s.len() {
        lemma_steps_match_prefix(s, src, dest, k + 1);
        assert(s.take(k + 1).drop_last() =~= s.take(k));
    } else {
        assert(s.take(k) =~= s);
    }
}

/// The changed step `k` takes a line that each text has.
proof fn lemma_edit_in_range(s: Seq<Edit>, src: Seq<Seq<char>>, dest: Seq<Seq<char>>, k: int)
    requires
        steps_match(s, src, dest),
        0 <= k < s.len(),
    ensures
        s[k] != Edit::Insert ==> src_pos(s.take(k)) < src.len(),
        s[k] != Edit::Delete ==> dest_pos(s.take(k)) < dest.len(),
{
    lemma_steps_match_prefix(s, src, dest, k + 1);
    lemma_pos_step(s, k);
}

/// `-` or `+`, then `line`.
fn marked(mark: &str, line: &String) -> (res: String)
    ensures
        res@ == mark@ + line@,
{
    concat(mark, line.as_str())
}

/// `@@ -a,b +c,d @@`, executable.
fn header_line(a: usize, b: usize, c: usize, d: usize) -> (res: String)
    ensures
        res@ == hunk_header(a as nat, b as nat, c as nat, d as nat),
{
    let mut h = to_owned_string("@@ -");
    push_str(&mut h, u64_to_string(a as u64).as_str());
    push_str(&mut h, ",");
    push_str(&mut h, u64_to_string(b as u64).as_str());
    push_str(&mut h, " +");
    push_str(&mut h, u64_to_string(c as u64).as_str());
    push_str(&mut h, ",");
    push_str(&mut h, u64_to_string(d as u64).as_str());
    push_str(&mut h, " @@");
    h
}

/// A name with `\\` written `/`.
fn slashed(name: &str) -> (res: String)
    ensures
        res@ == str_replace(name@, "\\"@, "/"@),
{
    let r = replace_all(&chars_of(name), &chars_of("\\"), &chars_of("/"));
    string_of(&r)
}

/// The unified view of an edit script from `src` (named `src_name`) to
/// `dest` (named `dest_name`): the lines that `diff` prints.
pub fn unified(script: &Vec<Edit>, src: &Vec<String>, dest: &Vec<String>, src_name: &str, dest_name: &str) -> (res: Vec<String>)
    requires
        valid_script(script@, strings_view(src@), strings_view(dest@)),
        src.len() < usize::MAX,
        dest.len() < usize::MAX,
    ensures
        strings_view(res@) == unified_text(script@, strings_view(src@), strings_view(dest@), src_name@, dest_name@),
{
    let ghost s = script@;
    let ghost sv = strings_view(src@);
    let ghost dv = strings_view(dest@);
    let n = script.len();
    let mut body: Vec<String> = Vec::new();
    let mut names = false;
    let mut k: usize = 0;
    let mut p: usize = 0;
    let mut q: usize = 0;
    assert(s.take(0) =~= Seq::<Edit>::empty());
    while k < n
        invariant
            s == script@,
            sv == strings_view(src@),
            dv == strings_view(dest@),
            n == s.len(),
            valid_script(s, sv, dv),
            src.len() < usize::MAX,
            dest.len() < usize::MAX,
            k <= n,
            p == src_pos(s.take(k as int)),
            q == dest_pos(s.take(k as int)),
            strings_view(body@) + hunks_from(s, sv, dv, k as int) == hunks_from(s, sv, dv, 0),
            k == 0 || k == n || s[k - 1] == Edit::Keep || s[k as int] == Edit::Keep,
            names == (exists|m: int| m < k && #[trigger] change_after_keep(s, m)),
        decreases n - k,
    {
        proof {
            lemma_pos_step(s, k as int);
            lemma_edit_in_range(s, sv, dv, k as int);
            lemma_steps_match_prefix(s, sv, dv, k as int + 1);
        }
        if matches!(script[k], Edit::Keep) {
            p += 1;
            q += 1;
            k += 1;
            proof {
                assert forall|m: int| m < k && #[trigger] change_after_keep(s, m) implies m < k - 1 by {
                }
            }
        } else {
            let ghost k0 = k as int;
            let ghost e = run_end(s, k0 + 1);
            proof {
                lemma_run_end(s, k0 + 1);
                if k0 > 0 {
                    assert(s[k0 - 1] == Edit::Keep);
                }
            }
            let k_start = k;
            let start_p = p;
            let ghost sp = p as int;
            let ghost sq = q as int;
            let start_q = q;
            let mut dels: usize = 0;
            let mut ins: usize = 0;
            let mut lines: Vec<String> = Vec::new();
            assert(s.subrange(k0, k0) =~= Seq::<Edit>::empty());
            while k < n && !matches!(script[k], Edit::Keep)
                invariant
                    s == script@,
                    sv == strings_view(src@),
                    dv == strings_view(dest@),
                    n == s.len(),
                    valid_script(s, sv, dv),
                    src.len() < usize::MAX,
                    dest.len() < usize::MAX,
                    0 <= k0 < n,
                    s[k0] != Edit::Keep,
                    e == run_end(s, k0 + 1),
                    k0 + 1 <= e <= n,
                    e == n || s[e] == Edit::Keep,
                    forall|m: int| k0 + 1 <= m < e ==> s[m] != Edit::Keep,
                    k0 <= k <= e,
                    p == src_pos(s.take(k as int)),
                    q == dest_pos(s.take(k as int)),
                    dels == src_pos(s.subrange(k0, k as int)),
                    ins == dest_pos(s.subrange(k0, k as int)),
                    sp >= 0,
                    sq >= 0,
                    p == sp + dels,
                    q == sq + ins,
                    strings_view(lines@) == run_lines(s, sv, dv, k0, k as int),
                decreases n - k,
            {
                proof {
                    lemma_pos_step(s, k as int);
                    lemma_sub_step(s, k0, k as int);
                    lemma_edit_in_range(s, sv, dv, k as int);
                }
                if matches!(script[k], Edit::Delete) {
                    lines.push(marked("-", &src[p]));
                    p += 1;
                    dels += 1;
                } else {
                    lines.push(marked("+", &dest[q]));
                    q += 1;
                    ins += 1;
                }
                k += 1;
                proof {
                    assert(strings_view(lines@) =~= run_lines(s, sv, dv, k0, k - 1).push(edit_line(s, sv, dv, k - 1)));
                }
            }
            proof {
                if k < e {
                    assert(s[k as int] != Edit::Keep);
                }
                assert(k == e);
            }
            let a = if dels == 0 && start_p > 0 {
                start_p - 1
            } else {
                start_p
            } + 1;
            let c = if ins == 0 && start_q > 0 {
                start_q - 1
            } else {
                start_q
            } + 1;
            let ghost before = strings_view(body@);
            body.push(header_line(a, dels, c, ins));
            assert(strings_view(body@) =~= before.push(hunk_header(a as nat, dels as nat, c as nat, ins as nat)));
            append_strings(&mut body, &lines);
            proof {
                assert(hunks_from(s, sv, dv, k0) == seq![hunk_header(a as nat, dels as nat, c as nat, ins as nat)]
                    + run_lines(s, sv, dv, k0, e) + hunks_from(s, sv, dv, e));
                assert(strings_view(body@) + hunks_from(s, sv, dv, k as int) =~= before + hunks_from(s, sv, dv, k0));
                if k0 > 0 {
                    assert(k0 < k && change_after_keep(s, k0));
                }
                assert forall|m: int| m < k && #[trigger] change_after_keep(s, m) implies m <= k0 by {
                }
            }
            if k_start > 0 {
                names = true;
            }
        }
    }
    let mut out: Vec<String> = Vec::new();
    if names {
        out.push(concat("--- ", slashed(src_name).as_str()));
        out.push(concat("+++ ", slashed(dest_name).as_str()));
    }
    append_strings(&mut out, &body);
    proof {
        assert(hunks_from(s, sv, dv, n as int) =~= Seq::<Seq<char>>::empty());
        assert(strings_view(body@) + Seq::<Seq<char>>::empty() =~= strings_view(body@));
        assert(names == names_shown(s));
        assert(strings_view(out@) =~= unified_text(s, sv, dv, src_name@, dest_name@));
    }
    out
}

proof fn lemma_all_keep(s: Seq<Edit>, t: Seq<Seq<char>>)
    requires
        steps_match(s, t, t),
        changes_only_differences(s, t, t),
    ensures
        src_pos(s) == s.len(),
        dest_pos(s) == s.len(),
        forall|k: int| 0 <= k < s.len() ==> s[k] == Edit::Keep,
    decreases s.len(),
{
    if s.len() > 0 {
        lemma_all_keep(s.drop_last(), t);
        assert forall|k: int| 0 <= k < s.len() implies s[k] == Edit::Keep by {
            if k < s.len() - 1 {
                assert(s.drop_last()[k] == s[k]);
            }
        }
    }
}

proof fn lemma_no_hunks(s: Seq<Edit>, src: Seq<Seq<char>>, dest: Seq<Seq<char>>, k: int)
    requires
        0 <= k <= s.len(),
        forall|m: int| 0 <= m < s.len() ==> s[m] == Edit::Keep,
    ensures
        hunks_from(s, src, dest, k) == Seq::<Seq<char>>::empty(),
    decreases s.len() - k,
{
    if k < s.len() {
        lemma_no_hunks(s, src, dest, k + 1);
    }
}

/// A text compared with itself shows nothing: a script that changes lines
/// only where the two texts differ keeps every line of a text compared with
/// itself, and has no hunk.
pub proof fn lemma_same_text_unchanged(s: Seq<Edit>, t: Seq<Seq<char>>, src_name: Seq<char>, dest_name: Seq<char>)
    requires
        valid_script(s, t, t),
        changes_only_differences(s, t, t),
    ensures
        forall|k: int| 0 <= k < s.len() ==> s[k] == Edit::Keep,
        unified_text(s, t, t, src_name, dest_name) == Seq::<Seq<char>>::empty(),
{
    lemma_all_keep(s, t);
    lemma_no_hunks(s, t, t, 0);
    assert(!names_shown(s)) by {
        assert forall|m: int| !#[trigger] change_after_keep(s, m) by {
            if 0 < m < s.len() {
                assert(s[m] == Edit::Keep);
            }
        }
    }
    assert(unified_text(s, t, t, src_name, dest_name) =~= Seq::<Seq<char>>::empty());
}

/// The `diff` command and its flags.
pub struct Diff {
    pub flags: CommandFlags,
}

impl Diff {
    /// The command with its flags: `-?`, `--help` and `-o`, `--color`.
    pub fn new() -> (res: Self)
        ensures
            res.flags.wf(),
            res.flags.spec_flags().len() == 2,
            res.flags.spec_flags().contains(FlagSpec { short: Some('?'), long: "help"@, help: "Display this help message"@, takes_value: false, default_value: None }),
            res.flags.spec_flags().contains(FlagSpec { short: Some('o'), long: "color"@, help: "Color output"@, takes_value: false, default_value: None }),
            res.flags.spec_values() == Map::<Seq<char>, Seq<char>>::empty(),
    {
        let mut flags = CommandFlags::with_help();
        proof { assert(flags.spec_flags()[0] == FlagSpec { short: Some('?'), long: "help"@, help: "Display this help message"@, takes_value: false, default_value: None }); }
        proof {
            reveal_strlit("help");
            reveal_strlit("color");
            assert("help"@.len() == 4);
            assert("color"@.len() == 5);
            assert(flags.spec_flags()[0].long == "help"@);
            assert(find_long(flags.spec_flags(), "color"@) is None);
            assert(find_short(flags.spec_flags(), 'o') is None);
        }
        let ghost pre_flags_0 = flags.spec_flags();
        flags.add_flag('o', "color", "Color output");
        proof { crate::flags::lemma_insertion_keeps(pre_flags_0, flags.spec_flags(), FlagSpec { short: Some('o'), long: "color"@, help: "Color output"@, takes_value: false, default_value: None }); }
        Diff { flags }
    }

    /// The help of the command, called `name`.
    pub fn help_text(&self, name: &str) -> (res: String)
        requires
            self.flags.wf(),
        ensures
            res@ == "Usage: "@ + name@ + " [OPTION]... FILE1 FILE2\nCompare FILES line by line.\n\nOptions:\n"@
                + help_text(self.flags.spec_flags()),
    {
        let mut t = concat3("Usage: ", name, " [OPTION]... FILE1 FILE2\nCompare FILES line by line.\n\nOptions:\n");
        let h = self.flags.help();
        push_str(&mut t, h.as_str());
        t
    }
}

/// `diff` compares exactly two files.
pub fn check_file_count(names: &Vec<String>) -> (res: Result<(), String>)
    ensures
        res is Ok <==> names.len() == 2,
        res matches Err(e) ==> e@ == "diff requires exactly two filenames"@,
{
    if names.len() != 2 {
        return Err(to_owned_string("diff requires exactly two filenames"));
    }
    Ok(())
}

/// The lines that `diff` prints for texts `src` (named `src_name`) and
/// `dest` (named `dest_name`): the unified view of the edit script that the
/// search found, a script from `src` to `dest` that changes lines only where
/// the two differ.
pub fn compare(src: &Vec<String>, dest: &Vec<String>, src_name: &str, dest_name: &str) -> (res: Vec<String>)
    requires
        (src.len() + 1) * (dest.len() + 1) <= usize::MAX,
    ensures
        exists|s: Seq<Edit>|
            {
                &&& valid_script(s, strings_view(src@), strings_view(dest@))
                &&& changes_only_differences(s, strings_view(src@), strings_view(dest@))
                &&& strings_view(res@) == unified_text(s, strings_view(src@), strings_view(dest@), src_name@, dest_name@)
            },
{
    proof {
        assert(src.len() < usize::MAX && dest.len() < usize::MAX) by (nonlinear_arith)
            requires
                (src.len() + 1) * (dest.len() + 1) <= usize::MAX,
        ;
    }
    let grid = diff(src, dest);
    let script = edit_script(&grid, src, dest);
    unified(&script, src, dest, src_name, dest_name)
}

} // verus!

//! Custom completions: suggestions for what is being typed, from a
//! configuration of commands, their subcommands and the subcommands' options.
//!
//! The input is split into words; the first word is looked up among the
//! commands, the second among the subcommands of the command it names, and
//! the others among the options. A word that names an element exactly moves
//! down to that element; the elements that the word only begins are
//! suggested, each after the words matched so far. When the words run out at
//! a level after some match, every element of that level is suggested.
use vstd::prelude::*;
use crate::flags::join_space;
use crate::text::{chars_of, is_whitespace, lead_end, spec_is_whitespace, spec_trim, string_of, trail_start, vec_eq, vec_extend, vec_starts_with, is_prefix};

verus! {

/// An element of the configuration, as its YAML holds it: its `name` (for a
/// mapping) or its text (for a plain string), and its lists of commands,
/// subcommands and options.
pub struct CompletionNode {
    pub name: Option<String>,
    pub text: Option<String>,
    pub commands: Option<Vec<CompletionNode>>,
    pub subcommands: Option<Vec<CompletionNode>>,
    pub options: Option<Vec<CompletionNode>>,
}

/// The text of an element: its name without surrounding white space, else its
/// text, else nothing.
pub open spec fn elem_text(e: CompletionNode) -> Seq<char> {
    match e.name {
        Some(n) => spec_trim(n@),
        None => match e.text {
            Some(t) => t@,
            None => Seq::empty(),
        },
    }
}

/// The list of an element at a level: commands (0), subcommands (1) or
/// options (2).
pub open spec fn level_list(e: CompletionNode, i: int) -> Option<Seq<CompletionNode>> {
    let l = if i == 0 {
        e.commands
    } else if i == 1 {
        e.subcommands
    } else {
        e.options
    };
    match l {
        Some(v) => Some(v@),
        None => None,
    }
}

/// A suggestion: the words matched so far, then the element.
pub open spec fn suggestion(prefix: Seq<Seq<char>>, name: Seq<char>) -> Seq<char> {
    if prefix.len() == 0 {
        name
    } else {
        join_space(prefix) + seq![' '] + name
    }
}

/// One pass of word `part` over `elems` from position `k`: the suggestions of
/// the elements that it begins, up to the first element that it names, and
/// that element's position.
pub open spec fn scan_from(elems: Seq<CompletionNode>, part: Seq<char>, prefix: Seq<Seq<char>>, k: int) -> (Seq<Seq<char>>, Option<int>)
    decreases elems.len() - k,
{
    if k < 0 || k >= elems.len() {
        (Seq::empty(), None)
    } else {
        let name = elem_text(elems[k]);
        if part == name {
            (Seq::empty(), Some(k))
        } else {
            let rest = scan_from(elems, part, prefix, k + 1);
            (if is_prefix(part, name) {
                seq![suggestion(prefix, name)] + rest.0
            } else {
                rest.0
            }, rest.1)
        }
    }
}

/// The state of the search: the element reached, the words matched, the
/// suggestions made.
pub struct Search {
    pub current: CompletionNode,
    pub prefix: Seq<Seq<char>>,
    pub found: Seq<Seq<char>>,
}

/// The passes of the words from `j` over `elems` (the list of level `i`),
/// starting with word `part`: one pass below the last level, and one for each
/// remaining word at the last level.
pub open spec fn passes(parts: Seq<Seq<char>>, elems: Seq<CompletionNode>, j: int, part: Seq<char>, st: Search) -> Search
    decreases parts.len() - j,
{
    let (s, m) = scan_from(elems, part, st.prefix, 0);
    let next = match m {
        Some(k) => Search { current: elems[k], prefix: st.prefix.push(part), found: st.found + s },
        None => Search { current: st.current, prefix: st.prefix, found: st.found + s },
    };
    if j < 3 || j < 0 || j >= parts.len() {
        next
    } else {
        passes(parts, elems, j + 1, parts[j], next)
    }
}

/// The search through the levels from `i`.
pub open spec fn levels_from(parts: Seq<Seq<char>>, i: int, st: Search) -> Search
    decreases 3 - i,
{
    if i < 0 || i >= 3 {
        st
    } else {
        match level_list(st.current, i) {
            None => levels_from(parts, i + 1, st),
            Some(elems) => if i >= parts.len() {
                Search {
                    current: st.current,
                    prefix: st.prefix,
                    found: st.found + if st.prefix.len() > 0 {
                        elems.map_values(|e: CompletionNode| suggestion(st.prefix, elem_text(e)))
                    } else {
                        Seq::empty()
                    },
                }
            } else {
                levels_from(parts, i + 1, passes(parts, elems, i + 1, parts[i], st))
            },
        }
    }
}

/// The words of `s`, split at white space (as `str::split_whitespace`).
pub open spec fn words_of(s: Seq<char>, i: int, cur: Seq<char>) -> Seq<Seq<char>>
    decreases s.len() - i,
{
    if i < 0 || i >= s.len() {
        if cur.len() > 0 {
            seq![cur]
        } else {
            Seq::empty()
        }
    } else if spec_is_whitespace(s[i]) {
        (if cur.len() > 0 {
            seq![cur]
        } else {
            Seq::empty()
        }) + words_of(s, i + 1, Seq::empty())
    } else {
        words_of(s, i + 1, cur.push(s[i]))
    }
}

/// The suggestions for `input` (see the module's comment).
pub open spec fn spec_suggest(config: CompletionNode, input: Seq<char>) -> Seq<Seq<char>> {
    levels_from(words_of(input, 0, Seq::empty()), 0, Search { current: config, prefix: Seq::empty(), found: Seq::empty() }).found
}

/// The texts of character vectors.
pub open spec fn vecs_view(v: Seq<Vec<char>>) -> Seq<Seq<char>> {
    v.map_values(|c: Vec<char>| c@)
}

/// The text of an element (see [`elem_text`]).
fn text_of(e: &CompletionNode) -> (res: Vec<char>)
    ensures
        res@ == elem_text(*e),
{
    match &e.name {
        Some(n) => crate::text::trim(&chars_of(n.as_str())),
        None => match &e.text {
            Some(t) => chars_of(t.as_str()),
            None => Vec::new(),
        },
    }
}

/// The list of an element at level `i` (see [`level_list`]).
fn list_at(e: &CompletionNode, i: usize) -> (res: Option<&Vec<CompletionNode>>)
    ensures
        match level_list(*e, i as int) {
            Some(l) => res matches Some(v) && v@ == l,
            None => res is None,
        },
{
    let l = if i == 0 {
        &e.commands
    } else if i == 1 {
        &e.subcommands
    } else {
        &e.options
    };
    match l {
        Some(v) => Some(v),
        None => None,
    }
}

/// The words joined by spaces.
fn join_words(words: &Vec<Vec<char>>) -> (res: Vec<char>)
    ensures
        res@ == join_space(vecs_view(words@)),
{
    let mut out: Vec<char> = Vec::new();
    let mut i: usize = 0;
    while i < words.len()
        invariant
            i <= words.len(),
            out@ == join_space(vecs_view(words@).take(i as int)),
        decreases words.len() - i,
    {
        let ghost w = vecs_view(words@);
        proof {
            assert(w.take(i + 1).drop_last() =~= w.take(i as int));
        }
        if i > 0 {
            out.push(' ');
        }
        vec_extend(&mut out, &words[i]);
        proof {
            if i == 0 {
                assert(out@ =~= w.take(1)[0]);
            } else {
                assert(out@ =~= join_space(w.take(i as int)) + seq![' '] + w.take(i + 1).last());
            }
        }
        i += 1;
    }
    proof {
        assert(vecs_view(words@).take(words.len() as int) =~= vecs_view(words@));
    }
    out
}

/// A suggestion (see [`suggestion`]).
fn make_suggestion(prefix: &Vec<Vec<char>>, name: &Vec<char>) -> (res: Vec<char>)
    ensures
        res@ == suggestion(vecs_view(prefix@), name@),
{
    if prefix.len() == 0 {
        name.clone()
    } else {
        let mut t = join_words(prefix);
        t.push(' ');
        vec_extend(&mut t, name);
        t
    }
}

/// One pass of `part` over `elems` (see [`scan_from`]), its suggestions
/// appended to `found`.
fn scan(elems: &Vec<CompletionNode>, part: &Vec<char>, prefix: &Vec<Vec<char>>, found: &mut Vec<Vec<char>>) -> (res: Option<usize>)
    ensures
        ({
            let r = scan_from(elems@, part@, vecs_view(prefix@), 0);
            &&& vecs_view(final(found)@) == vecs_view(old(found)@) + r.0
            &&& (res matches Some(x) ==> r.1 == Some(x as int) && x < elems@.len())
            &&& (res is None ==> r.1 is None)
        }),
{
    let ghost pv = vecs_view(prefix@);
    let mut k: usize = 0;
    while k < elems.len()
        invariant
            k <= elems.len(),
            pv == vecs_view(prefix@),
            scan_from(elems@, part@, pv, 0) == ({
                let r = scan_from(elems@, part@, pv, k as int);
                (vecs_view(found@).skip(vecs_view(old(found)@).len() as int) + r.0, r.1)
            }),
            vecs_view(old(found)@).len() <= vecs_view(found@).len(),
            vecs_view(found@).take(vecs_view(old(found)@).len() as int) == vecs_view(old(found)@),
        decreases elems.len() - k,
    {
        let name = text_of(&elems[k]);
        if vec_eq(part, &name) {
            proof {
                assert(vecs_view(found@) =~= vecs_view(old(found)@) + vecs_view(found@).skip(
                    vecs_view(old(found)@).len() as int,
                ));
            }
            return Some(k);
        }
        if vec_starts_with(&name, part) {
            let sg = make_suggestion(prefix, &name);
            let ghost before = vecs_view(found@);
            found.push(sg);
            proof {
                let n0 = vecs_view(old(found)@).len() as int;
                assert(vecs_view(found@) =~= before.push(sg@));
                assert(vecs_view(found@).skip(n0) =~= before.skip(n0).push(sg@));
                assert(vecs_view(found@).take(n0) =~= before.take(n0));
                let r = scan_from(elems@, part@, pv, k + 1);
                assert(before.skip(n0).push(sg@) + r.0 =~= before.skip(n0) + (seq![sg@] + r.0));
            }
        }
        k += 1;
    }
    proof {
        assert(vecs_view(found@) =~= vecs_view(old(found)@) + vecs_view(found@).skip(
            vecs_view(old(found)@).len() as int,
        ));
        assert(vecs_view(found@).skip(vecs_view(old(found)@).len() as int) + Seq::<Seq<char>>::empty() =~= vecs_view(
            found@,
        ).skip(vecs_view(old(found)@).len() as int));
    }
    None
}

/// The words of `s` (see [`words_of`]).
fn split_words(s: &Vec<char>) -> (res: Vec<Vec<char>>)
    ensures
        vecs_view(res@) == words_of(s@, 0, Seq::empty()),
{
    let mut out: Vec<Vec<char>> = Vec::new();
    let mut cur: Vec<char> = Vec::new();
    let mut i: usize = 0;
    while i < s.len()
        invariant
            i <= s.len(),
            vecs_view(out@) + words_of(s@, i as int, cur@) == words_of(s@, 0, Seq::empty()),
        decreases s.len() - i,
    {
        let c = s[i];
        if is_whitespace(c) {
            let ghost before = vecs_view(out@);
            let ghost cv = cur@;
            if cur.len() > 0 {
                out.push(cur);
                proof {
                    assert(vecs_view(out@) =~= before.push(cv));
                    assert(before.push(cv) + words_of(s@, i + 1, Seq::empty()) =~= before + (seq![cv] + words_of(
                        s@,
                        i + 1,
                        Seq::empty(),
                    )));
                }
            } else {
                proof {
                    assert(Seq::<Seq<char>>::empty() + words_of(s@, i + 1, Seq::empty()) =~= words_of(
                        s@,
                        i + 1,
                        Seq::empty(),
                    ));
                }
            }
            cur = Vec::new();
        } else {
            cur.push(c);
        }
        i += 1;
    }
    if cur.len() > 0 {
        let ghost before = vecs_view(out@);
        let ghost cv = cur@;
        out.push(cur);
        proof {
            assert(vecs_view(out@) =~= before.push(cv));
            assert(before + seq![cv] =~= before.push(cv));
        }
    } else {
        proof {
            assert(vecs_view(out@) + Seq::<Seq<char>>::empty() =~= vecs_view(out@));
        }
    }
    out
}

/// The suggestions for `input` (see [`spec_suggest`]).
pub fn suggest(config: &CompletionNode, input: &str) -> (res: Vec<String>)
    ensures
        crate::expand::strings_view(res@) == spec_suggest(*config, input@),
{
    let parts = split_words(&chars_of(input));
    let ghost pv = vecs_view(parts@);
    let mut current: &CompletionNode = config;
    let mut prefix: Vec<Vec<char>> = Vec::new();
    let mut found: Vec<Vec<char>> = Vec::new();
    let ghost target = spec_suggest(*config, input@);
    let mut i: usize = 0;
    proof {
        assert(vecs_view(prefix@) =~= Seq::<Seq<char>>::empty());
        assert(vecs_view(found@) =~= Seq::<Seq<char>>::empty());
    }
    while i < 3
        invariant
            i <= 3,
            pv == vecs_view(parts@),
            pv == words_of(input@, 0, Seq::empty()),
            target == spec_suggest(*config, input@),
            target == levels_from(pv, i as int, Search { current: *current, prefix: vecs_view(prefix@), found: vecs_view(found@) }).found,
        decreases 3 - i,
    {
        match list_at(current, i) {
            None => {},
            Some(elems) => {
                if i >= parts.len() {
                    if prefix.len() > 0 {
                        let mut k: usize = 0;
                        let ghost base = vecs_view(found@);
                        while k < elems.len()
                            invariant
                                k <= elems.len(),
                                vecs_view(found@) == base + elems@.take(k as int).map_values(
                                    |e: CompletionNode| suggestion(vecs_view(prefix@), elem_text(e)),
                                ),
                            decreases elems.len() - k,
                        {
                            let name = text_of(&elems[k]);
                            let sg = make_suggestion(&prefix, &name);
                            let ghost before = vecs_view(found@);
                            found.push(sg);
                            proof {
                                assert(vecs_view(found@) =~= before.push(sg@));
                                assert(elems@.take(k + 1).map_values(|e: CompletionNode| suggestion(vecs_view(prefix@), elem_text(e)))
                                    =~= elems@.take(k as int).map_values(|e: CompletionNode| suggestion(vecs_view(prefix@), elem_text(e))).push(sg@));
                            }
                            k += 1;
                        }
                        proof {
                            assert(elems@.take(elems.len() as int) =~= elems@);
                        }
                    } else {
                        proof {
                            assert(vecs_view(found@) + Seq::<Seq<char>>::empty() =~= vecs_view(found@));
                        }
                    }
                    return texts_of(&found);
                }
                // the passes over this level's list
                let mut part: &Vec<char> = &parts[i];
                let mut j: usize = i + 1;
                loop
                    invariant_except_break
                        target == levels_from(pv, i + 1, passes(pv, elems@, j as int, part@, Search {
                            current: *current,
                            prefix: vecs_view(prefix@),
                            found: vecs_view(found@),
                        })).found,
                    invariant
                        pv == vecs_view(parts@),
                        i < 3,
                        i < parts.len(),
                        i + 1 <= j,
                        j <= parts.len() + 1,
                        j <= i + 1 || j <= parts.len(),
                    ensures
                        target == levels_from(pv, i + 1, Search {
                            current: *current,
                            prefix: vecs_view(prefix@),
                            found: vecs_view(found@),
                        }).found,
                    decreases parts.len() + 2 - j,
                {
                    let ghost st0 = Search { current: *current, prefix: vecs_view(prefix@), found: vecs_view(found@) };
                    let m = scan(elems, part, &prefix, &mut found);
                    match m {
                        Some(k) => {
                            current = &elems[k];
                            let ghost before = vecs_view(prefix@);
                            prefix.push(part.clone());
                            proof {
                                assert(vecs_view(prefix@) =~= before.push(part@));
                            }
                        },
                        None => {},
                    }
                    let ghost st1 = Search { current: *current, prefix: vecs_view(prefix@), found: vecs_view(found@) };
                    proof {
                        let (sg, mm) = scan_from(elems@, part@, st0.prefix, 0);
                        let next = match mm {
                            Some(k) => Search { current: elems@[k], prefix: st0.prefix.push(part@), found: st0.found + sg },
                            None => Search { current: st0.current, prefix: st0.prefix, found: st0.found + sg },
                        };
                        assert(next.current == st1.current);
                        assert(next.prefix =~= st1.prefix);
                        assert(next.found =~= st1.found);
                        assert(next == st1);
                    }
                    if j < 3 || j >= parts.len() {
                        break;
                    }
                    part = &parts[j];
                    j += 1;
                }
            },
        }
        i += 1;
    }
    texts_of(&found)
}

/// The vectors as strings.
fn texts_of(v: &Vec<Vec<char>>) -> (res: Vec<String>)
    ensures
        crate::expand::strings_view(res@) == vecs_view(v@),
{
    let mut out: Vec<String> = Vec::new();
    let mut i: usize = 0;
    while i < v.len()
        invariant
            i <= v.len(),
            crate::expand::strings_view(out@) == vecs_view(v@).take(i as int),
        decreases v.len() - i,
    {
        let ghost before = crate::expand::strings_view(out@);
        out.push(string_of(&v[i]));
        proof {
            assert(crate::expand::strings_view(out@) =~= before.push(v@[i as int]@));
            assert(vecs_view(v@).take(i + 1) =~= vecs_view(v@).take(i as int).push(v@[i as int]@));
        }
        i += 1;
    }
    proof {
        assert(vecs_view(v@).take(v.len() as int) =~= vecs_view(v@));
    }
    out
}

} // verus!

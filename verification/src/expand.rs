//! Variable expansion in words: `$NAME`, `${NAME}` and `${NAME/regex/replacement}`.
//!
//! A reference to a defined variable is replaced by its value; with a regex and a
//! replacement, every match of the regex in the value is replaced, `\1`, `\2`, ...
//! in the replacement standing for the groups of the match. A reference to an
//! undefined variable becomes `$NAME`.
use vstd::prelude::*;
use crate::scope::Scope;
use crate::text::{
    chars_of, i64_to_chars, int_to_decimal, u64_to_chars, replace_all, str_replace, string_of, vec_extend,
    string_of_range, vec_range,
};
use crate::value::{spec_value_from_text, value_from_text, SValue, Value};
use crate::grep::regex_compile;
use crate::pager::{char_width, utf8_len};

verus! {

/// The spans of the successive matches of the regex `pattern` in `text` (crate
/// `regex`, `Regex::captures_iter`): for each match, group 0 (the whole match)
/// and then groups 1, 2, ..., each as a pair of byte offsets into the UTF-8 text,
/// or `None` when a group did not take part in the match.
pub uninterp spec fn regex_captures(pattern: Seq<char>, text: Seq<char>) -> Seq<Seq<Option<(int, int)>>>;

/// The character position of byte offset `b` in the UTF-8 form of `text`: the
/// first position, from `k` on, whose prefix takes at least `b` bytes, or the length.
pub open spec fn char_at_byte(text: Seq<char>, b: int, k: int) -> int
    decreases text.len() - k,
{
    if k >= text.len() || utf8_len(text.take(k)) >= b {
        k
    } else {
        char_at_byte(text, b, k + 1)
    }
}

/// The character position of byte offset `b` in `text`.
pub open spec fn char_index(text: Seq<char>, b: int) -> int {
    char_at_byte(text, b, 0)
}

/// Where a match starts in `text`, as a character position (group 0).
pub open spec fn span_start(text: Seq<char>, m: Seq<Option<(int, int)>>) -> int {
    if m.len() > 0 {
        match m[0] {
            Some((a, _)) => char_index(text, a),
            None => 0,
        }
    } else {
        0
    }
}

/// Where a match ends in `text`, as a character position (group 0).
pub open spec fn span_end(text: Seq<char>, m: Seq<Option<(int, int)>>) -> int {
    if m.len() > 0 {
        match m[0] {
            Some((_, b)) => char_index(text, b),
            None => 0,
        }
    } else {
        0
    }
}

/// The text from character position `a` to `b`, empty when `b` comes first.
pub open spec fn cut(text: Seq<char>, a: int, b: int) -> Seq<char> {
    if a <= b {
        text.subrange(a, b)
    } else {
        Seq::empty()
    }
}

/// Piece `i` of a split: the text after match `i - 1` (or from the start) and
/// before match `i` (or to the end).
pub open spec fn split_piece(text: Seq<char>, ms: Seq<Seq<Option<(int, int)>>>, i: int) -> Seq<char> {
    let a = if i == 0 { 0 } else { span_end(text, ms[i - 1]) };
    let b = if i < ms.len() { span_start(text, ms[i]) } else { text.len() as int };
    cut(text, a, b)
}

/// The pieces of `text` between the matches `ms`: one more than the matches.
pub open spec fn split_pieces(text: Seq<char>, ms: Seq<Seq<Option<(int, int)>>>) -> Seq<Seq<char>> {
    Seq::new(ms.len() + 1, |i: int| split_piece(text, ms, i))
}

/// The text of a group with byte span `g`.
pub open spec fn group_text(text: Seq<char>, g: Option<(int, int)>) -> Option<Seq<char>> {
    match g {
        Some((a, b)) => Some(cut(text, char_index(text, a), char_index(text, b))),
        None => None,
    }
}

/// Groups 1, 2, ... of a match, as texts.
pub open spec fn match_groups(text: Seq<char>, m: Seq<Option<(int, int)>>) -> Seq<Option<Seq<char>>> {
    if m.len() == 0 {
        Seq::empty()
    } else {
        m.skip(1).map_values(|g: Option<(int, int)>| group_text(text, g))
    }
}

/// Groups 1, 2, ... of each match, as texts.
pub open spec fn split_groups(text: Seq<char>, ms: Seq<Seq<Option<(int, int)>>>) -> Seq<Seq<Option<Seq<char>>>> {
    ms.map_values(|m: Seq<Option<(int, int)>>| match_groups(text, m))
}

/// What the regex `pattern` splits `text` into: the pieces between the matches,
/// and for each match its groups 1, 2, ...; `None` when the pattern is not a valid regex.
pub open spec fn regex_split(
    pattern: Seq<char>,
    text: Seq<char>,
) -> Option<(Seq<Seq<char>>, Seq<Seq<Option<Seq<char>>>>)> {
    match regex_compile(pattern) {
        Err(_) => None,
        Ok(_) => {
            let ms = regex_captures(pattern, text);
            Some((split_pieces(text, ms), split_groups(text, ms)))
        },
    }
}

/// The view of a byte span.
pub open spec fn span_view(g: Option<(usize, usize)>) -> Option<(int, int)> {
    match g {
        Some((a, b)) => Some((a as int, b as int)),
        None => None,
    }
}

/// The view of the spans of all matches.
pub open spec fn spans_view(v: Seq<Vec<Option<(usize, usize)>>>) -> Seq<Seq<Option<(int, int)>>> {
    v.map_values(|m: Vec<Option<(usize, usize)>>| m@.map_values(|g: Option<(usize, usize)>| span_view(g)))
}

/// The byte spans of the matches of the regex `pattern` in `text` (crate `regex`:
/// `Regex::new`, then `Regex::captures_iter`, each match's groups by
/// `Captures::iter`, each group by `Match::start` and `Match::end`). `None` exactly
/// when `Regex::new` refuses the pattern; otherwise the contract names the spans.
#[verifier::external_body]
pub(crate) fn regex_capture_spans(pattern: &str, text: &str) -> (res: Option<Vec<Vec<Option<(usize, usize)>>>>)
    ensures
        res is None <==> regex_compile(pattern@) is Err,
        res matches Some(v) ==> spans_view(v@) == regex_captures(pattern@, text@),
{
    let re = regex::Regex::new(pattern).ok()?;
    Some(
        re.captures_iter(text)
            .map(|caps| caps.iter().map(|g| g.map(|m| (m.start(), m.end()))).collect())
            .collect(),
    )
}

/// The pieces and groups of a regex split (see [`regex_split`]).
pub struct RegexSplit {
    pub pieces: Vec<String>,
    pub captures: Vec<Vec<Option<String>>>,
}

/// The view of a list of strings.
pub open spec fn strings_view(v: Seq<String>) -> Seq<Seq<char>> {
    v.map_values(|s: String| s@)
}

/// Append copies of the strings of `more` to `out`.
pub fn append_strings(out: &mut Vec<String>, more: &Vec<String>)
    ensures
        strings_view(final(out)@) == strings_view(old(out)@) + strings_view(more@),
{
    let ghost start = strings_view(out@);
    let mut i: usize = 0;
    while i < more.len()
        invariant
            i <= more.len(),
            strings_view(out@) == start + strings_view(more@).take(i as int),
        decreases more.len() - i,
    {
        let ghost before = strings_view(out@);
        out.push(crate::text::to_owned_string(more[i].as_str()));
        proof {
            assert(strings_view(out@) =~= before.push(more@[i as int]@));
            assert(strings_view(more@).take(i + 1) =~= strings_view(more@).take(i as int).push(more@[i as int]@));
        }
        i += 1;
    }
    proof {
        assert(strings_view(more@).take(more.len() as int) =~= strings_view(more@));
    }
}

/// The view of the groups of one match.
pub open spec fn groups_view(v: Seq<Option<String>>) -> Seq<Option<Seq<char>>> {
    v.map_values(|g: Option<String>| match g {
        Some(s) => Some(s@),
        None => None,
    })
}

/// The view of the groups of all matches.
pub open spec fn captures_view(v: Seq<Vec<Option<String>>>) -> Seq<Seq<Option<Seq<char>>>> {
    v.map_values(|g: Vec<Option<String>>| groups_view(g@))
}

/// The character position of byte offset `b` in the UTF-8 form of `text` (see
/// [`char_index`]).
pub fn char_index_exec(text: &Vec<char>, b: usize) -> (res: usize)
    ensures
        res == char_index(text@, b as int),
        res <= text.len(),
{
    let mut k: usize = 0;
    let mut acc: u128 = 0;
    while k < text.len() && acc < b as u128
        invariant
            k <= text.len(),
            acc == utf8_len(text@.take(k as int)),
            acc <= 4 * k,
            char_at_byte(text@, b as int, 0) == char_at_byte(text@, b as int, k as int),
        decreases text.len() - k,
    {
        proof {
            let t = text@.take(k as int + 1);
            assert(t.drop_last() =~= text@.take(k as int));
            assert(t.last() == text@[k as int]);
        }
        acc = acc + char_width(text[k]) as u128;
        k += 1;
    }
    k
}

/// Cut `text` at the matches with byte spans `spans` (group 0 first in each):
/// the pieces between the matches and the text of groups 1, 2, ... of each.
pub fn cut_at_spans(text: &Vec<char>, spans: &Vec<Vec<Option<(usize, usize)>>>) -> (res: RegexSplit)
    ensures
        strings_view(res.pieces@) == split_pieces(text@, spans_view(spans@)),
        captures_view(res.captures@) == split_groups(text@, spans_view(spans@)),
        res.pieces@.len() == res.captures@.len() + 1,
{
    let ghost ms = spans_view(spans@);
    let mut pieces: Vec<String> = Vec::new();
    let mut captures: Vec<Vec<Option<String>>> = Vec::new();
    let mut last: usize = 0;
    let mut i: usize = 0;
    while i < spans.len()
        invariant
            i <= spans.len(),
            ms == spans_view(spans@),
            last <= text.len(),
            last == (if i == 0 { 0 } else { span_end(text@, ms[i - 1]) }),
            pieces@.len() == i,
            captures@.len() == i,
            forall|j: int| 0 <= j < i ==> #[trigger] pieces@[j]@ == split_piece(text@, ms, j),
            forall|j: int| 0 <= j < i ==> #[trigger] groups_view(captures@[j]@) == split_groups(text@, ms)[j],
        decreases spans.len() - i,
    {
        let m = &spans[i];
        let ghost mv = ms[i as int];
        assert(mv == m@.map_values(|g: Option<(usize, usize)>| span_view(g)));
        let (s, e) = if m.len() > 0 {
            match m[0] {
                Some((a, b)) => (char_index_exec(text, a), char_index_exec(text, b)),
                None => (0, 0),
            }
        } else {
            (0, 0)
        };
        assert(s == span_start(text@, mv) && e == span_end(text@, mv));
        let piece = if last <= s {
            string_of_range(text, last, s)
        } else {
            String::new()
        };
        assert(piece@ == split_piece(text@, ms, i as int));
        pieces.push(piece);
        let mut groups: Vec<Option<String>> = Vec::new();
        let mut g: usize = 1;
        while g < m.len()
            invariant
                1 <= g,
                g <= m.len() || (m.len() == 0 && g == 1),
                mv == m@.map_values(|x: Option<(usize, usize)>| span_view(x)),
                groups@.len() == g - 1,
                forall|j: int| 0 <= j < g - 1 ==> #[trigger] groups_view(groups@)[j]
                    == group_text(text@, mv[j + 1]),
            decreases m.len() - g,
        {
            let t = match m[g] {
                Some((a, b)) => {
                    let x = char_index_exec(text, a);
                    let y = char_index_exec(text, b);
                    if x <= y {
                        Some(string_of_range(text, x, y))
                    } else {
                        Some(String::new())
                    }
                },
                None => None,
            };
            let ghost before = groups@;
            groups.push(t);
            proof {
                assert(groups_view(groups@) =~= groups_view(before).push(group_text(text@, mv[g as int])));
            }
            g += 1;
        }
        proof {
            let gv = split_groups(text@, ms)[i as int];
            assert(gv == match_groups(text@, mv));
            assert(mv.len() == m@.len());
            assert(gv.len() == groups_view(groups@).len());
            assert forall|j: int| 0 <= j < gv.len() implies #[trigger] gv[j] == groups_view(groups@)[j] by {
                assert(mv.skip(1)[j] == mv[j + 1]);
            }
            assert(groups_view(groups@) =~= gv);
        }
        captures.push(groups);
        last = e;
        i += 1;
    }
    let tail = string_of_range(text, last, text.len());
    assert(tail@ == split_piece(text@, ms, i as int));
    pieces.push(tail);
    let res = RegexSplit { pieces, captures };
    assert(strings_view(res.pieces@) =~= split_pieces(text@, ms));
    assert(captures_view(res.captures@) =~= split_groups(text@, ms));
    res
}

/// Split `text` at the matches of the regex `pattern` (see [`regex_split`]):
/// `None` when the pattern is not a valid regex.
fn regex_split_exec(pattern: &str, text: &str) -> (res: Option<RegexSplit>)
    ensures
        match res {
            None => regex_split(pattern@, text@) is None,
            Some(r) => regex_split(pattern@, text@) == Some(
                (strings_view(r.pieces@), captures_view(r.captures@)),
            ) && r.pieces@.len() == r.captures@.len() + 1,
        },
{
    match regex_capture_spans(pattern, text) {
        None => None,
        Some(spans) => {
            let chars = chars_of(text);
            Some(cut_at_spans(&chars, &spans))
        },
    }
}

/// The text of a value: an integer in decimal, a string as itself. Statuses are
/// never stored in variables; their text here is empty.
pub open spec fn value_text(v: SValue) -> Seq<char> {
    match v {
        SValue::Int(i) => int_to_decimal(i),
        SValue::Str(s) => s,
        SValue::Stat(_) => Seq::empty(),
    }
}

/// Can `c` start a variable name?
pub open spec fn is_name_start(c: char) -> bool {
    ('a' <= c && c <= 'z') || ('A' <= c && c <= 'Z') || c == '_'
}

/// Can `c` continue a variable name?
pub open spec fn is_name_char(c: char) -> bool {
    is_name_start(c) || ('0' <= c && c <= '9')
}

/// The first position at or after `from` holding `c`, or the length.
pub open spec fn find_char(s: Seq<char>, c: char, from: int) -> int
    decreases s.len() - from,
{
    if from < 0 || from >= s.len() {
        s.len() as int
    } else if s[from] == c {
        from
    } else {
        find_char(s, c, from + 1)
    }
}

/// The first position at or after `from` that cannot continue a name, or the length.
pub open spec fn name_end(s: Seq<char>, from: int) -> int
    decreases s.len() - from,
{
    if from < 0 || from >= s.len() {
        s.len() as int
    } else if !is_name_char(s[from]) {
        from
    } else {
        name_end(s, from + 1)
    }
}

/// The variable reference starting with the `$` at `i`, if any: the bounds of its
/// expression and the position after it.
pub open spec fn var_ref_at(s: Seq<char>, i: int) -> Option<(int, int, int)> {
    let close = find_char(s, '}', i + 2);
    if i + 1 < s.len() && s[i + 1] == '{' && close < s.len() && close > i + 2 {
        Some((i + 2, close, close + 1))
    } else if i + 1 < s.len() && is_name_start(s[i + 1]) {
        Some((i + 1, name_end(s, i + 1), name_end(s, i + 1)))
    } else {
        None
    }
}

/// The template `repl` with `\k` replaced by group `k` (for each group present,
/// from group `i + 1` on).
pub open spec fn fill_groups(repl: Seq<char>, groups: Seq<Option<Seq<char>>>, i: int) -> Seq<char>
    decreases groups.len() - i,
{
    if i < 0 || i >= groups.len() {
        repl
    } else {
        let next = match groups[i] {
            Some(g) => str_replace(repl, seq!['\\'] + int_to_decimal(i + 1), g),
            None => repl,
        };
        fill_groups(next, groups, i + 1)
    }
}

/// The pieces of a split, from piece `k`, with each match replaced by the filled template.
pub open spec fn rejoin(
    pieces: Seq<Seq<char>>,
    caps: Seq<Seq<Option<Seq<char>>>>,
    repl: Seq<char>,
    k: int,
) -> Seq<char>
    decreases caps.len() - k,
{
    if k < 0 || k >= caps.len() || k >= pieces.len() {
        if 0 <= k < pieces.len() {
            pieces[k]
        } else {
            Seq::empty()
        }
    } else {
        pieces[k] + fill_groups(repl, caps[k], 0) + rejoin(pieces, caps, repl, k + 1)
    }
}

/// The text of `s[i..]` with its variable references expanded, as seen from scope `f`.
pub open spec fn expand_from(s: Seq<char>, i: int, sc: Scope, f: int, fuel: nat) -> Seq<char>
    decreases fuel, s.len() - i,
{
    if i < 0 || i >= s.len() {
        Seq::empty()
    } else if s[i] == '$' {
        match var_ref_at(s, i) {
            Some((a, b, n)) => if i < n <= s.len() && 0 <= a <= b <= s.len() {
                var_expansion(s.subrange(a, b), sc, f, fuel) + expand_from(s, n, sc, f, fuel)
            } else {
                Seq::empty()
            },
            None => seq!['$'] + expand_from(s, i + 1, sc, f, fuel),
        }
    } else {
        seq![s[i]] + expand_from(s, i + 1, sc, f, fuel)
    }
}

/// The expansion of one variable expression `NAME`, `NAME/regex` or `NAME/regex/replacement`.
pub open spec fn var_expansion(e: Seq<char>, sc: Scope, f: int, fuel: nat) -> Seq<char>
    decreases fuel, 0int,
{
    let slash1 = find_char(e, '/', 0);
    let name = e.take(slash1);
    match sc.lookup_from(f, name) {
        None => seq!['$'] + name,
        Some(v) => {
            let text = value_text(v);
            let slash2 = find_char(e, '/', slash1 + 1);
            if slash1 < e.len() && slash2 < e.len() && fuel > 0 && 0 <= slash1 < slash2 {
                let search = e.subrange(slash1 + 1, slash2);
                let repl = value_text(
                    spec_value_from_text(expand_from(e.skip(slash2 + 1), 0, sc, f, (fuel - 1) as nat)),
                );
                match regex_split(search, text) {
                    None => text,
                    Some((pieces, caps)) => rejoin(pieces, caps, repl, 0),
                }
            } else {
                text
            }
        },
    }
}

/// The expansion of a whole word.
pub open spec fn spec_expand(s: Seq<char>, sc: Scope, f: int) -> Seq<char> {
    expand_from(s, 0, sc, f, (s.len() + 1) as nat)
}

/// A text with no `$` expands to itself, whatever the scopes.
pub proof fn lemma_expand_plain(s: Seq<char>, i: int, sc: Scope, f: int, fuel: nat)
    requires
        0 <= i <= s.len(),
        forall|k: int| i <= k < s.len() ==> #[trigger] s[k] != '$',
    ensures
        expand_from(s, i, sc, f, fuel) == s.subrange(i, s.len() as int),
    decreases s.len() - i,
{
    if i < s.len() {
        lemma_expand_plain(s, i + 1, sc, f, fuel);
        assert(seq![s[i]] + s.subrange(i + 1, s.len() as int) =~= s.subrange(i, s.len() as int));
    } else {
        assert(s.subrange(i, s.len() as int) =~= Seq::<char>::empty());
    }
}

/// The value of a text with no `$` is read from the text alone.
pub proof fn lemma_value_plain(s: Seq<char>, sc: Scope, f: int)
    requires
        forall|k: int| 0 <= k < s.len() ==> #[trigger] s[k] != '$',
    ensures
        spec_parse_value(s, sc, f) == crate::value::spec_value_from_text(s),
{
    lemma_expand_plain(s, 0, sc, f, (s.len() + 1) as nat);
    assert(s.subrange(0, s.len() as int) =~= s);
}

/// The value of a word: its expansion, read as an integer when it is one.
pub open spec fn spec_parse_value(s: Seq<char>, sc: Scope, f: int) -> SValue {
    spec_value_from_text(spec_expand(s, sc, f))
}

/// Is `name` a variable name: a letter or `_`, then letters, digits or `_`?
pub open spec fn is_var_name(name: Seq<char>) -> bool {
    &&& name.len() > 0
    &&& is_name_start(name[0])
    &&& forall|k: int| 0 <= k < name.len() ==> is_name_char(#[trigger] name[k])
}

/// A name runs to the end of a text made of name characters.
proof fn lemma_name_end_all(s: Seq<char>, from: int)
    requires
        0 <= from <= s.len(),
        forall|k: int| from <= k < s.len() ==> is_name_char(#[trigger] s[k]),
    ensures
        name_end(s, from) == s.len(),
    decreases s.len() - from,
{
    if from < s.len() {
        lemma_name_end_all(s, from + 1);
    }
}

/// A character that does not occur is found at the end.
proof fn lemma_find_char_absent(s: Seq<char>, c: char, from: int)
    requires
        0 <= from <= s.len(),
        forall|k: int| from <= k < s.len() ==> #[trigger] s[k] != c,
    ensures
        find_char(s, c, from) == s.len(),
    decreases s.len() - from,
{
    if from < s.len() {
        lemma_find_char_absent(s, c, from + 1);
    }
}

/// What a variable reference gives back: `$name` expands to the text of the
/// value that `name` has, seen from scope `f`; an integer reads back as itself.
pub proof fn law_variable_read_back(sc: Scope, f: int, name: Seq<char>, v: SValue)
    requires
        sc.wf(),
        0 <= f < sc.frames.len(),
        is_var_name(name),
        sc.lookup_from(f, name) == Some(v),
        v matches SValue::Int(i) ==> i64::MIN <= i <= i64::MAX,
    ensures
        spec_expand(seq!['$'] + name, sc, f) == value_text(v),
        v matches SValue::Int(i) ==> spec_parse_value(seq!['$'] + name, sc, f) == SValue::Int(i),
{
    let s = seq!['$'] + name;
    assert forall|k: int| 1 <= k < s.len() implies is_name_char(#[trigger] s[k]) by {
        assert(s[k] == name[k - 1]);
    }
    lemma_name_end_all(s, 1);
    assert(s[1] == name[0]);
    assert(var_ref_at(s, 0) == Some((1int, s.len() as int, s.len() as int))) by {
        assert(s[1] != '{');
    }
    assert(s.subrange(1, s.len() as int) =~= name);
    assert forall|k: int| 0 <= k < name.len() implies #[trigger] name[k] != '/' by {
        assert(is_name_char(name[k]));
    }
    lemma_find_char_absent(name, '/', 0);
    assert(name.take(name.len() as int) =~= name);
    let fuel = (s.len() + 1) as nat;
    assert(var_expansion(name, sc, f, fuel) == value_text(v));
    assert(expand_from(s, s.len() as int, sc, f, fuel) =~= Seq::<char>::empty());
    assert(expand_from(s, 0, sc, f, fuel) == var_expansion(name, sc, f, fuel) + Seq::<char>::empty());
    assert(value_text(v) + Seq::<char>::empty() =~= value_text(v));
    match v {
        SValue::Int(i) => {
            crate::value::law_int_text_roundtrip(i);
        },
        _ => {},
    }
}

/// The text of a value.
pub fn value_chars(v: &Value) -> (res: Vec<char>)
    ensures
        res@ == value_text(v@),
{
    match v {
        Value::Int(i) => i64_to_chars(*i),
        Value::Str(s) => chars_of(s.as_str()),
        Value::Stat(_) => Vec::new(),
    }
}

/// First position at or after `from` holding `c`, or the length.
fn find_char_exec(s: &Vec<char>, c: char, from: usize) -> (res: usize)
    requires
        from <= s.len(),
    ensures
        res == find_char(s@, c, from as int),
        from <= res <= s.len(),
{
    let mut i = from;
    while i < s.len() && s[i] != c
        invariant
            from <= i <= s.len(),
            find_char(s@, c, i as int) == find_char(s@, c, from as int),
        decreases s.len() - i,
    {
        i += 1;
    }
    i
}

/// First position at or after `from` that cannot continue a name, or the length.
fn name_end_exec(s: &Vec<char>, from: usize) -> (res: usize)
    requires
        from <= s.len(),
    ensures
        res == name_end(s@, from as int),
        from <= res <= s.len(),
{
    let mut i = from;
    while i < s.len() && (('a' <= s[i] && s[i] <= 'z') || ('A' <= s[i] && s[i] <= 'Z') || s[i]
        == '_' || ('0' <= s[i] && s[i] <= '9'))
        invariant
            from <= i <= s.len(),
            name_end(s@, i as int) == name_end(s@, from as int),
        decreases s.len() - i,
    {
        i += 1;
    }
    i
}

/// The template with the groups of one match filled in.
fn fill_groups_exec(repl: &Vec<char>, groups: &Vec<Option<String>>) -> (res: Vec<char>)
    ensures
        res@ == fill_groups(repl@, groups_view(groups@), 0),
{
    let ghost gv = groups_view(groups@);
    let mut cur = vec_range(repl, 0, repl.len());
    assert(repl@.subrange(0, repl@.len() as int) == repl@);
    let mut i: usize = 0;
    while i < groups.len()
        invariant
            i <= groups.len(),
            gv == groups_view(groups@),
            fill_groups(cur@, gv, i as int) == fill_groups(repl@, gv, 0),
        decreases groups.len() - i,
    {
        match &groups[i] {
            Some(g) => {
                assert(gv[i as int] == Some(g@));
                let mut pat: Vec<char> = Vec::new();
                pat.push('\\');
                let num = u64_to_chars((i as u64) + 1);
                vec_extend(&mut pat, &num);
                let gc = chars_of(g.as_str());
                cur = replace_all(&cur, &pat, &gc);
            },
            None => {
                assert(gv[i as int] is None);
            },
        }
        i += 1;
    }
    cur
}

impl Scope {
    /// The expansion of `s[i..]` seen from scope `f` (see [`expand_from`]).
    fn expand_from_exec(&self, s: &Vec<char>, f: usize, fuel: usize) -> (res: Vec<char>)
        requires
            self.wf(),
            f < self.frames.len(),
        ensures
            res@ == expand_from(s@, 0, *self, f as int, fuel as nat),
        decreases fuel, 1int,
    {
        let mut out: Vec<char> = Vec::new();
        let mut i: usize = 0;
        while i < s.len()
            invariant
                self.wf(),
                f < self.frames.len(),
                i <= s.len(),
                out@ + expand_from(s@, i as int, *self, f as int, fuel as nat) == expand_from(
                    s@,
                    0,
                    *self,
                    f as int,
                    fuel as nat,
                ),
            decreases s.len() - i,
        {
            if s[i] == '$' {
                let close = if s.len() - i >= 2 {
                    find_char_exec(s, '}', i + 2)
                } else {
                    s.len()
                };
                proof {
                    if i + 2 > s.len() {
                        assert(find_char(s@, '}', i + 2) == s.len());
                    }
                }
                let mut bounds: Option<(usize, usize, usize)> = None;
                if s.len() - i >= 2 && s[i + 1] == '{' && close < s.len() && close > i + 2 {
                    bounds = Some((i + 2, close, close + 1));
                } else if s.len() - i >= 2 && (('a' <= s[i + 1] && s[i + 1] <= 'z') || ('A' <= s[i
                    + 1] && s[i + 1] <= 'Z') || s[i + 1] == '_') {
                    let e = name_end_exec(s, i + 1);
                    bounds = Some((i + 1, e, e));
                }
                match bounds {
                    Some((a, b, n)) => {
                        let ghost spec_bounds = var_ref_at(s@, i as int);
                        assert(spec_bounds == Some((a as int, b as int, n as int)));
                        let e = vec_range(s, a, b);
                        let x = self.var_expansion_exec(&e, f, fuel);
                        vec_extend(&mut out, &x);
                        i = n;
                    },
                    None => {
                        assert(var_ref_at(s@, i as int) is None);
                        out.push('$');
                        i += 1;
                    },
                }
            } else {
                out.push(s[i]);
                i += 1;
            }
        }
        out
    }

    /// The expansion of one variable expression (see [`var_expansion`]).
    fn var_expansion_exec(&self, e: &Vec<char>, f: usize, fuel: usize) -> (res: Vec<char>)
        requires
            self.wf(),
            f < self.frames.len(),
        ensures
            res@ == var_expansion(e@, *self, f as int, fuel as nat),
        decreases fuel, 0int,
    {
        let slash1 = find_char_exec(e, '/', 0);
        let name_chars = vec_range(e, 0, slash1);
        assert(name_chars@ == e@.take(slash1 as int));
        let name = string_of(&name_chars);
        match self.lookup_from_frame(f, name.as_str()) {
            None => {
                let mut r: Vec<char> = Vec::new();
                r.push('$');
                vec_extend(&mut r, &name_chars);
                r
            },
            Some(v) => {
                let text = value_chars(&v);
                let slash2 = if slash1 < e.len() {
                    find_char_exec(e, '/', slash1 + 1)
                } else {
                    e.len()
                };
                proof {
                    if slash1 >= e.len() {
                        assert(find_char(e@, '/', slash1 + 1) == e.len());
                    }
                }
                if slash1 < e.len() && slash2 < e.len() && fuel > 0 {
                    let search = vec_range(e, slash1 + 1, slash2);
                    let src = vec_range(e, slash2 + 1, e.len());
                    assert(src@ == e@.skip(slash2 + 1));
                    let expanded = self.expand_from_exec(&src, f, fuel - 1);
                    let rv = value_from_text(&expanded);
                    let repl = value_chars(&rv);
                    let search_s = string_of(&search);
                    let text_s = string_of(&text);
                    match regex_split_exec(search_s.as_str(), text_s.as_str()) {
                        None => text,
                        Some(split) => rejoin_exec(&split, &repl),
                    }
                } else {
                    text
                }
            },
        }
    }

    /// The expansion of a word seen from scope `f` (see [`spec_expand`]).
    pub fn expand(&self, s: &Vec<char>, f: usize) -> (res: Vec<char>)
        requires
            self.wf(),
            f < self.frames.len(),
            s.len() < usize::MAX,
        ensures
            res@ == spec_expand(s@, *self, f as int),
    {
        self.expand_from_exec(s, f, s.len() + 1)
    }

    /// The value of a word seen from scope `f`: its expansion, read as an
    /// integer when it is one (see [`spec_parse_value`]).
    pub fn parse_value(&self, s: &Vec<char>, f: usize) -> (res: Value)
        requires
            self.wf(),
            f < self.frames.len(),
            s.len() < usize::MAX,
        ensures
            res@ == spec_parse_value(s@, *self, f as int),
    {
        let x = self.expand(s, f);
        value_from_text(&x)
    }
}

/// The pieces of a split with every match replaced by the filled template.
fn rejoin_exec(split: &RegexSplit, repl: &Vec<char>) -> (res: Vec<char>)
    requires
        split.pieces@.len() == split.captures@.len() + 1,
    ensures
        res@ == rejoin(strings_view(split.pieces@), captures_view(split.captures@), repl@, 0),
{
    let ghost pv = strings_view(split.pieces@);
    let ghost cv = captures_view(split.captures@);
    let mut out: Vec<char> = Vec::new();
    let mut k: usize = 0;
    while k < split.captures.len()
        invariant
            k <= split.captures.len(),
            split.pieces@.len() == split.captures@.len() + 1,
            pv == strings_view(split.pieces@),
            cv == captures_view(split.captures@),
            out@ + rejoin(pv, cv, repl@, k as int) == rejoin(pv, cv, repl@, 0),
        decreases split.captures.len() - k,
    {
        let p = chars_of(split.pieces[k].as_str());
        assert(pv[k as int] == p@);
        vec_extend(&mut out, &p);
        let groups = &split.captures[k];
        let filled = fill_groups_exec(repl, groups);
        assert(cv[k as int] == groups_view(groups@));
        vec_extend(&mut out, &filled);
        k += 1;
    }
    let p = chars_of(split.pieces[k].as_str());
    assert(pv[k as int] == p@);
    vec_extend(&mut out, &p);
    out
}

} // verus!

//! The line matching of `grep`: which lines match a pattern, and how a
//! matching line is printed.
use vstd::prelude::*;
use crate::flags::{lemma_within_absent, lemma_within_insert, names_within, CommandFlags, FlagSpec};
use crate::text::{chars_of, nat_to_decimal, string_of, string_of_range, to_owned_string, u64_to_chars, vec_extend};
use crate::expand::{
    char_index_exec, cut, cut_at_spans, regex_capture_spans, regex_captures, span_end, span_start, span_view,
    spans_view, split_piece, split_pieces, strings_view,
};

verus! {

/// Whether `pattern` is a valid regex (crate `regex`, `Regex::new`), and if not,
/// the crate's message.
pub uninterp spec fn regex_compile(pattern: Seq<char>) -> Result<(), Seq<char>>;

/// Whether the regex `pattern` matches somewhere in `text` (crate `regex`,
/// `Regex::is_match`).
pub uninterp spec fn regex_is_match(pattern: Seq<char>, text: Seq<char>) -> bool;

/// The lower case of `s` (`str::to_lowercase`).
pub uninterp spec fn lowercase(s: Seq<char>) -> Seq<char>;

/// Check that `pattern` is a valid regex (crate `regex`: `Regex::new`); the
/// error is the crate's message. The contract names the result.
#[verifier::external_body]
pub(crate) fn check_regex(pattern: &str) -> (res: Result<(), String>)
    ensures
        match regex_compile(pattern@) {
            Ok(()) => res is Ok,
            Err(m) => res matches Err(e) && e@ == m,
        },
{
    match regex::Regex::new(pattern) {
        Ok(_) => Ok(()),
        Err(e) => Err(e.to_string()),
    }
}

/// Does the regex `pattern` match somewhere in `text` (crate `regex`:
/// `Regex::new`, then `Regex::is_match`)? The contract names the result.
#[verifier::external_body]
fn is_match(pattern: &str, text: &str) -> (res: bool)
    requires
        regex_compile(pattern@) is Ok,
    ensures
        res == regex_is_match(pattern@, text@),
{
    match regex::Regex::new(pattern) {
        Ok(re) => re.is_match(text),
        Err(_) => false,
    }
}

/// The lower case of `s` (`str::to_lowercase`). The contract names the result.
#[verifier::external_body]
fn to_lowercase(s: &str) -> (res: String)
    ensures
        res@ == lowercase(s@),
{
    s.to_lowercase()
}

/// How matching lines are found and printed.
pub struct GrepOptions {
    /// Match without regard to case.
    pub ignore_case: bool,
    /// Prefix each line with its (1-based) number.
    pub line_number: bool,
    /// Prefix each line with the name of its file.
    pub show_filename: bool,
    /// Print the lines that do not match.
    pub invert_match: bool,
}

/// The regex that is searched: the pattern, made case-insensitive if asked.
pub open spec fn spec_grep_pattern(pattern: Seq<char>, ignore_case: bool) -> Seq<char> {
    if ignore_case {
        "(?i)"@ + pattern
    } else {
        pattern
    }
}

/// The regex that is searched (see [`spec_grep_pattern`]), or the regex crate's
/// error for an invalid one.
pub fn grep_pattern(pattern: &str, ignore_case: bool) -> (res: Result<String, String>)
    ensures
        match regex_compile(spec_grep_pattern(pattern@, ignore_case)) {
            Ok(()) => res matches Ok(p) && p@ == spec_grep_pattern(pattern@, ignore_case),
            Err(m) => res matches Err(e) && e@ == m,
        },
{
    let p = if ignore_case {
        let mut t = chars_of("(?i)");
        let c = chars_of(pattern);
        vec_extend(&mut t, &c);
        proof { reveal_strlit("(?i)"); }
        string_of(&t)
    } else {
        crate::text::to_owned_string(pattern)
    };
    check_regex(p.as_str())?;
    Ok(p)
}

/// Are file names shown: never with `--no-filename`, else with
/// `--with-filename` or when there is more than one file.
pub fn show_filename(no_filename: bool, with_filename: bool, files: usize) -> (res: bool)
    ensures
        res == (!no_filename && (with_filename || files > 1)),
{
    if no_filename {
        false
    } else {
        with_filename || files > 1
    }
}

/// Does line `line` count as a match: the regex matches it (in lower case when
/// case is ignored), or, inverted, does not?
pub open spec fn line_selected(pattern: Seq<char>, line: Seq<char>, opts: GrepOptions) -> bool {
    let checked = if opts.ignore_case {
        lowercase(line)
    } else {
        line
    };
    regex_is_match(pattern, checked) != opts.invert_match
}

/// How a selected line is printed: file name and `:`, then line number and `:`,
/// as asked, then the line.
pub open spec fn grep_output(filename: Option<Seq<char>>, line_number: nat, line: Seq<char>, opts: GrepOptions) -> Seq<char> {
    let name_part = match filename {
        Some(f) => if opts.show_filename {
            f + seq![':']
        } else {
            Seq::empty()
        },
        None => Seq::empty(),
    };
    let number_part = if opts.line_number {
        nat_to_decimal(line_number + 1) + seq![':']
    } else {
        Seq::empty()
    };
    name_part + number_part + line
}

/// The output for line `line_number` (0-based) of a file, if it is selected
/// (see [`line_selected`] and [`grep_output`]).
pub fn grep_line(pattern: &str, filename: Option<&str>, line_number: usize, line: &str, opts: &GrepOptions) -> (res: Option<String>)
    requires
        regex_compile(pattern@) is Ok,
        line_number < u64::MAX,
    ensures
        line_selected(pattern@, line@, *opts) ==> (res matches Some(o) && o@ == grep_output(
            match filename {
                Some(f) => Some(f@),
                None => None,
            },
            line_number as nat,
            line@,
            *opts,
        )),
        !line_selected(pattern@, line@, *opts) ==> res is None,
{
    let matches = if opts.ignore_case {
        let lower = to_lowercase(line);
        is_match(pattern, lower.as_str())
    } else {
        is_match(pattern, line)
    };
    if matches == opts.invert_match {
        return None;
    }
    let mut out: Vec<char> = Vec::new();
    match filename {
        Some(f) => {
            if opts.show_filename {
                let c = chars_of(f);
                vec_extend(&mut out, &c);
                out.push(':');
            }
        },
        None => {},
    }
    if opts.line_number {
        let n = u64_to_chars((line_number as u64) + 1);
        vec_extend(&mut out, &n);
        out.push(':');
    }
    let l = chars_of(line);
    vec_extend(&mut out, &l);
    assert(out@ =~= grep_output(
        match filename {
            Some(f) => Some(f@),
            None => None,
        },
        line_number as nat,
        line@,
        *opts,
    ));
    Some(string_of(&out))
}

/// The text of match `m` in `text`.
pub open spec fn match_text(text: Seq<char>, m: Seq<Option<(int, int)>>) -> Seq<char> {
    cut(text, span_start(text, m), span_end(text, m))
}

/// `text` cut into the pieces between the matches `ms` and the matches
/// themselves, in order, each marked with whether it is a match.
pub open spec fn segments_of(text: Seq<char>, ms: Seq<Seq<Option<(int, int)>>>) -> Seq<(Seq<char>, bool)> {
    Seq::new(
        2 * ms.len() + 1,
        |k: int|
            if k % 2 == 0 {
                (split_piece(text, ms, k / 2), false)
            } else {
                (match_text(text, ms[k / 2]), true)
            },
    )
}

/// The view of a list of segments.
pub open spec fn segments_view(v: Seq<(String, bool)>) -> Seq<(Seq<char>, bool)> {
    v.map_values(|x: (String, bool)| (x.0@, x.1))
}

/// `line` cut at the matches of the regex `pattern` (see [`segments_of`]), for
/// showing the matches; `None` exactly when the pattern is not a valid regex.
pub fn match_segments(pattern: &str, line: &str) -> (res: Option<Vec<(String, bool)>>)
    ensures
        res is None <==> regex_compile(pattern@) is Err,
        res matches Some(v) ==> segments_view(v@) == segments_of(line@, regex_captures(pattern@, line@)),
{
    match regex_capture_spans(pattern, line) {
        None => None,
        Some(spans) => {
            let text = chars_of(line);
            Some(segments_at(&text, &spans))
        },
    }
}

/// `text` cut at the matches with byte spans `spans` (see [`segments_of`]).
pub fn segments_at(text: &Vec<char>, spans: &Vec<Vec<Option<(usize, usize)>>>) -> (res: Vec<(String, bool)>)
    ensures
        segments_view(res@) == segments_of(text@, spans_view(spans@)),
{
    let ghost ms = spans_view(spans@);
    let split = cut_at_spans(text, spans);
    assert(strings_view(split.pieces@).len() == split.pieces@.len());
    assert(ms.len() == spans@.len());
    assert(split_pieces(text@, ms).len() == ms.len() + 1);
    let mut out: Vec<(String, bool)> = Vec::new();
    let mut i: usize = 0;
    while i < spans.len()
        invariant
            i <= spans.len(),
            ms == spans_view(spans@),
            split.pieces@.len() == spans@.len() + 1,
            strings_view(split.pieces@) == split_pieces(text@, ms),
            out@.len() == 2 * i,
            forall|k: int| 0 <= k < 2 * i ==> #[trigger] segments_view(out@)[k] == segments_of(text@, ms)[k],
        decreases spans.len() - i,
    {
        let m = &spans[i];
        let ghost mv = ms[i as int];
        assert(mv == m@.map_values(|g: Option<(usize, usize)>| span_view(g)));
        let (s, e) = if m.len() > 0 {
            match m[0] {
                Some((a, b)) => (char_index_exec(text, a), char_index_exec(text, b)),
                None => (0, 0),
            }
        } else {
            (0, 0)
        };
        assert(s == span_start(text@, mv) && e == span_end(text@, mv));
        let t = if s <= e {
            string_of_range(text, s, e)
        } else {
            String::new()
        };
        let piece = to_owned_string(split.pieces[i].as_str());
        assert(piece@ == strings_view(split.pieces@)[i as int]);
        let ghost before = out@;
        out.push((piece, false));
        out.push((t, true));
        proof {
            assert(segments_view(out@) =~= segments_view(before).push((piece@, false)).push((t@, true)));
            assert forall|k: int| 0 <= k < 2 * i + 2 implies #[trigger] segments_view(out@)[k] == segments_of(text@, ms)[k] by {
                if k < 2 * i {
                    assert(segments_view(out@)[k] == segments_view(before)[k]);
                } else if k == 2 * i {
                    assert(k % 2 == 0 && k / 2 == i);
                } else {
                    assert(k % 2 == 1 && k / 2 == i);
                }
            }
        }
        i += 1;
    }
    let last = to_owned_string(split.pieces[i].as_str());
    assert(last@ == strings_view(split.pieces@)[i as int]);
    let ghost before = out@;
    out.push((last, false));
    proof {
        assert(segments_view(out@) =~= segments_view(before).push((last@, false)));
        assert forall|k: int| 0 <= k < 2 * i + 1 implies #[trigger] segments_view(out@)[k] == segments_of(text@, ms)[k] by {
            if k < 2 * i {
                assert(segments_view(out@)[k] == segments_view(before)[k]);
            } else {
                assert(k % 2 == 0 && k / 2 == i);
            }
        }
        assert(segments_view(out@) =~= segments_of(text@, ms));
    }
    out
}

/// The outputs of the selected lines among `lines` (numbered from 0), in order.
pub open spec fn selected_outputs(
    pattern: Seq<char>,
    filename: Option<Seq<char>>,
    lines: Seq<Seq<char>>,
    opts: GrepOptions,
) -> Seq<Seq<char>>
    decreases lines.len(),
{
    if lines.len() == 0 {
        Seq::empty()
    } else {
        let k = (lines.len() - 1) as nat;
        let before = selected_outputs(pattern, filename, lines.drop_last(), opts);
        if line_selected(pattern, lines.last(), opts) {
            before.push(grep_output(filename, k, lines.last(), opts))
        } else {
            before
        }
    }
}

/// Search the lines of a file (or of the standard input, without a name) for
/// the regex `pattern` (case-insensitive if asked): the outputs of the selected
/// lines in order (see [`selected_outputs`]), or the regex crate's error for an
/// invalid pattern.
pub fn grep_lines(pattern: &str, filename: Option<&str>, lines: &Vec<String>, opts: &GrepOptions) -> (res: Result<Vec<String>, String>)
    requires
        lines.len() < u64::MAX,
    ensures
        match regex_compile(spec_grep_pattern(pattern@, opts.ignore_case)) {
            Ok(()) => res matches Ok(out) && crate::text::texts(out@) == selected_outputs(
                spec_grep_pattern(pattern@, opts.ignore_case),
                match filename {
                    Some(f) => Some(f@),
                    None => None,
                },
                crate::text::texts(lines@),
                *opts,
            ),
            Err(m) => res matches Err(e) && e@ == m,
        },
{
    let p = grep_pattern(pattern, opts.ignore_case)?;
    let ghost fv = match filename {
        Some(f) => Some(f@),
        None => None,
    };
    let ghost lv = crate::text::texts(lines@);
    let mut out: Vec<String> = Vec::new();
    let mut i: usize = 0;
    while i < lines.len()
        invariant
            i <= lines.len(),
            lines.len() < u64::MAX,
            regex_compile(p@) is Ok,
            lv == crate::text::texts(lines@),
            fv == (match filename {
                Some(f) => Some(f@),
                None => None,
            }),
            crate::text::texts(out@) == selected_outputs(p@, fv, lv.take(i as int), *opts),
        decreases lines.len() - i,
    {
        let ghost t1 = lv.take(i + 1);
        assert(t1.drop_last() =~= lv.take(i as int));
        assert(t1.last() == lines@[i as int]@);
        assert(selected_outputs(p@, fv, t1, *opts) == (if line_selected(p@, t1.last(), *opts) {
            selected_outputs(p@, fv, t1.drop_last(), *opts).push(grep_output(fv, i as nat, t1.last(), *opts))
        } else {
            selected_outputs(p@, fv, t1.drop_last(), *opts)
        }));
        match grep_line(p.as_str(), filename, i, lines[i].as_str(), opts) {
            Some(o) => {
                let ghost before = crate::text::texts(out@);
                out.push(o);
                assert(crate::text::texts(out@) =~= before.push(o@));
            },
            None => {},
        }
        i += 1;
    }
    assert(lv.take(lines.len() as int) =~= lv);
    Ok(out)
}

/// The `grep` command and its flags.
pub struct Grep {
    pub flags: CommandFlags,
}

impl Grep {
    /// The command with its flags: `--help`, `--follow-links`, `--ignore-case`,
    /// `--line-number`, `--with-filename`, `--no-filename`, `--hyperlink`,
    /// `--recursive`, `--invert-match`, `--hidden`, and `--messages` (given by
    /// default; `--no-messages` takes it away).
    pub fn new() -> (res: Self)
        ensures
            res.flags.wf(),
            res.flags.spec_flags().len() == 11,
            res.flags.spec_flags().contains(FlagSpec { short: Some('?'), long: "help"@, help: "Display this help message"@, takes_value: false, default_value: None }),
            res.flags.spec_flags().contains(FlagSpec { short: Some('L'), long: "follow-links"@, help: "Follow symbolic links"@, takes_value: false, default_value: None }),
            res.flags.spec_flags().contains(FlagSpec { short: Some('i'), long: "ignore-case"@, help: "Ignore case distinctions in patterns and input data"@, takes_value: false, default_value: None }),
            res.flags.spec_flags().contains(FlagSpec { short: Some('n'), long: "line-number"@, help: "Prefix each line of output with the 1-based line number"@, takes_value: false, default_value: None }),
            res.flags.spec_flags().contains(FlagSpec { short: Some('H'), long: "with-filename"@, help: "Print the file name for each match (default when there is more than one file)"@, takes_value: false, default_value: None }),
            res.flags.spec_flags().contains(FlagSpec { short: Some('h'), long: "no-filename"@, help: "Suppress the prefixing of file names on output"@, takes_value: false, default_value: None }),
            res.flags.spec_flags().contains(FlagSpec { short: Some('l'), long: "hyperlink"@, help: "Include hyperlinks to files and lines in the output"@, takes_value: false, default_value: None }),
            res.flags.spec_flags().contains(FlagSpec { short: Some('r'), long: "recursive"@, help: "Recursively search subdirectories"@, takes_value: false, default_value: None }),
            res.flags.spec_flags().contains(FlagSpec { short: Some('v'), long: "invert-match"@, help: "Invert the sense of matching, showing non-matching lines"@, takes_value: false, default_value: None }),
            res.flags.spec_flags().contains(FlagSpec { short: None, long: "hidden"@, help: "Include hidden (starting with a dot) files and directories"@, takes_value: false, default_value: None }),
            res.flags.spec_flags().contains(FlagSpec { short: None, long: "messages"@, help: "Show error messages"@, takes_value: false, default_value: Some("true"@) }),
    {
        let mut flags = CommandFlags::with_follow_links();
        proof { crate::flags::lemma_insertion_keeps(seq![FlagSpec { short: Some('?'), long: "help"@, help: "Display this help message"@, takes_value: false, default_value: None }], flags.spec_flags(), FlagSpec { short: Some('L'), long: "follow-links"@, help: "Follow symbolic links"@, takes_value: false, default_value: None }); assert(seq![FlagSpec { short: Some('?'), long: "help"@, help: "Display this help message"@, takes_value: false, default_value: None }][0] == FlagSpec { short: Some('?'), long: "help"@, help: "Display this help message"@, takes_value: false, default_value: None }); }
        proof {
            reveal_strlit("help");
            reveal_strlit("follow-links");
            reveal_strlit("ignore-case");
            reveal_strlit("line-number");
            reveal_strlit("with-filename");
            reveal_strlit("no-filename");
            reveal_strlit("hyperlink");
            reveal_strlit("recursive");
            reveal_strlit("invert-match");
            reveal_strlit("hidden");
            reveal_strlit("messages");
            assert("help"@.len() == 4 && "follow-links"@.len() == 12 && "ignore-case"@.len() == 11);
            assert("line-number"@.len() == 11 && "with-filename"@.len() == 13 && "no-filename"@.len() == 11);
            assert("hyperlink"@.len() == 9 && "recursive"@.len() == 9 && "invert-match"@.len() == 12);
            assert("hidden"@.len() == 6 && "messages"@.len() == 8);
            assert("ignore-case"@[0] != "line-number"@[0] && "ignore-case"@[0] != "no-filename"@[0]);
            assert("line-number"@[0] != "no-filename"@[0]);
            assert("follow-links"@[0] != "invert-match"@[0] && "hyperlink"@[0] != "recursive"@[0]);
            let h = FlagSpec {
                short: Some('?'),
                long: "help"@,
                help: "Display this help message"@,
                takes_value: false,
                default_value: None,
            };
            let l = FlagSpec {
                short: Some('L'),
                long: "follow-links"@,
                help: "Follow symbolic links"@,
                takes_value: false,
                default_value: None,
            };
            assert(names_within(seq![h], set!["help"@], set![Some('?')]));
            lemma_within_insert(seq![h], flags.spec_flags(), l, set!["help"@], set![Some('?')]);
        }
        let ghost mut names: Set<Seq<char>> = set!["help"@, "follow-links"@];
        let ghost mut shorts: Set<Option<char>> = set![Some('?'), Some('L')];
        proof {
            assert(set!["help"@].insert("follow-links"@) =~= names);
            assert(set![Some('?')].insert(Some('L')) =~= shorts);
        }
        proof {
            lemma_within_absent(flags.spec_flags(), names, shorts, "ignore-case"@, Some('i'));
        }
        let ghost before = flags.spec_flags();
        let ghost pre_flags_0 = flags.spec_flags();
        flags.add_flag('i', "ignore-case", "Ignore case distinctions in patterns and input data");
        proof { crate::flags::lemma_insertion_keeps(pre_flags_0, flags.spec_flags(), FlagSpec { short: Some('i'), long: "ignore-case"@, help: "Ignore case distinctions in patterns and input data"@, takes_value: false, default_value: None }); }
        proof {
            let f = FlagSpec {
                short: Some('i'),
                long: "ignore-case"@,
                help: "Ignore case distinctions in patterns and input data"@,
                takes_value: false,
                default_value: None,
            };
            lemma_within_insert(before, flags.spec_flags(), f, names, shorts);
            names = names.insert("ignore-case"@);
            shorts = shorts.insert(Some('i'));
        }
        proof {
            lemma_within_absent(flags.spec_flags(), names, shorts, "line-number"@, Some('n'));
        }
        let ghost before = flags.spec_flags();
        let ghost pre_flags_1 = flags.spec_flags();
        flags.add_flag('n', "line-number", "Prefix each line of output with the 1-based line number");
        proof { crate::flags::lemma_insertion_keeps(pre_flags_1, flags.spec_flags(), FlagSpec { short: Some('n'), long: "line-number"@, help: "Prefix each line of output with the 1-based line number"@, takes_value: false, default_value: None }); }
        proof {
            let f = FlagSpec {
                short: Some('n'),
                long: "line-number"@,
                help: "Prefix each line of output with the 1-based line number"@,
                takes_value: false,
                default_value: None,
            };
            lemma_within_insert(before, flags.spec_flags(), f, names, shorts);
            names = names.insert("line-number"@);
            shorts = shorts.insert(Some('n'));
        }
        proof {
            lemma_within_absent(flags.spec_flags(), names, shorts, "with-filename"@, Some('H'));
        }
        let ghost before = flags.spec_flags();
        let ghost pre_flags_2 = flags.spec_flags();
        flags.add_flag('H', "with-filename", "Print the file name for each match (default when there is more than one file)");
        proof { crate::flags::lemma_insertion_keeps(pre_flags_2, flags.spec_flags(), FlagSpec { short: Some('H'), long: "with-filename"@, help: "Print the file name for each match (default when there is more than one file)"@, takes_value: false, default_value: None }); }
        proof {
            let f = FlagSpec {
                short: Some('H'),
                long: "with-filename"@,
                help: "Print the file name for each match (default when there is more than one file)"@,
                takes_value: false,
                default_value: None,
            };
            lemma_within_insert(before, flags.spec_flags(), f, names, shorts);
            names = names.insert("with-filename"@);
            shorts = shorts.insert(Some('H'));
        }
        proof {
            lemma_within_absent(flags.spec_flags(), names, shorts, "no-filename"@, Some('h'));
        }
        let ghost before = flags.spec_flags();
        let ghost pre_flags_3 = flags.spec_flags();
        flags.add_flag('h', "no-filename", "Suppress the prefixing of file names on output");
        proof { crate::flags::lemma_insertion_keeps(pre_flags_3, flags.spec_flags(), FlagSpec { short: Some('h'), long: "no-filename"@, help: "Suppress the prefixing of file names on output"@, takes_value: false, default_value: None }); }
        proof {
            let f = FlagSpec {
                short: Some('h'),
                long: "no-filename"@,
                help: "Suppress the prefixing of file names on output"@,
                takes_value: false,
                default_value: None,
            };
            lemma_within_insert(before, flags.spec_flags(), f, names, shorts);
            names = names.insert("no-filename"@);
            shorts = shorts.insert(Some('h'));
        }
        proof {
            lemma_within_absent(flags.spec_flags(), names, shorts, "hyperlink"@, Some('l'));
        }
        let ghost before = flags.spec_flags();
        let ghost pre_flags_4 = flags.spec_flags();
        flags.add_flag('l', "hyperlink", "Include hyperlinks to files and lines in the output");
        proof { crate::flags::lemma_insertion_keeps(pre_flags_4, flags.spec_flags(), FlagSpec { short: Some('l'), long: "hyperlink"@, help: "Include hyperlinks to files and lines in the output"@, takes_value: false, default_value: None }); }
        proof {
            let f = FlagSpec {
                short: Some('l'),
                long: "hyperlink"@,
                help: "Include hyperlinks to files and lines in the output"@,
                takes_value: false,
                default_value: None,
            };
            lemma_within_insert(before, flags.spec_flags(), f, names, shorts);
            names = names.insert("hyperlink"@);
            shorts = shorts.insert(Some('l'));
        }
        proof {
            lemma_within_absent(flags.spec_flags(), names, shorts, "recursive"@, Some('r'));
        }
        let ghost before = flags.spec_flags();
        let ghost pre_flags_5 = flags.spec_flags();
        flags.add_flag('r', "recursive", "Recursively search subdirectories");
        proof { crate::flags::lemma_insertion_keeps(pre_flags_5, flags.spec_flags(), FlagSpec { short: Some('r'), long: "recursive"@, help: "Recursively search subdirectories"@, takes_value: false, default_value: None }); }
        proof {
            let f = FlagSpec {
                short: Some('r'),
                long: "recursive"@,
                help: "Recursively search subdirectories"@,
                takes_value: false,
                default_value: None,
            };
            lemma_within_insert(before, flags.spec_flags(), f, names, shorts);
            names = names.insert("recursive"@);
            shorts = shorts.insert(Some('r'));
        }
        proof {
            lemma_within_absent(flags.spec_flags(), names, shorts, "invert-match"@, Some('v'));
        }
        let ghost before = flags.spec_flags();
        let ghost pre_flags_6 = flags.spec_flags();
        flags.add_flag('v', "invert-match", "Invert the sense of matching, showing non-matching lines");
        proof { crate::flags::lemma_insertion_keeps(pre_flags_6, flags.spec_flags(), FlagSpec { short: Some('v'), long: "invert-match"@, help: "Invert the sense of matching, showing non-matching lines"@, takes_value: false, default_value: None }); }
        proof {
            let f = FlagSpec {
                short: Some('v'),
                long: "invert-match"@,
                help: "Invert the sense of matching, showing non-matching lines"@,
                takes_value: false,
                default_value: None,
            };
            lemma_within_insert(before, flags.spec_flags(), f, names, shorts);
            names = names.insert("invert-match"@);
            shorts = shorts.insert(Some('v'));
        }
        proof {
            lemma_within_absent(flags.spec_flags(), names, shorts, "hidden"@, None);
        }
        let ghost before = flags.spec_flags();
        let ghost pre_flags_7 = flags.spec_flags();
        flags.add(None, "hidden", false, "Include hidden (starting with a dot) files and directories");
        proof { crate::flags::lemma_insertion_keeps(pre_flags_7, flags.spec_flags(), FlagSpec { short: None, long: "hidden"@, help: "Include hidden (starting with a dot) files and directories"@, takes_value: false, default_value: None }); }
        proof {
            let f = FlagSpec {
                short: None,
                long: "hidden"@,
                help: "Include hidden (starting with a dot) files and directories"@,
                takes_value: false,
                default_value: None,
            };
            lemma_within_insert(before, flags.spec_flags(), f, names, shorts);
            names = names.insert("hidden"@);
            shorts = shorts.insert(None);
        }
        proof {
            lemma_within_absent(flags.spec_flags(), names, shorts, "messages"@, None);
        }
        let ghost before = flags.spec_flags();
        let ghost pre_flags_8 = flags.spec_flags();
        flags.add_with_default(None, "messages", false, "Show error messages", Some("true"));
        proof { crate::flags::lemma_insertion_keeps(pre_flags_8, flags.spec_flags(), FlagSpec { short: None, long: "messages"@, help: "Show error messages"@, takes_value: false, default_value: Some("true"@) }); }
        proof {
            let f = FlagSpec {
                short: None,
                long: "messages"@,
                help: "Show error messages"@,
                takes_value: false,
                default_value: Some("true"@),
            };
            lemma_within_insert(before, flags.spec_flags(), f, names, shorts);
            names = names.insert("messages"@);
            shorts = shorts.insert(None);
        }
        Grep { flags }
    }
}

/// What `grep` was asked: the regex searched, the files (none for the
/// standard input), and how files are found and lines printed.
pub struct GrepSettings {
    pub pattern: String,
    pub files: Vec<String>,
    pub ignore_case: bool,
    pub line_number: bool,
    pub invert_match: bool,
    pub with_filename: bool,
    pub no_filename: bool,
    pub hyperlink: bool,
    pub follow: bool,
    pub hidden: bool,
    pub recursive: bool,
    pub silent: bool,
}

impl Grep {
    /// The settings for the arguments `args` that are not flags, with the flags
    /// `flags` given: the first argument is the pattern (made case-insensitive
    /// with `--ignore-case`), which must be a valid regex; the others are files.
    /// Messages are silenced unless `--messages` is given.
    pub fn settings(flags: &CommandFlags, args: &Vec<String>) -> (res: Result<GrepSettings, String>)
        requires
            flags.wf(),
        ensures
            args@.len() == 0 ==> (res matches Err(e) && e@ == "Missing search pattern"@),
            args@.len() > 0 ==> {
                let ic = flags.spec_values().dom().contains("ignore-case"@);
                let p = spec_grep_pattern(args@[0]@, ic);
                match regex_compile(p) {
                    Err(m) => res matches Err(e) && e@ == m,
                    Ok(()) => res matches Ok(st) && st.pattern@ == p && st.files@ == args@.skip(1)
                        && st.ignore_case == ic
                        && st.line_number == flags.spec_values().dom().contains("line-number"@)
                        && st.invert_match == flags.spec_values().dom().contains("invert-match"@)
                        && st.with_filename == flags.spec_values().dom().contains("with-filename"@)
                        && st.no_filename == flags.spec_values().dom().contains("no-filename"@)
                        && st.hyperlink == flags.spec_values().dom().contains("hyperlink"@)
                        && st.follow == flags.spec_values().dom().contains("follow-links"@)
                        && st.hidden == flags.spec_values().dom().contains("hidden"@)
                        && st.recursive == flags.spec_values().dom().contains("recursive"@)
                        && st.silent == !flags.spec_values().dom().contains("messages"@),
                }
            },
    {
        if args.len() == 0 {
            return Err(crate::text::to_owned_string("Missing search pattern"));
        }
        let ignore_case = flags.is_present("ignore-case");
        let pattern = grep_pattern(args[0].as_str(), ignore_case)?;
        let mut files: Vec<String> = Vec::new();
        let mut i: usize = 1;
        while i < args.len()
            invariant
                1 <= i <= args.len(),
                files@ == args@.subrange(1, i as int),
            decreases args.len() - i,
        {
            files.push(args[i].clone());
            proof {
                assert(files@ =~= args@.subrange(1, i + 1));
            }
            i += 1;
        }
        proof {
            assert(args@.subrange(1, args.len() as int) =~= args@.skip(1));
        }
        Ok(GrepSettings {
            pattern,
            files,
            ignore_case,
            line_number: flags.is_present("line-number"),
            invert_match: flags.is_present("invert-match"),
            with_filename: flags.is_present("with-filename"),
            no_filename: flags.is_present("no-filename"),
            hyperlink: flags.is_present("hyperlink"),
            follow: flags.is_present("follow-links"),
            hidden: flags.is_present("hidden"),
            recursive: flags.is_present("recursive"),
            silent: !flags.is_present("messages"),
        })
    }
}

/// What a path is, as the file system says.
#[derive(PartialEq, Eq, Structural, Clone, Copy)]
pub enum PathKind {
    Symlink,
    File,
    Dir,
    Other,
}

/// What the search does with a path given to it: resolve the link and visit
/// what it points to, search the file, search the directory's entries, or
/// warn that it is left out.
pub enum Visit {
    Resolve,
    Search,
    Descend,
    Omit(String),
    Ignore,
}

/// What the search does with `path` (see [`Visit`]): a link is followed only
/// with `--follow-links`, and a directory is searched only with `--recursive`.
pub fn visit(path: &str, kind: PathKind, follow: bool, recursive: bool) -> (res: Visit)
    ensures
        kind == PathKind::Symlink && follow ==> res is Resolve,
        kind == PathKind::Symlink && !follow ==> (res matches Visit::Omit(m) && m@
            == "Omitting symlink (-L/--follow-links option not set): "@ + path@),
        kind == PathKind::File ==> res is Search,
        kind == PathKind::Dir && recursive ==> res is Descend,
        kind == PathKind::Dir && !recursive ==> (res matches Visit::Omit(m) && m@
            == "Omitting directory (-r/--recursive option not set): "@ + path@),
        kind == PathKind::Other ==> res is Ignore,
{
    match kind {
        PathKind::Symlink => if follow {
            Visit::Resolve
        } else {
            Visit::Omit(crate::text::concat("Omitting symlink (-L/--follow-links option not set): ", path))
        },
        PathKind::File => Visit::Search,
        PathKind::Dir => if recursive {
            Visit::Descend
        } else {
            Visit::Omit(crate::text::concat("Omitting directory (-r/--recursive option not set): ", path))
        },
        PathKind::Other => Visit::Ignore,
    }
}

/// Is the directory entry `name` searched: hidden ones (starting with a dot)
/// only with `--hidden`.
pub fn entry_searched(name: &str, hidden: bool) -> (res: bool)
    ensures
        res == (hidden || !(name@.len() > 0 && name@[0] == '.')),
{
    let c = chars_of(name);
    hidden || !(c.len() > 0 && c[0] == '.')
}

/// The directories already searched (by their resolved paths).
pub struct Visited {
    paths: Vec<String>,
}

impl Visited {
    /// The paths searched.
    pub closed spec fn view(&self) -> Set<Seq<char>> {
        self.paths@.map_values(|p: String| p@).to_set()
    }

    /// None yet.
    pub fn new() -> (res: Self)
        ensures
            res.view() == Set::<Seq<char>>::empty(),
    {
        let v = Visited { paths: Vec::new() };
        proof {
            assert(v.view() =~= Set::<Seq<char>>::empty());
        }
        v
    }

    /// Record `path`; returns false if it was recorded already.
    pub fn insert(&mut self, path: &str) -> (res: bool)
        ensures
            res == !old(self).view().contains(path@),
            final(self).view() == old(self).view().insert(path@),
    {
        let ghost pv = self.paths@.map_values(|p: String| p@);
        let mut i: usize = 0;
        while i < self.paths.len()
            invariant
                i <= self.paths.len(),
                pv == self.paths@.map_values(|p: String| p@),
                forall|j: int| 0 <= j < i ==> pv[j] != path@,
            decreases self.paths.len() - i,
        {
            if crate::text::str_eq(self.paths[i].as_str(), path) {
                proof {
                    assert(pv[i as int] == path@);
                    assert(pv.contains(path@));
                    assert(pv.to_set().insert(path@) =~= pv.to_set());
                }
                return false;
            }
            i += 1;
        }
        proof {
            assert(!pv.contains(path@));
        }
        self.paths.push(crate::text::to_owned_string(path));
        proof {
            let nv = self.paths@.map_values(|p: String| p@);
            assert(nv =~= pv.push(path@));
            assert(nv.to_set() =~= pv.to_set().insert(path@)) by {
                assert forall|y: Seq<char>| #[trigger] nv.contains(y) <==> (pv.contains(y) || y == path@) by {
                    if nv.contains(y) {
                        let k = choose|k: int| 0 <= k < nv.len() && nv[k] == y;
                        if k < pv.len() {
                            assert(pv[k] == y);
                        }
                    }
                    if pv.contains(y) {
                        let k = choose|k: int| 0 <= k < pv.len() && pv[k] == y;
                        assert(nv[k] == y);
                    }
                    if y == path@ {
                        assert(nv[pv.len() as int] == y);
                    }
                }
            }
        }
        true
    }
}

} // verus!

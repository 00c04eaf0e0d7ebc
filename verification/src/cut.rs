//! The `cut` command: chosen fields of each line, the fields being the pieces
//! between the matches of a regex.
use vstd::prelude::*;
use crate::expand::{find_char, strings_view};
use crate::flags::{join_space, CommandFlags, FlagSpec, find_long, lemma_insertion_absent};
use crate::grep::{check_regex, regex_compile};
use crate::text::{chars_of, concat, is_whitespace, lead_end, nat_to_decimal, string_of, string_of_range, u64_to_chars, vec_extend};
use crate::value::{parse_count, spec_parse_usize, usize_error};

verus! {

/// The pieces of `text` between the matches of the regex `pattern` (crate
/// `regex`, `Regex::split`).
pub uninterp spec fn regex_fields(pattern: Seq<char>, text: Seq<char>) -> Seq<Seq<char>>;

/// Split `text` at the matches of the regex `pattern` (crate `regex`:
/// `Regex::new`, then `Regex::split`). The contract names the result.
#[verifier::external_body]
fn split_fields(pattern: &str, text: &str) -> (res: Vec<String>)
    requires
        regex_compile(pattern@) is Ok,
    ensures
        strings_view(res@) == regex_fields(pattern@, text@),
{
    match regex::Regex::new(pattern) {
        Ok(re) => re.split(text).map(|s| s.to_string()).collect(),
        Err(_) => Vec::new(),
    }
}

/// The pieces of `s` from position `from` between the characters `c` (as
/// `str::split` with a character: an empty text is one empty piece).
pub open spec fn split_at(s: Seq<char>, c: char, from: int) -> Seq<Seq<char>>
    decreases s.len() - from,
{
    if from < 0 || from > s.len() {
        Seq::empty()
    } else {
        let k = find_char(s, c, from);
        proof {
            lemma_find_char(s, c, from);
        }
        if k < s.len() {
            seq![s.subrange(from, k)] + split_at(s, c, k + 1)
        } else {
            seq![s.subrange(from, s.len() as int)]
        }
    }
}

/// Where `find_char` stops: at `c` or at the end, past no `c`.
pub proof fn lemma_find_char(s: Seq<char>, c: char, from: int)
    requires
        0 <= from <= s.len(),
    ensures
        from <= find_char(s, c, from) <= s.len(),
        find_char(s, c, from) < s.len() ==> s[find_char(s, c, from)] == c,
        forall|k: int| from <= k < find_char(s, c, from) ==> #[trigger] s[k] != c,
    decreases s.len() - from,
{
    if from < s.len() && s[from] != c {
        lemma_find_char(s, c, from + 1);
    }
}

/// The field numbers of a list: each piece read as a `usize`; the first that
/// is not one is an error.
pub open spec fn parse_fields(pieces: Seq<Seq<char>>) -> Result<Seq<nat>, Seq<char>>
    decreases pieces.len(),
{
    if pieces.len() == 0 {
        Ok(Seq::empty())
    } else {
        match parse_fields(pieces.drop_last()) {
            Err(e) => Err(e),
            Ok(ns) => match spec_parse_usize(pieces.last()) {
                Some(n) => Ok(ns.push(n)),
                None => Err("Invalid field number: "@ + usize_error(pieces.last())),
            },
        }
    }
}

/// The chosen fields of `cols` (1-based), or the first number out of range.
pub open spec fn pick_fields(cols: Seq<Seq<char>>, fields: Seq<usize>) -> Result<Seq<Seq<char>>, usize>
    decreases fields.len(),
{
    if fields.len() == 0 {
        Ok(Seq::empty())
    } else {
        match pick_fields(cols, fields.drop_last()) {
            Err(f) => Err(f),
            Ok(picked) => {
                let f = fields.last();
                if f == 0 || f > cols.len() {
                    Err(f)
                } else {
                    Ok(picked.push(cols[f - 1]))
                }
            },
        }
    }
}

/// What `cut` prints for `line`: the chosen fields of the line without its
/// leading white space, joined by spaces; or the error for a field out of range.
pub open spec fn cut_result(line: Seq<char>, delimiter: Seq<char>, fields: Seq<usize>) -> Result<
    Seq<char>,
    Seq<char>,
> {
    let cols = regex_fields(delimiter, line.skip(lead_end(line, 0)));
    match pick_fields(cols, fields) {
        Ok(picked) => Ok(join_space(picked)),
        Err(f) => Err("Field index "@ + nat_to_decimal(f as nat) + " is out of range"@),
    }
}

/// The delimiter and fields of a `cut`.
pub struct CutOptions {
    pub delimiter: String,
    pub fields: Vec<usize>,
}

/// The output line of `cut` for `line` (see [`cut_result`]); an invalid
/// delimiter is an error too (as [`CutCommand::options`] reports it).
pub fn cut_line(line: &str, options: &CutOptions) -> (res: Result<String, String>)
    ensures
        match regex_compile(options.delimiter@) {
            Err(m) => res matches Err(e) && e@ == "Invalid regex delimiter: "@ + m,
            Ok(()) => match cut_result(line@, options.delimiter@, options.fields@) {
                Ok(t) => res matches Ok(s) && s@ == t,
                Err(m) => res matches Err(e) && e@ == m,
            },
        },
{
    match check_regex(options.delimiter.as_str()) {
        Ok(()) => {},
        Err(m) => {
            return Err(concat("Invalid regex delimiter: ", m.as_str()));
        },
    }
    let t = chars_of(line);
    let mut a: usize = 0;
    while a < t.len() && is_whitespace(t[a])
        invariant
            a <= t.len(),
            lead_end(t@, 0) == lead_end(t@, a as int),
        decreases t.len() - a,
    {
        a += 1;
    }
    let rest = string_of_range(&t, a, t.len());
    proof {
        assert(rest@ =~= line@.skip(lead_end(line@, 0)));
    }
    let cols = split_fields(options.delimiter.as_str(), rest.as_str());
    let ghost cv = strings_view(cols@);
    let fields = &options.fields;
    let mut out: Vec<char> = Vec::new();
    let mut i: usize = 0;
    while i < fields.len()
        invariant
            i <= fields.len(),
            cv == strings_view(cols@),
            cv == regex_fields(options.delimiter@, line@.skip(lead_end(line@, 0))),
            fields@ == options.fields@,
            regex_compile(options.delimiter@) is Ok,
            pick_fields(cv, fields@.take(i as int)) matches Ok(p) && out@ == join_space(p) && p.len() == i,
        decreases fields.len() - i,
    {
        let f = fields[i];
        proof {
            assert(fields@.take(i + 1).drop_last() =~= fields@.take(i as int));
        }
        if f == 0 || f > cols.len() {
            let mut m = chars_of("Field index ");
            let d = u64_to_chars(f as u64);
            vec_extend(&mut m, &d);
            let tail = chars_of(" is out of range");
            vec_extend(&mut m, &tail);
            proof {
                lemma_pick_error(cv, fields@, i as int);
                assert(fields@.take(fields.len() as int) =~= fields@);
                assert(pick_fields(cv, fields@.take(fields.len() as int)) == Err::<Seq<Seq<char>>, usize>(f));
            }
            return Err(string_of(&m));
        }
        let ghost p = pick_fields(cv, fields@.take(i as int))->Ok_0;
        if i > 0 {
            out.push(' ');
        }
        let c = chars_of(cols[f - 1].as_str());
        vec_extend(&mut out, &c);
        proof {
            let q = p.push(cv[f - 1]);
            assert(q.drop_last() =~= p);
            assert(pick_fields(cv, fields@.take(i + 1)) == Ok::<Seq<Seq<char>>, usize>(q));
            assert(join_space(q) == join_space(p) + seq![' '] + q.last() || p.len() == 0);
            if p.len() == 0 {
                assert(join_space(q) == q[0]);
            }
        }
        i += 1;
    }
    proof {
        assert(fields@.take(fields.len() as int) =~= fields@);
    }
    Ok(string_of(&out))
}

/// Once a field is out of range, the pick fails with it, whatever follows.
proof fn lemma_pick_error(cols: Seq<Seq<char>>, fields: Seq<usize>, i: int)
    requires
        0 <= i < fields.len(),
        pick_fields(cols, fields.take(i)) is Ok,
        fields[i] == 0 || fields[i] > cols.len(),
    ensures
        forall|j: int| i < j <= fields.len() ==> #[trigger] pick_fields(cols, fields.take(j)) == Err::<Seq<Seq<char>>, usize>(fields[i]),
{
    assert forall|j: int| i < j <= fields.len() implies #[trigger] pick_fields(cols, fields.take(j)) == Err::<
        Seq<Seq<char>>,
        usize,
    >(fields[i]) by {
        lemma_pick_error_at(cols, fields, i, j);
    }
}

/// See [`lemma_pick_error`].
proof fn lemma_pick_error_at(cols: Seq<Seq<char>>, fields: Seq<usize>, i: int, j: int)
    requires
        0 <= i < j <= fields.len(),
        pick_fields(cols, fields.take(i)) is Ok,
        fields[i] == 0 || fields[i] > cols.len(),
    ensures
        pick_fields(cols, fields.take(j)) == Err::<Seq<Seq<char>>, usize>(fields[i]),
    decreases j - i,
{
    assert(fields.take(j).drop_last() =~= fields.take(j - 1));
    if j > i + 1 {
        lemma_pick_error_at(cols, fields, i, j - 1);
    }
}

/// The `cut` command and its flags.
pub struct CutCommand {
    pub flags: CommandFlags,
}

impl CutCommand {
    /// The command with its flags: `--delimiter` and `--fields` (values).
    pub fn new() -> (res: Self)
        ensures
            res.flags.wf(),
            res.flags.spec_flags().len() == 3,
            res.flags.spec_flags().contains(FlagSpec { short: Some('?'), long: "help"@, help: "Display this help message"@, takes_value: false, default_value: None }),
            res.flags.spec_flags().contains(FlagSpec { short: Some('d'), long: "delimiter"@, help: "Specify the regex delimiter (default: tab)"@, takes_value: true, default_value: None }),
            res.flags.spec_flags().contains(FlagSpec { short: Some('f'), long: "fields"@, help: "Specify the fields to extract (comma-separated list)"@, takes_value: true, default_value: None }),
    {
        let mut flags = CommandFlags::with_help();
        proof { assert(flags.spec_flags()[0] == FlagSpec { short: Some('?'), long: "help"@, help: "Display this help message"@, takes_value: false, default_value: None }); }
        proof {
            reveal_strlit("help");
            reveal_strlit("delimiter");
            reveal_strlit("fields");
        }
        let ghost f0 = flags.spec_flags();
        assert("help"@.len() == 4);
        assert("delimiter"@.len() == 9);
        assert("fields"@.len() == 6);
        assert(find_long(f0, "delimiter"@) is None);
        assert(find_long(f0, "fields"@) is None);
        let ghost pre_flags_0 = flags.spec_flags();
        flags.add_option('d', "delimiter", "Specify the regex delimiter (default: tab)");
        proof { crate::flags::lemma_insertion_keeps(pre_flags_0, flags.spec_flags(), FlagSpec { short: Some('d'), long: "delimiter"@, help: "Specify the regex delimiter (default: tab)"@, takes_value: true, default_value: None }); }
        proof {
            let f = FlagSpec {
                short: Some('d'),
                long: "delimiter"@,
                help: "Specify the regex delimiter (default: tab)"@,
                takes_value: true,
                default_value: None,
            };
            lemma_insertion_absent(f0, flags.spec_flags(), f, "fields"@, 'f');
        }
        let ghost pre_flags_1 = flags.spec_flags();
        flags.add_option('f', "fields", "Specify the fields to extract (comma-separated list)");
        proof { crate::flags::lemma_insertion_keeps(pre_flags_1, flags.spec_flags(), FlagSpec { short: Some('f'), long: "fields"@, help: "Specify the fields to extract (comma-separated list)"@, takes_value: true, default_value: None }); }
        CutCommand { flags }
    }

    /// What the command does, for its help.
    pub fn mode_specific_help(&self) -> (res: &'static str)
        ensures
            res@ == "Extract specific fields or columns from files or standard input using regex delimiters."@,
    {
        "Extract specific fields or columns from files or standard input using regex delimiters."
    }

    /// The delimiter (`--delimiter`, a tab without it), which must be a valid
    /// regex, and the field numbers (`--fields`, a comma-separated list, which
    /// must be given).
    pub fn options(&self) -> (res: Result<CutOptions, String>)
        requires
            self.flags.wf(),
        ensures
            ({
                let delimiter = match self.flags.spec_option("delimiter"@) {
                    Some(d) => d,
                    None => seq!['\t'],
                };
                match regex_compile(delimiter) {
                    Err(m) => res matches Err(e) && e@ == "Invalid regex delimiter: "@ + m,
                    Ok(()) => match self.flags.spec_option("fields"@) {
                        None => res matches Err(e) && e@ == "Fields option is required."@,
                        Some(list) => match parse_fields(split_at(list, ',', 0)) {
                            Err(m) => res matches Err(e) && e@ == m,
                            Ok(ns) => res matches Ok(o) && o.delimiter@ == delimiter && o.fields@.len()
                                == ns.len() && forall|k: int| 0 <= k < ns.len() ==> #[trigger] o.fields@[k] as nat
                                == ns[k],
                        },
                    },
                }
            }),
    {
        let delimiter = match self.flags.option("delimiter") {
            Some(d) => crate::text::to_owned_string(d),
            None => {
                let mut t = String::new();
                crate::text::push_char(&mut t, '\t');
                proof {
                    assert(t@ =~= seq!['\t']);
                }
                t
            },
        };
        match check_regex(delimiter.as_str()) {
            Ok(()) => {},
            Err(m) => {
                return Err(concat("Invalid regex delimiter: ", m.as_str()));
            },
        }
        let list = match self.flags.option("fields") {
            Some(l) => chars_of(l),
            None => {
                return Err(crate::text::to_owned_string("Fields option is required."));
            },
        };
        let mut fields: Vec<usize> = Vec::new();
        let mut start: usize = 0;
        let ghost mut pieces: Seq<Seq<char>> = Seq::empty();
        loop
            invariant_except_break
                pieces + split_at(list@, ',', start as int) == split_at(list@, ',', 0),
            invariant
                start <= list.len(),
                regex_compile(delimiter@) is Ok,
                self.flags.spec_option("fields"@) == Some(list@),
                delimiter@ == (match self.flags.spec_option("delimiter"@) {
                    Some(d) => d,
                    None => seq!['\t'],
                }),
                parse_fields(pieces) matches Ok(ns) && fields@.len() == ns.len() && forall|k: int|
                    0 <= k < ns.len() ==> #[trigger] fields@[k] as nat == ns[k],
            ensures
                pieces == split_at(list@, ',', 0),
                parse_fields(pieces) matches Ok(ns) && fields@.len() == ns.len() && forall|k: int|
                    0 <= k < ns.len() ==> #[trigger] fields@[k] as nat == ns[k],
            decreases list.len() - start,
        {
            proof {
                lemma_find_char(list@, ',', start as int);
            }
            let mut k = start;
            while k < list.len() && list[k] != ','
                invariant
                    start <= k <= list.len(),
                    find_char(list@, ',', start as int) == find_char(list@, ',', k as int),
                decreases list.len() - k,
            {
                k += 1;
            }
            let piece = string_of_range(&list, start, k);
            let ghost p = list@.subrange(start as int, k as int);
            let rest_more = k < list.len();
            let ghost rest = if rest_more { split_at(list@, ',', k + 1) } else { Seq::<Seq<char>>::empty() };
            proof {
                assert(k == find_char(list@, ',', start as int));
                assert(split_at(list@, ',', start as int) == seq![p] + rest);
                assert(pieces.push(p) + rest =~= pieces + (seq![p] + rest));
                assert(pieces.push(p).drop_last() =~= pieces);
            }
            match parse_count(piece.as_str()) {
                Ok(n) => {
                    fields.push(n);
                },
                Err(e) => {
                    proof {
                        let all = split_at(list@, ',', 0);
                        assert(all =~= pieces.push(p) + rest);
                        assert(all.take(pieces.len() + 1int) =~= pieces.push(p));
                        assert(piece@ == p);
                        assert(parse_fields(pieces.push(p)) == Err::<Seq<nat>, Seq<char>>(
                            "Invalid field number: "@ + usize_error(p),
                        ));
                        lemma_parse_fields_error(pieces.push(p), all);

                    }
                    return Err(concat("Invalid field number: ", e.as_str()));
                },
            }
            proof {
                pieces = pieces.push(p);
            }
            if !rest_more {
                proof {
                    assert(pieces =~= split_at(list@, ',', 0));
                }
                break;
            }
            start = k + 1;
        }
        Ok(CutOptions { delimiter, fields })
    }
}

/// Once a prefix of the pieces fails to parse, so do all the pieces.
proof fn lemma_parse_fields_error(prefix: Seq<Seq<char>>, all: Seq<Seq<char>>)
    requires
        prefix.len() <= all.len(),
        all.take(prefix.len() as int) == prefix,
        parse_fields(prefix) is Err,
    ensures
        parse_fields(all) == parse_fields(prefix),
    decreases all.len(),
{
    if all.len() > prefix.len() {
        assert(all.drop_last().take(prefix.len() as int) =~= prefix);
        lemma_parse_fields_error(prefix, all.drop_last());
    } else {
        assert(all =~= prefix);
    }
}

} // verus!

//! The `strings` command: the runs of printable ASCII (letters, digits and
//! white space) in binary data, as long as asked.
use vstd::prelude::*;
use crate::expand::strings_view;
use crate::flags::{CommandFlags, FlagSpec, find_long, find_short, lemma_insertion_absent};
use crate::text::to_owned_string;
use crate::value::{parse_count, spec_parse_usize, usize_error};

verus! {

/// Is `b` an ASCII letter or digit, or ASCII white space (space, tab, line
/// feed, form feed, carriage return)?
pub open spec fn is_printable(b: u8) -> bool {
    ||| (48 <= b && b <= 57)
    ||| (65 <= b && b <= 90)
    ||| (97 <= b && b <= 122)
    ||| b == 32 || b == 9 || b == 10 || b == 12 || b == 13
}

/// The end of the run of printable bytes that starts at `i`.
pub open spec fn run_end(d: Seq<u8>, i: int) -> int
    decreases d.len() - i,
{
    if 0 <= i < d.len() && is_printable(d[i]) {
        run_end(d, i + 1)
    } else {
        i
    }
}

/// The characters of ASCII bytes.
pub open spec fn ascii_text(b: Seq<u8>) -> Seq<char> {
    b.map_values(|x: u8| x as char)
}

/// The runs of printable bytes in `d` from position `i`, each as long as
/// possible, that have at least `min` bytes.
pub open spec fn strings_from(d: Seq<u8>, i: int, min: nat) -> Seq<Seq<char>>
    decreases d.len() - i,
{
    if i < 0 || i >= d.len() {
        Seq::empty()
    } else if !is_printable(d[i]) {
        strings_from(d, i + 1, min)
    } else {
        let e = run_end(d, i);
        proof {
            lemma_run_end(d, i);
        }
        if e - i >= min {
            seq![ascii_text(d.subrange(i, e))] + strings_from(d, e, min)
        } else {
            strings_from(d, e, min)
        }
    }
}

/// A run that starts with a printable byte ends after it, within the data,
/// and holds only printable bytes.
pub proof fn lemma_run_end(d: Seq<u8>, i: int)
    requires
        0 <= i < d.len(),
        is_printable(d[i]),
    ensures
        i < run_end(d, i) <= d.len(),
        forall|k: int| i <= k < run_end(d, i) ==> is_printable(#[trigger] d[k]),
        run_end(d, i) < d.len() ==> !is_printable(d[run_end(d, i)]),
    decreases d.len() - i,
{
    if i + 1 < d.len() && is_printable(d[i + 1]) {
        lemma_run_end(d, i + 1);
    } else {
        assert(run_end(d, i + 1) == i + 1);
    }
}

/// Is `b` printable (see [`is_printable`])?
fn printable(b: u8) -> (res: bool)
    ensures
        res == is_printable(b),
{
    (48 <= b && b <= 57) || (65 <= b && b <= 90) || (97 <= b && b <= 122) || b == 32 || b == 9 || b == 10 || b
        == 12 || b == 13
}

/// The strings of `data` (see [`strings_from`]) that have at least `min_length`
/// bytes, in order.
pub fn process_strings(data: &[u8], min_length: usize) -> (res: Vec<String>)
    ensures
        strings_view(res@) == strings_from(data@, 0, min_length as nat),
{
    let ghost d = data@;
    let ghost min = min_length as nat;
    let mut out: Vec<String> = Vec::new();
    let mut i: usize = 0;
    while i < data.len()
        invariant
            d == data@,
            min == min_length as nat,
            i <= data.len(),
            strings_view(out@) + strings_from(d, i as int, min) == strings_from(d, 0, min),
        decreases data.len() - i,
    {
        if !printable(data[i]) {
            proof {
                assert(strings_from(d, i as int, min) == strings_from(d, i + 1, min));
            }
            i += 1;
        } else {
            let start = i;
            proof {
                lemma_run_end(d, i as int);
                assert(strings_view(out@) + strings_from(d, start as int, min) == strings_from(d, 0, min));
            }
            let mut run = String::new();
            while i < data.len() && printable(data[i])
                invariant
                    d == data@,
                    start <= i <= data.len(),
                    start < data.len(),
                    is_printable(d[start as int]),
                    run_end(d, start as int) == run_end(d, i as int),
                    run@ == ascii_text(d.subrange(start as int, i as int)),
                decreases data.len() - i,
            {
                let c = data[i] as char;
                crate::text::push_char(&mut run, c);
                proof {
                    assert(d.subrange(start as int, i + 1) =~= d.subrange(start as int, i as int).push(d[i as int]));
                    assert(ascii_text(d.subrange(start as int, i + 1)) =~= ascii_text(
                        d.subrange(start as int, i as int),
                    ).push(c));
                }
                i += 1;
            }
            let ghost t = ascii_text(d.subrange(start as int, i as int));
            proof {
                assert(i == run_end(d, start as int));
                assert(strings_from(d, start as int, min) == (if i - start >= min {
                    seq![t] + strings_from(d, i as int, min)
                } else {
                    strings_from(d, i as int, min)
                }));
            }
            let ghost before = strings_view(out@);
            if i - start >= min_length {
                out.push(run);
                proof {
                    assert(strings_view(out@) =~= before.push(t));
                    let rest = strings_from(d, i as int, min);
                    assert(before.push(t) + rest =~= before + (seq![t] + rest));
                }
            }
        }
    }
    proof {
        assert(strings_view(out@) + strings_from(d, i as int, min) =~= strings_view(out@));
    }
    out
}

/// The `strings` command and its flags.
pub struct StringsCommand {
    pub flags: CommandFlags,
}

impl StringsCommand {
    /// The command with its flags: `--min-length` (a value) and `--help`.
    pub fn new() -> (res: Self)
        ensures
            res.flags.wf(),
            res.flags.spec_flags().len() == 2,
            res.flags.spec_flags().contains(FlagSpec { short: Some('n'), long: "min-length"@, help: "Specify the minimum length of strings to output"@, takes_value: true, default_value: None }),
            res.flags.spec_flags().contains(FlagSpec { short: Some('?'), long: "help"@, help: "Display this help message"@, takes_value: false, default_value: None }),
    {
        let mut flags = CommandFlags::new();
        proof {
            reveal_strlit("min-length");
            reveal_strlit("help");
        }
        assert("min-length"@.len() == 10);
        assert("help"@.len() == 4);
        let ghost f0 = flags.spec_flags();
        let ghost pre_flags_0 = flags.spec_flags();
        flags.add_option('n', "min-length", "Specify the minimum length of strings to output");
        proof { crate::flags::lemma_insertion_keeps(pre_flags_0, flags.spec_flags(), FlagSpec { short: Some('n'), long: "min-length"@, help: "Specify the minimum length of strings to output"@, takes_value: true, default_value: None }); }
        proof {
            let f = FlagSpec {
                short: Some('n'),
                long: "min-length"@,
                help: "Specify the minimum length of strings to output"@,
                takes_value: true,
                default_value: None,
            };
            lemma_insertion_absent(f0, flags.spec_flags(), f, "help"@, '?');
        }
        let ghost pre_flags_1 = flags.spec_flags();
        flags.add_flag('?', "help", "Display this help message");
        proof { crate::flags::lemma_insertion_keeps(pre_flags_1, flags.spec_flags(), FlagSpec { short: Some('?'), long: "help"@, help: "Display this help message"@, takes_value: false, default_value: None }); }
        StringsCommand { flags }
    }

    /// What the command does, for its help.
    pub fn mode_specific_help(&self) -> (res: &'static str)
        ensures
            res@ == "Output printable strings from files."@,
    {
        "Output printable strings from files."
    }

    /// The minimum length of a string: the value of `--min-length`, 4 without
    /// it; the error names the value.
    pub fn min_length(&self) -> (res: Result<usize, String>)
        requires
            self.flags.wf(),
        ensures
            match self.flags.spec_option("min-length"@) {
                None => res == Ok::<usize, String>(4),
                Some(v) => match spec_parse_usize(v) {
                    Some(n) => res matches Ok(x) && x as nat == n,
                    None => res matches Err(e) && e@ == v + ": "@ + usize_error(v),
                },
            },
    {
        match self.flags.option("min-length") {
            None => Ok(4),
            Some(v) => match parse_count(v) {
                Ok(n) => Ok(n),
                Err(e) => Err(crate::text::concat3(v, ": ", e.as_str())),
            },
        }
    }
}

} // verus!

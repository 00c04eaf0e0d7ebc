//! The `cat`, `head` and `tail` commands: the lines of their input, all of
//! them, the first ones or the last ones, optionally numbered and reduced to
//! ASCII.
use vstd::prelude::*;
use crate::expand::strings_view;
use crate::flags::{CommandFlags, FlagSpec, find_long, lemma_insertion_absent};
use crate::help::spaces;
use crate::text::{nat_to_decimal, string_of, u64_to_chars, vec_extend};
use crate::value::{parse_count, spec_parse_usize, usize_error};

verus! {

/// Which lines are shown: all, the first ones, or the last ones.
#[derive(PartialEq, Eq, Structural, Clone, Copy)]
pub enum Mode {
    Cat,
    Head,
    Tail,
}

/// The text that `String::from_utf8_lossy` makes of `bytes`: each invalid
/// sequence replaced by U+FFFD.
pub uninterp spec fn utf8_lossy(bytes: Seq<u8>) -> Seq<char>;

/// The characters of ASCII bytes.
pub open spec fn ascii_chars(b: Seq<u8>) -> Seq<char> {
    b.map_values(|x: u8| x as char)
}

/// Decode `bytes` as UTF-8, replacing what is not valid (`String::from_utf8_lossy`).
/// Valid UTF-8 decodes to its own characters; of ASCII, that is the bytes.
#[verifier::external_body]
pub(crate) fn decode_lossy(bytes: &[u8]) -> (res: String)
    ensures
        res@ == utf8_lossy(bytes@),
        (forall|i: int| 0 <= i < bytes@.len() ==> bytes@[i] < 128) ==> res@ == ascii_chars(bytes@),
{
    String::from_utf8_lossy(bytes).to_string()
}

/// The position of the first line feed in `d` at or after `s`, or the length.
pub open spec fn line_end(d: Seq<u8>, s: int) -> int
    decreases d.len() - s,
{
    if 0 <= s < d.len() && d[s] != 10 {
        line_end(d, s + 1)
    } else {
        s
    }
}

/// The lines of `d` from position `s`: the pieces between line feeds, and the
/// piece after the last one if it is not empty.
pub open spec fn lines_from(d: Seq<u8>, s: int) -> Seq<Seq<u8>>
    decreases d.len() - s,
{
    if s < 0 || s >= d.len() {
        Seq::empty()
    } else {
        let k = line_end(d, s);
        proof {
            lemma_line_end(d, s);
        }
        if k < d.len() {
            seq![d.subrange(s, k)] + lines_from(d, k + 1)
        } else {
            seq![d.subrange(s, k)]
        }
    }
}

/// The end of a line lies in the data, at a line feed or at the end.
pub proof fn lemma_line_end(d: Seq<u8>, s: int)
    requires
        0 <= s <= d.len(),
    ensures
        s <= line_end(d, s) <= d.len(),
        line_end(d, s) < d.len() ==> d[line_end(d, s)] == 10,
        forall|k: int| s <= k < line_end(d, s) ==> #[trigger] d[k] != 10,
    decreases d.len() - s,
{
    if s < d.len() && d[s] != 10 {
        lemma_line_end(d, s + 1);
    }
}

/// The ASCII bytes of `b` other than NUL, as characters.
pub open spec fn ascii_only(b: Seq<u8>) -> Seq<char>
    decreases b.len(),
{
    if b.len() == 0 {
        Seq::empty()
    } else if b.last() != 0 && b.last() < 128 {
        ascii_only(b.drop_last()).push(b.last() as char)
    } else {
        ascii_only(b.drop_last())
    }
}

/// The text of a line: its ASCII characters only, or its bytes decoded.
pub open spec fn line_text(b: Seq<u8>, text_out: bool) -> Seq<char> {
    if text_out {
        ascii_only(b)
    } else {
        utf8_lossy(b)
    }
}

/// `s` padded on the left with spaces to at least `w` characters.
pub open spec fn pad_left(s: Seq<char>, w: nat) -> Seq<char> {
    if s.len() >= w {
        s
    } else {
        spaces((w - s.len()) as nat) + s
    }
}

/// Line `t`, the `n`-th, with its number in front if asked.
pub open spec fn numbered(n: nat, t: Seq<char>, line_numbers: bool) -> Seq<char> {
    if line_numbers {
        pad_left(nat_to_decimal(n), 6) + seq![':', ' '] + t
    } else {
        t
    }
}

/// All the lines of `d`, as shown.
pub open spec fn shown_lines(d: Seq<u8>, line_numbers: bool, text_out: bool) -> Seq<Seq<char>> {
    let ls = lines_from(d, 0);
    Seq::new(ls.len(), |k: int| numbered((k + 1) as nat, line_text(ls[k], text_out), line_numbers))
}

/// The lines that the command shows of `d`: all for `cat`; the first `n` for
/// `head`; the last `n` for `tail`, all of them if `n` is 0.
pub open spec fn selected(all: Seq<Seq<char>>, mode: Mode, n: nat) -> Seq<Seq<char>> {
    match mode {
        Mode::Cat => all,
        Mode::Head => if n < all.len() {
            all.take(n as int)
        } else {
            all
        },
        Mode::Tail => if n == 0 || n >= all.len() {
            all
        } else {
            all.skip(all.len() - n)
        },
    }
}

/// The text of a line (see [`line_text`]).
fn text_of_line(b: &[u8], text_out: bool) -> (res: Vec<char>)
    ensures
        res@ == line_text(b@, text_out),
{
    if !text_out {
        let s = decode_lossy(b);
        return crate::text::chars_of(s.as_str());
    }
    let mut out: Vec<char> = Vec::new();
    let mut i: usize = 0;
    while i < b.len()
        invariant
            i <= b.len(),
            out@ == ascii_only(b@.take(i as int)),
        decreases b.len() - i,
    {
        proof {
            assert(b@.take(i + 1).drop_last() =~= b@.take(i as int));
        }
        if b[i] != 0 && b[i] < 128 {
            out.push(b[i] as char);
        }
        i += 1;
    }
    proof {
        assert(b@.take(b.len() as int) =~= b@);
    }
    out
}

/// The decimal digits of `n`, padded on the left to 6 characters, then `: `.
fn line_number(n: u64) -> (res: Vec<char>)
    ensures
        res@ == pad_left(nat_to_decimal(n as nat), 6) + seq![':', ' '],
{
    let digits = u64_to_chars(n);
    let mut out: Vec<char> = Vec::new();
    let mut k: usize = digits.len();
    while k < 6
        invariant
            digits.len() <= k <= 6 || (k == digits.len() && k >= 6),
            out@ == spaces((k - digits.len()) as nat),
        decreases 6 - k,
    {
        out.push(' ');
        proof {
            assert(out@ =~= spaces((k + 1 - digits.len()) as nat));
        }
        k += 1;
    }
    vec_extend(&mut out, &digits);
    out.push(':');
    out.push(' ');
    proof {
        if digits.len() >= 6 {
            assert(out@ =~= digits@ + seq![':', ' ']);
        } else {
            assert(out@ =~= spaces((6 - digits.len()) as nat) + digits@ + seq![':', ' ']);
        }
    }
    out
}

/// The lines that `cat`, `head` or `tail` (`mode`) shows of `data`, numbered
/// if `line_numbers`, reduced to ASCII if `text_out`; `lines` is the count for
/// `head` and `tail`.
pub fn process_input(data: &[u8], mode: Mode, line_numbers: bool, text_out: bool, lines: usize) -> (res: Vec<String>)
    requires
        data@.len() < u64::MAX,
    ensures
        strings_view(res@) == selected(shown_lines(data@, line_numbers, text_out), mode, lines as nat),
{
    let ghost d = data@;
    let ghost all = lines_from(d, 0);
    let mut out: Vec<String> = Vec::new();
    let ghost mut done: Seq<Seq<u8>> = Seq::empty();
    let mut start: usize = 0;
    let mut count: u64 = 0;
    while start < data.len()
        invariant
            d == data@,
            d.len() < u64::MAX,
            all == lines_from(d, 0),
            start <= data.len(),
            count as int == done.len(),
            count <= start,
            done + lines_from(d, start as int) == all,
            out@.len() == done.len(),
            forall|k: int| 0 <= k < done.len() ==> #[trigger] out@[k]@ == numbered(
                (k + 1) as nat,
                line_text(done[k], text_out),
                line_numbers,
            ),
        decreases data.len() - start,
    {
        proof {
            lemma_line_end(d, start as int);
        }
        let mut k = start;
        while k < data.len() && data[k] != 10
            invariant
                d == data@,
                start <= k <= data.len(),
                start < data.len(),
                line_end(d, start as int) == line_end(d, k as int),
            decreases data.len() - k,
        {
            k += 1;
        }
        let piece = slice_of(data, start, k);
        let t = text_of_line(piece.as_slice(), text_out);
        count = count + 1;
        let text = if line_numbers {
            let mut l = line_number(count);
            vec_extend(&mut l, &t);
            l
        } else {
            t
        };
        out.push(string_of(&text));
        proof {
            let p = d.subrange(start as int, k as int);
            assert(k == line_end(d, start as int));
            let rest = if k < d.len() { lines_from(d, k + 1) } else { Seq::<Seq<u8>>::empty() };
            assert(lines_from(d, start as int) == seq![p] + rest);
            assert(done.push(p) + rest =~= done + (seq![p] + rest));
            done = done.push(p);
            if k >= d.len() {
                assert(lines_from(d, d.len() as int) =~= Seq::<Seq<u8>>::empty());
            }
        }
        start = if k < data.len() { k + 1 } else { k };
        proof {
            assert(done + lines_from(d, start as int) == all);
        }
    }
    proof {
        assert(lines_from(d, start as int) =~= Seq::<Seq<u8>>::empty());
        assert(done =~= all);
        let sh = shown_lines(d, line_numbers, text_out);
        assert(strings_view(out@) =~= sh);
    }
    let n = out.len();
    let (from, to): (usize, usize) = match mode {
        Mode::Cat => (0, n),
        Mode::Head => (0, if lines < n { lines } else { n }),
        Mode::Tail => (if lines == 0 || lines >= n { 0 } else { n - lines }, n),
    };
    let mut res: Vec<String> = Vec::new();
    let mut j = from;
    while j < to
        invariant
            from <= j <= to <= n,
            n == out.len(),
            strings_view(res@) =~= strings_view(out@).subrange(from as int, j as int),
        decreases to - j,
    {
        let ghost before = strings_view(res@);
        res.push(crate::text::to_owned_string(out[j].as_str()));
        proof {
            assert(strings_view(res@) =~= before.push(out@[j as int]@));
            assert(strings_view(out@).subrange(from as int, j + 1) =~= strings_view(out@).subrange(
                from as int,
                j as int,
            ).push(out@[j as int]@));
        }
        j += 1;
    }
    proof {
        let sh = strings_view(out@);
        assert(sh.take(to as int) =~= sh.subrange(0, to as int));
        assert(sh.skip(from as int) =~= sh.subrange(from as int, n as int));
        assert(sh.subrange(0, n as int) =~= sh);
    }
    res
}

/// The bytes of `data` from `start` to `end`.
fn slice_of(data: &[u8], start: usize, end: usize) -> (res: Vec<u8>)
    requires
        start <= end <= data@.len(),
    ensures
        res@ == data@.subrange(start as int, end as int),
{
    let mut v: Vec<u8> = Vec::new();
    let mut i = start;
    while i < end
        invariant
            start <= i <= end <= data@.len(),
            v@ == data@.subrange(start as int, i as int),
        decreases end - i,
    {
        v.push(data[i]);
        proof {
            assert(v@ =~= data@.subrange(start as int, i + 1));
        }
        i += 1;
    }
    v
}

/// The `cat`, `head` or `tail` command, and its flags.
pub struct CatHeadTail {
    pub flags: CommandFlags,
    pub mode: Mode,
}

impl CatHeadTail {
    /// The command with its flags: `--number`, `--text`, and for `head` and
    /// `tail`, `--lines` (a value).
    pub fn new(mode: Mode) -> (res: Self)
        ensures
            res.flags.wf(),
            res.mode == mode,
    {
        let mut flags = CommandFlags::with_help();
        proof {
            reveal_strlit("help");
            reveal_strlit("number");
            reveal_strlit("text");
            reveal_strlit("lines");
        }
        let ghost f0 = flags.spec_flags();
        assert("help"@.len() == 4);
        assert("number"@.len() == 6);
        assert("text"@.len() == 4);
        assert("lines"@.len() == 5);
        assert("help"@[0] != "text"@[0]);
        assert(find_long(f0, "number"@) is None);
        assert(find_long(f0, "text"@) is None);
        assert(find_long(f0, "lines"@) is None);
        flags.add_flag('n', "number", "Number output lines");
        proof {
            let f = FlagSpec {
                short: Some('n'),
                long: "number"@,
                help: "Number output lines"@,
                takes_value: false,
                default_value: None,
            };
            lemma_insertion_absent(f0, flags.spec_flags(), f, "text"@, 'a');
            lemma_insertion_absent(f0, flags.spec_flags(), f, "lines"@, 'l');
        }
        let ghost f1 = flags.spec_flags();
        flags.add_flag('a', "text", "Transcode to ASCII");
        proof {
            let f = FlagSpec {
                short: Some('a'),
                long: "text"@,
                help: "Transcode to ASCII"@,
                takes_value: false,
                default_value: None,
            };
            lemma_insertion_absent(f1, flags.spec_flags(), f, "lines"@, 'l');
        }
        if mode != Mode::Cat {
            flags.add_option('l', "lines", "Specify the number of lines to output");
        }
        CatHeadTail { flags, mode }
    }

    /// What the command does, for its help.
    pub fn mode_specific_help(&self) -> (res: &'static str)
        ensures
            self.mode == Mode::Cat ==> res@ == "Concatenate FILE(s) to standard output."@,
            self.mode == Mode::Head ==> res@ == "Output the first part of files."@,
            self.mode == Mode::Tail ==> res@ == "Output the last part of files."@,
    {
        match self.mode {
            Mode::Cat => "Concatenate FILE(s) to standard output.",
            Mode::Head => "Output the first part of files.",
            Mode::Tail => "Output the last part of files.",
        }
    }

    /// The number of lines for `head` and `tail`: the value of `--lines`, 10
    /// without it; the error names the value.
    pub fn line_count(&self) -> (res: Result<usize, String>)
        requires
            self.flags.wf(),
        ensures
            match self.flags.spec_option("lines"@) {
                None => res == Ok::<usize, String>(10),
                Some(v) => match spec_parse_usize(v) {
                    Some(n) => res matches Ok(x) && x as nat == n,
                    None => res matches Err(e) && e@ == v + ": "@ + usize_error(v),
                },
            },
    {
        match self.flags.option("lines") {
            None => Ok(10),
            Some(v) => match parse_count(v) {
                Ok(n) => Ok(n),
                Err(e) => Err(crate::text::concat3(v, ": ", e.as_str())),
            },
        }
    }
}

} // verus!

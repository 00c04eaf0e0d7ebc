//! The `wc` command: the lines, words, characters and bytes of its input, and
//! how they are printed.
use vstd::prelude::*;
use crate::cat::{decode_lossy, lemma_line_end, line_end, lines_from, pad_left, utf8_lossy};
use crate::flags::{CommandFlags, FlagSpec, find_long, lemma_insertion_absent};
use crate::pager::{char_width, utf8_len};
use crate::text::{chars_of, is_whitespace, nat_to_decimal, spec_is_whitespace, string_of, u64_to_chars, vec_extend};

verus! {

/// The counts of `wc`.
pub struct CountResult {
    pub lines: usize,
    pub words: usize,
    pub chars: usize,
    pub bytes: usize,
}

/// The number of words of `t`: the runs of characters that are not white
/// space (as `str::split_whitespace` finds them).
pub open spec fn word_count(t: Seq<char>) -> nat
    decreases t.len(),
{
    if t.len() == 0 {
        0
    } else {
        let starts = !spec_is_whitespace(t.last()) && (t.len() == 1 || spec_is_whitespace(t[t.len() - 2]));
        word_count(t.drop_last()) + if starts {
            1nat
        } else {
            0nat
        }
    }
}

/// `n`, or the largest `usize` if it is larger.
pub open spec fn capped(n: nat) -> nat {
    if n > usize::MAX {
        usize::MAX as nat
    } else {
        n
    }
}

/// The words of the lines `ls`, decoded.
pub open spec fn total_words(ls: Seq<Seq<u8>>) -> nat
    decreases ls.len(),
{
    if ls.len() == 0 {
        0
    } else {
        total_words(ls.drop_last()) + word_count(utf8_lossy(ls.last()))
    }
}

/// The characters of the lines `ls`, decoded.
pub open spec fn total_chars(ls: Seq<Seq<u8>>) -> nat
    decreases ls.len(),
{
    if ls.len() == 0 {
        0
    } else {
        total_chars(ls.drop_last()) + utf8_lossy(ls.last()).len()
    }
}

/// The words of the texts `ts`.
pub open spec fn text_words(ts: Seq<Seq<char>>) -> nat
    decreases ts.len(),
{
    if ts.len() == 0 {
        0
    } else {
        text_words(ts.drop_last()) + word_count(ts.last())
    }
}

/// The characters of the texts `ts`.
pub open spec fn text_chars(ts: Seq<Seq<char>>) -> nat
    decreases ts.len(),
{
    if ts.len() == 0 {
        0
    } else {
        text_chars(ts.drop_last()) + ts.last().len()
    }
}

/// The UTF-8 bytes of the texts `ts`.
pub open spec fn text_bytes(ts: Seq<Seq<char>>) -> nat
    decreases ts.len(),
{
    if ts.len() == 0 {
        0
    } else {
        text_bytes(ts.drop_last()) + utf8_len(ts.last())
    }
}

/// The number of words of `t` (see [`word_count`]).
fn count_words(t: &Vec<char>) -> (res: usize)
    ensures
        res as nat == word_count(t@),
{
    let mut n: usize = 0;
    let mut i: usize = 0;
    while i < t.len()
        invariant
            i <= t.len(),
            n as nat == word_count(t@.take(i as int)),
            n <= i,
        decreases t.len() - i,
    {
        proof {
            assert(t@.take(i + 1).drop_last() =~= t@.take(i as int));
            if i > 0 {
                assert(t@.take(i + 1)[i - 1] == t@[i - 1]);
            }
        }
        if !is_whitespace(t[i]) && (i == 0 || is_whitespace(t[i - 1])) {
            n = n + 1;
        }
        i += 1;
    }
    proof {
        assert(t@.take(t.len() as int) =~= t@);
    }
    n
}

/// `a + b`, or the largest `usize` if that is larger.
fn add_capped(a: usize, b: usize) -> (res: usize)
    ensures
        res as nat == capped(a as nat + b as nat),
{
    if b as u128 + a as u128 > usize::MAX as u128 {
        usize::MAX
    } else {
        (a as u128 + b as u128) as usize
    }
}

impl CountResult {
    /// No lines, words, characters or bytes.
    pub fn new() -> (res: Self)
        ensures
            res.lines == 0 && res.words == 0 && res.chars == 0 && res.bytes == 0,
    {
        CountResult { lines: 0, words: 0, chars: 0, bytes: 0 }
    }

    /// Add the counts of `other` (each capped at the largest `usize`).
    pub fn add(&mut self, other: &CountResult)
        ensures
            final(self).lines as nat == capped(old(self).lines as nat + other.lines as nat),
            final(self).words as nat == capped(old(self).words as nat + other.words as nat),
            final(self).chars as nat == capped(old(self).chars as nat + other.chars as nat),
            final(self).bytes as nat == capped(old(self).bytes as nat + other.bytes as nat),
    {
        self.lines = add_capped(self.lines, other.lines);
        self.words = add_capped(self.words, other.words);
        self.chars = add_capped(self.chars, other.chars);
        self.bytes = add_capped(self.bytes, other.bytes);
    }
}

/// The counts of a file's content `data`: its lines (the pieces between line
/// feeds, and a last piece without one), the words and characters of the
/// lines decoded as UTF-8, and its bytes.
pub fn count_data(data: &[u8]) -> (res: CountResult)
    requires
        data@.len() < u64::MAX,
    ensures
        res.lines == lines_from(data@, 0).len(),
        res.words as nat == capped(total_words(lines_from(data@, 0))),
        res.chars as nat == capped(total_chars(lines_from(data@, 0))),
        res.bytes == data@.len(),
{
    let ghost d = data@;
    let ghost all = lines_from(d, 0);
    let ghost mut done: Seq<Seq<u8>> = Seq::empty();
    let mut result = CountResult::new();
    let mut start: usize = 0;
    while start < data.len()
        invariant
            d == data@,
            d.len() < u64::MAX,
            all == lines_from(d, 0),
            start <= data.len(),
            result.lines as int == done.len(),
            result.lines <= start,
            done + lines_from(d, start as int) == all,
            result.words as nat == capped(total_words(done)),
            result.chars as nat == capped(total_chars(done)),
        decreases data.len() - start,
    {
        proof {
            lemma_line_end(d, start as int);
        }
        let mut k = start;
        while k < data.len() && data[k] != 10
            invariant
                d == data@,
                start <= k <= data.len(),
                start < data.len(),
                line_end(d, start as int) == line_end(d, k as int),
            decreases data.len() - k,
        {
            k += 1;
        }
        let piece = slice_to_vec(data, start, k);
        let text = decode_lossy(piece.as_slice());
        let t = chars_of(text.as_str());
        let w = count_words(&t);
        let ghost p = d.subrange(start as int, k as int);
        proof {
            assert(piece@ == p);
            let q = done.push(p);
            assert(q.drop_last() =~= done);
            assert(total_words(q) == total_words(done) + word_count(utf8_lossy(p)));
            assert(total_chars(q) == total_chars(done) + utf8_lossy(p).len());
        }
        let old_words = result.words;
        let old_chars = result.chars;
        result.words = add_capped(result.words, w);
        result.chars = add_capped(result.chars, t.len());
        result.lines = result.lines + 1;
        proof {
            let q = done.push(p);
            assert(k == line_end(d, start as int));
            let rest = if k < d.len() { lines_from(d, k + 1) } else { Seq::<Seq<u8>>::empty() };
            assert(lines_from(d, start as int) == seq![p] + rest);
            assert(q + rest =~= done + (seq![p] + rest));
            if k >= d.len() {
                assert(lines_from(d, d.len() as int) =~= Seq::<Seq<u8>>::empty());
            }
            done = q;
        }
        start = if k < data.len() { k + 1 } else { k };
    }
    proof {
        assert(lines_from(d, start as int) =~= Seq::<Seq<u8>>::empty());
        assert(done =~= all);
    }
    result.bytes = data.len();
    result
}

/// The bytes of `data` from `start` to `end`.
fn slice_to_vec(data: &[u8], start: usize, end: usize) -> (res: Vec<u8>)
    requires
        start <= end <= data@.len(),
    ensures
        res@ == data@.subrange(start as int, end as int),
{
    let mut v: Vec<u8> = Vec::new();
    let mut i = start;
    while i < end
        invariant
            start <= i <= end <= data@.len(),
            v@ == data@.subrange(start as int, i as int),
        decreases end - i,
    {
        v.push(data[i]);
        proof {
            assert(v@ =~= data@.subrange(start as int, i + 1));
        }
        i += 1;
    }
    v
}

/// `capped` may be applied to a partial sum first.
proof fn lemma_capped_add(a: nat, b: nat)
    ensures
        capped(capped(a) + b) == capped(a + b),
{
}

/// The number of UTF-8 bytes of `t`, capped (see [`capped`]).
fn utf8_size(t: &Vec<char>) -> (res: usize)
    ensures
        res as nat == capped(utf8_len(t@)),
{
    let mut n: usize = 0;
    let mut i: usize = 0;
    while i < t.len()
        invariant
            i <= t.len(),
            n as nat == capped(utf8_len(t@.take(i as int))),
        decreases t.len() - i,
    {
        proof {
            assert(t@.take(i + 1).drop_last() =~= t@.take(i as int));
            lemma_capped_add(utf8_len(t@.take(i as int)), crate::pager::utf8_width(t@[i as int]));
        }
        n = add_capped(n, char_width(t[i]));
        i += 1;
    }
    proof {
        assert(t@.take(t.len() as int) =~= t@);
    }
    n
}

/// The counts of lines read from standard input (without their line ends):
/// the lines, their words, characters and UTF-8 bytes.
pub fn count_lines(lines: &Vec<String>) -> (res: CountResult)
    ensures
        res.lines == lines@.len(),
        res.words as nat == capped(text_words(crate::expand::strings_view(lines@))),
        res.chars as nat == capped(text_chars(crate::expand::strings_view(lines@))),
        res.bytes as nat == capped(text_bytes(crate::expand::strings_view(lines@))),
{
    let ghost ts = crate::expand::strings_view(lines@);
    let mut result = CountResult::new();
    let mut i: usize = 0;
    while i < lines.len()
        invariant
            ts == crate::expand::strings_view(lines@),
            i <= lines.len(),
            result.lines == i,
            result.words as nat == capped(text_words(ts.take(i as int))),
            result.chars as nat == capped(text_chars(ts.take(i as int))),
            result.bytes as nat == capped(text_bytes(ts.take(i as int))),
        decreases lines.len() - i,
    {
        let t = chars_of(lines[i].as_str());
        let w = count_words(&t);
        let b = utf8_size(&t);
        proof {
            let p = ts.take(i as int);
            assert(ts.take(i + 1).drop_last() =~= p);
            assert(ts.take(i + 1).last() == t@);
            lemma_capped_add(text_words(p), word_count(t@));
            lemma_capped_add(text_chars(p), t@.len());
            lemma_capped_add(text_bytes(p), utf8_len(t@));
            lemma_capped_add(utf8_len(t@), capped(text_bytes(p)));
        }
        result.words = add_capped(result.words, w);
        result.chars = add_capped(result.chars, t.len());
        result.bytes = add_capped(result.bytes, b);
        result.lines = result.lines + 1;
        i += 1;
    }
    proof {
        assert(ts.take(lines.len() as int) =~= ts);
    }
    result
}

/// The decimal digits of `n`, padded on the left with spaces to `w` characters.
fn padded_number(n: usize, w: usize) -> (res: Vec<char>)
    ensures
        res@ == pad_left(nat_to_decimal(n as nat), w as nat),
{
    let digits = u64_to_chars(n as u64);
    let mut out: Vec<char> = Vec::new();
    let mut k: usize = digits.len();
    while k < w
        invariant
            digits.len() <= k,
            k <= w || k == digits.len(),
            out@ == crate::help::spaces((k - digits.len()) as nat),
        decreases w - k,
    {
        out.push(' ');
        proof {
            assert(out@ =~= crate::help::spaces((k + 1 - digits.len()) as nat));
        }
        k += 1;
    }
    vec_extend(&mut out, &digits);
    proof {
        if digits.len() >= w {
            assert(out@ =~= digits@);
        }
    }
    out
}

/// The line that `wc` prints for `r`: lines, words and bytes when no flag is
/// given, else those whose flags are given (characters only on request), each
/// right-aligned (widths 10, 12, 14, 14), then the name if any.
pub open spec fn count_report(r: CountResult, name: Option<Seq<char>>, given: Map<Seq<char>, Seq<char>>) -> Seq<char> {
    let all = given == Map::<Seq<char>, Seq<char>>::empty();
    (if all || given.dom().contains("lines"@) {
        pad_left(nat_to_decimal(r.lines as nat), 10)
    } else {
        Seq::empty()
    }) + (if all || given.dom().contains("words"@) {
        pad_left(nat_to_decimal(r.words as nat), 12)
    } else {
        Seq::empty()
    }) + (if given.dom().contains("chars"@) {
        pad_left(nat_to_decimal(r.chars as nat), 14)
    } else {
        Seq::empty()
    }) + (if all || given.dom().contains("bytes"@) {
        pad_left(nat_to_decimal(r.bytes as nat), 14)
    } else {
        Seq::empty()
    }) + match name {
        Some(n) => seq![' '] + n,
        None => Seq::empty(),
    }
}

/// The `wc` command and its flags.
pub struct WordCount {
    pub flags: CommandFlags,
}

impl WordCount {
    /// The command with its flags: `--lines`, `--words`, `--chars`, `--bytes`.
    pub fn new() -> (res: Self)
        ensures
            res.flags.wf(),
            res.flags.spec_flags().len() == 5,
            res.flags.spec_flags().contains(FlagSpec { short: Some('?'), long: "help"@, help: "Display this help message"@, takes_value: false, default_value: None }),
            res.flags.spec_flags().contains(FlagSpec { short: Some('l'), long: "lines"@, help: "Print the newline counts"@, takes_value: false, default_value: None }),
            res.flags.spec_flags().contains(FlagSpec { short: Some('w'), long: "words"@, help: "Print the word counts"@, takes_value: false, default_value: None }),
            res.flags.spec_flags().contains(FlagSpec { short: Some('m'), long: "chars"@, help: "Print the character counts"@, takes_value: false, default_value: None }),
            res.flags.spec_flags().contains(FlagSpec { short: Some('c'), long: "bytes"@, help: "Print the byte counts"@, takes_value: false, default_value: None }),
    {
        let mut flags = CommandFlags::with_help();
        proof { assert(flags.spec_flags()[0] == FlagSpec { short: Some('?'), long: "help"@, help: "Display this help message"@, takes_value: false, default_value: None }); }
        proof {
            reveal_strlit("help");
            reveal_strlit("lines");
            reveal_strlit("words");
            reveal_strlit("chars");
            reveal_strlit("bytes");
        }
        let ghost f0 = flags.spec_flags();
        assert("help"@.len() == 4);
        assert("lines"@.len() == 5 && "words"@.len() == 5 && "chars"@.len() == 5 && "bytes"@.len() == 5);
        assert("lines"@[0] != "words"@[0] && "lines"@[0] != "chars"@[0] && "lines"@[0] != "bytes"@[0]);
        assert("words"@[0] != "chars"@[0] && "words"@[0] != "bytes"@[0] && "chars"@[0] != "bytes"@[0]);
        assert(find_long(f0, "lines"@) is None);
        assert(find_long(f0, "words"@) is None);
        assert(find_long(f0, "chars"@) is None);
        assert(find_long(f0, "bytes"@) is None);
        let ghost pre_flags_0 = flags.spec_flags();
        flags.add_flag('l', "lines", "Print the newline counts");
        proof { crate::flags::lemma_insertion_keeps(pre_flags_0, flags.spec_flags(), FlagSpec { short: Some('l'), long: "lines"@, help: "Print the newline counts"@, takes_value: false, default_value: None }); }
        proof {
            let f = FlagSpec { short: Some('l'), long: "lines"@, help: "Print the newline counts"@, takes_value: false, default_value: None };
            lemma_insertion_absent(f0, flags.spec_flags(), f, "words"@, 'w');
            lemma_insertion_absent(f0, flags.spec_flags(), f, "chars"@, 'm');
            lemma_insertion_absent(f0, flags.spec_flags(), f, "bytes"@, 'c');
        }
        let ghost f1 = flags.spec_flags();
        let ghost pre_flags_1 = flags.spec_flags();
        flags.add_flag('w', "words", "Print the word counts");
        proof { crate::flags::lemma_insertion_keeps(pre_flags_1, flags.spec_flags(), FlagSpec { short: Some('w'), long: "words"@, help: "Print the word counts"@, takes_value: false, default_value: None }); }
        proof {
            let f = FlagSpec { short: Some('w'), long: "words"@, help: "Print the word counts"@, takes_value: false, default_value: None };
            lemma_insertion_absent(f1, flags.spec_flags(), f, "chars"@, 'm');
            lemma_insertion_absent(f1, flags.spec_flags(), f, "bytes"@, 'c');
        }
        let ghost f2 = flags.spec_flags();
        let ghost pre_flags_2 = flags.spec_flags();
        flags.add_flag('m', "chars", "Print the character counts");
        proof { crate::flags::lemma_insertion_keeps(pre_flags_2, flags.spec_flags(), FlagSpec { short: Some('m'), long: "chars"@, help: "Print the character counts"@, takes_value: false, default_value: None }); }
        proof {
            let f = FlagSpec { short: Some('m'), long: "chars"@, help: "Print the character counts"@, takes_value: false, default_value: None };
            lemma_insertion_absent(f2, flags.spec_flags(), f, "bytes"@, 'c');
        }
        let ghost pre_flags_3 = flags.spec_flags();
        flags.add_flag('c', "bytes", "Print the byte counts");
        proof { crate::flags::lemma_insertion_keeps(pre_flags_3, flags.spec_flags(), FlagSpec { short: Some('c'), long: "bytes"@, help: "Print the byte counts"@, takes_value: false, default_value: None }); }
        WordCount { flags }
    }

    /// The line printed for `result` (see [`count_report`]), with the flags given.
    pub fn print_result(result: &CountResult, filename: Option<&str>, flags: &CommandFlags) -> (res: String)
        requires
            flags.wf(),
        ensures
            res@ == count_report(*result, match filename {
                Some(n) => Some(n@),
                None => None,
            }, flags.spec_values()),
    {
        let all = flags.is_empty();
        let mut out: Vec<char> = Vec::new();
        if all || flags.is_present("lines") {
            let t = padded_number(result.lines, 10);
            vec_extend(&mut out, &t);
        }
        if all || flags.is_present("words") {
            let t = padded_number(result.words, 12);
            vec_extend(&mut out, &t);
        }
        if flags.is_present("chars") {
            let t = padded_number(result.chars, 14);
            vec_extend(&mut out, &t);
        }
        if all || flags.is_present("bytes") {
            let t = padded_number(result.bytes, 14);
            vec_extend(&mut out, &t);
        }
        match filename {
            Some(n) => {
                out.push(' ');
                let t = chars_of(n);
                vec_extend(&mut out, &t);
            },
            None => {},
        }
        string_of(&out)
    }
}

/// The name part of a report line.
pub open spec fn report_name(name: Option<Seq<char>>) -> Seq<char> {
    match name {
        Some(n) => seq![' '] + n,
        None => Seq::empty(),
    }
}

/// With exactly one count flag given, the report shows that count alone
/// (right-aligned to its width), then the name: lines are shown only when
/// `--lines` is given, and so for each count.
pub proof fn law_one_flag_one_count(r: CountResult, name: Option<Seq<char>>, given: Map<Seq<char>, Seq<char>>)
    ensures
        given.dom() == set!["lines"@] ==> count_report(r, name, given) == pad_left(nat_to_decimal(r.lines as nat), 10)
            + report_name(name),
        given.dom() == set!["words"@] ==> count_report(r, name, given) == pad_left(nat_to_decimal(r.words as nat), 12)
            + report_name(name),
        given.dom() == set!["chars"@] ==> count_report(r, name, given) == pad_left(nat_to_decimal(r.chars as nat), 14)
            + report_name(name),
        given.dom() == set!["bytes"@] ==> count_report(r, name, given) == pad_left(nat_to_decimal(r.bytes as nat), 14)
            + report_name(name),
{
    reveal_strlit("lines");
    reveal_strlit("words");
    reveal_strlit("chars");
    reveal_strlit("bytes");
    assert("lines"@[0] == 'l' && "words"@[0] == 'w' && "chars"@[0] == 'c' && "bytes"@[0] == 'b');
    let names = seq!["lines"@, "words"@, "chars"@, "bytes"@];
    assert forall|a: int, b: int| 0 <= a < 4 && 0 <= b < 4 && a != b implies names[a] != names[b] by {
        assert(names[a][0] != names[b][0]);
    }
    if given.dom().len() == 1 {
        assert(given != Map::<Seq<char>, Seq<char>>::empty()) by {
            if given == Map::<Seq<char>, Seq<char>>::empty() {
                assert(given.dom() =~= Set::<Seq<char>>::empty());
            }
        }
    }
    if given.dom() == set!["lines"@] || given.dom() == set!["words"@] || given.dom() == set!["chars"@]
        || given.dom() == set!["bytes"@] {
        assert(given.dom().contains(names[0]) || given.dom().contains(names[1]) || given.dom().contains(names[2])
            || given.dom().contains(names[3]));
        assert(given != Map::<Seq<char>, Seq<char>>::empty());
    }
}

/// With no count flag given, the report shows lines, words and bytes, in that
/// order, then the name.
pub proof fn law_no_flag_default_counts(r: CountResult, name: Option<Seq<char>>)
    ensures
        count_report(r, name, Map::<Seq<char>, Seq<char>>::empty()) == pad_left(nat_to_decimal(r.lines as nat), 10)
            + pad_left(nat_to_decimal(r.words as nat), 12) + pad_left(nat_to_decimal(r.bytes as nat), 14)
            + report_name(name),
{
    assert(!Map::<Seq<char>, Seq<char>>::empty().dom().contains("chars"@));
    assert(pad_left(nat_to_decimal(r.lines as nat), 10) + pad_left(nat_to_decimal(r.words as nat), 12) + Seq::<char>::empty()
        =~= pad_left(nat_to_decimal(r.lines as nat), 10) + pad_left(nat_to_decimal(r.words as nat), 12));
}

} // verus!

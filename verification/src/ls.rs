//! `ls` (also `dir`): the permission letters and the kind of a file, and the
//! short listing, the names laid out in columns.
use vstd::prelude::*;
use crate::flags::{lemma_insertion_absent, CommandFlags, FlagSpec};
use crate::help::{pad_to, spaces};
use crate::pager::{char_width, utf8_len};
use crate::registry::names_of;
use crate::text::{chars_of, string_of, vec_extend};

verus! {

/// What a file is, as the long listing shows it.
#[derive(Clone, Copy, PartialEq, Eq, Debug, Structural)]
pub enum FileKind {
    Dir,
    File,
    Link,
    Other,
}

/// The letter of a kind of file: `d`, `-`, `l`, or `?`.
pub open spec fn kind_letter(k: FileKind) -> char {
    match k {
        FileKind::Dir => 'd',
        FileKind::File => '-',
        FileKind::Link => 'l',
        FileKind::Other => '?',
    }
}

/// The letter of a kind of file (see [`kind_letter`]).
pub fn kind_char(k: FileKind) -> (res: char)
    ensures
        res == kind_letter(k),
{
    match k {
        FileKind::Dir => 'd',
        FileKind::File => '-',
        FileKind::Link => 'l',
        FileKind::Other => '?',
    }
}

/// The permission bit shown at position `i` (0 to 8): owner read, write,
/// execute, then the same for the group and the others.
pub open spec fn perm_bit(i: int) -> nat {
    if i == 0 {
        256
    } else if i == 1 {
        128
    } else if i == 2 {
        64
    } else if i == 3 {
        32
    } else if i == 4 {
        16
    } else if i == 5 {
        8
    } else if i == 6 {
        4
    } else if i == 7 {
        2
    } else {
        1
    }
}

/// The letter shown at position `i` when its bit is set: `r`, `w`, `x`.
pub open spec fn perm_letter(i: int) -> char {
    if i % 3 == 0 {
        'r'
    } else if i % 3 == 1 {
        'w'
    } else {
        'x'
    }
}

/// The nine permission letters of `mode` (as `rwxr-x---`): each letter where
/// its bit is set, `-` where it is not.
pub open spec fn permissions_text(mode: u32) -> Seq<char> {
    Seq::new(9, |i: int| if (mode as nat / perm_bit(i)) % 2 == 1 { perm_letter(i) } else { '-' })
}

/// The nine permission letters of `mode` (see [`permissions_text`]).
pub fn permissions(mode: u32) -> (res: String)
    ensures
        res@ == permissions_text(mode),
{
    let mut out: Vec<char> = Vec::new();
    let mut i: usize = 0;
    let mut bit: u32 = 256;
    while i < 9
        invariant
            i <= 9,
            bit as nat == perm_bit(i as int) || i == 9,
            out@.len() == i,
            forall|j: int| 0 <= j < i ==> out@[j] == permissions_text(mode)[j],
        decreases 9 - i,
    {
        let letter = if i % 3 == 0 {
            'r'
        } else if i % 3 == 1 {
            'w'
        } else {
            'x'
        };
        if (mode / bit) % 2 == 1 {
            out.push(letter);
        } else {
            out.push('-');
        }
        i += 1;
        if i < 9 {
            bit = bit / 2;
        }
    }
    assert(out@ =~= permissions_text(mode));
    string_of(&out)
}

/// The names that the listing shows: all of them, or those that do not start
/// with `.`.
pub open spec fn listed(names: Seq<Seq<char>>, all: bool) -> Seq<Seq<char>>
    decreases names.len(),
{
    if names.len() == 0 {
        Seq::empty()
    } else {
        let rest = listed(names.drop_last(), all);
        let n = names.last();
        if all || !(n.len() > 0 && n[0] == '.') {
            rest.push(n)
        } else {
            rest
        }
    }
}

/// The length in bytes of the longest name (0 for none).
pub open spec fn widest(names: Seq<Seq<char>>) -> nat
    decreases names.len(),
{
    if names.len() == 0 {
        0
    } else {
        let m = widest(names.drop_last());
        if utf8_len(names.last()) > m {
            utf8_len(names.last())
        } else {
            m
        }
    }
}

/// The names from the `k`-th on, `ncol` to a row: the first of a row padded
/// to `colw` characters, the others after a space and padded to one less; a
/// row that is full ends before the next name, and the last row ends too.
pub open spec fn rows_from(names: Seq<Seq<char>>, k: int, col: nat, ncol: nat, colw: nat) -> Seq<char>
    decreases names.len() - k,
{
    if k < 0 || k >= names.len() {
        if col != 0 {
            seq!['\n']
        } else {
            Seq::empty()
        }
    } else {
        let wrap = col >= ncol;
        let c: nat = if wrap {
            0
        } else {
            col
        };
        let pre = if wrap {
            seq!['\n']
        } else {
            Seq::empty()
        };
        let cell = if c == 0 {
            pad_to(names[k], colw)
        } else {
            seq![' '] + pad_to(names[k], if colw > 0 { (colw - 1) as nat } else { 0 })
        };
        pre + cell + rows_from(names, k + 1, c + 1, ncol, colw)
    }
}

/// The short listing of `names` on a terminal `width` wide: the names shown
/// (see [`listed`]) in columns as wide as the longest name (in bytes) and
/// `spacing` more, as many as fit (one at least).
pub open spec fn short_listing(names: Seq<Seq<char>>, all: bool, width: nat, spacing: nat) -> Seq<char> {
    let shown = listed(names, all);
    let colw = widest(shown) + spacing;
    let ncol: nat = if width / colw > 1 { width / colw } else { 1 };
    rows_from(shown, 0, 0, ncol, colw)
}

/// The length of `s` in bytes.
fn byte_len(s: &Vec<char>) -> (res: usize)
    requires
        utf8_len(s@) <= usize::MAX,
    ensures
        res == utf8_len(s@),
{
    let mut n: usize = 0;
    let mut i: usize = 0;
    while i < s.len()
        invariant
            i <= s.len(),
            n == utf8_len(s@.take(i as int)),
            utf8_len(s@) <= usize::MAX,
        decreases s.len() - i,
    {
        assert(s@.take(i + 1).drop_last() =~= s@.take(i as int));
        proof {
            lemma_utf8_len_prefix(s@, i + 1);
        }
        n = n + char_width(s[i]);
        i += 1;
    }
    assert(s@.take(s.len() as int) =~= s@);
    n
}

proof fn lemma_utf8_len_prefix(s: Seq<char>, k: int)
    requires
        0 <= k <= s.len(),
    ensures
        utf8_len(s.take(k)) <= utf8_len(s),
    decreases s.len() - k,
{
    if k < s.len() {
        lemma_utf8_len_prefix(s, k + 1);
        assert(s.take(k + 1).drop_last() =~= s.take(k));
    } else {
        assert(s.take(k) =~= s);
    }
}

/// `s` padded with spaces to at least `w` characters, after `out`.
fn push_padded(out: &mut Vec<char>, s: &Vec<char>, w: usize)
    ensures
        final(out)@ == old(out)@ + pad_to(s@, w as nat),
{
    vec_extend(out, s);
    let mut n = s.len();
    let ghost mid = out@;
    while n < w
        invariant
            s.len() <= n <= w || n == s.len(),
            out@ == mid + spaces((n - s.len()) as nat),
        decreases w - n,
    {
        out.push(' ');
        n += 1;
        assert(out@ =~= mid + spaces((n - s.len()) as nat));
    }
    assert(out@ =~= old(out)@ + pad_to(s@, w as nat));
}

/// The short listing of `names` (see [`short_listing`]).
pub fn short_listing_text(names: &Vec<String>, all: bool, width: usize, spacing: usize) -> (res: String)
    requires
        widest(listed(names_of(names@), all)) + spacing <= usize::MAX,
        spacing > 0,
    ensures
        res@ == short_listing(names_of(names@), all, width as nat, spacing as nat),
{
    let ghost nv = names_of(names@);
    let mut shown: Vec<Vec<char>> = Vec::new();
    let mut widest_len: usize = 0;
    let mut i: usize = 0;
    while i < names.len()
        invariant
            i <= names.len(),
            nv == names_of(names@),
            shown@.len() == listed(nv.take(i as int), all).len(),
            forall|j: int| 0 <= j < shown@.len() ==> #[trigger] shown@[j]@ == listed(nv.take(i as int), all)[j],
            widest_len == widest(listed(nv.take(i as int), all)),
            widest(listed(nv, all)) + spacing <= usize::MAX,
        decreases names.len() - i,
    {
        let c = chars_of(names[i].as_str());
        assert(nv.take(i + 1).drop_last() =~= nv.take(i as int));
        if all || !(c.len() > 0 && c[0] == '.') {
            proof {
                lemma_listed_prefix(nv, all, i + 1);
                let l = listed(nv.take(i + 1), all);
                assert(l.drop_last() =~= listed(nv.take(i as int), all));
                lemma_widest_le(listed(nv, all), l);
                assert(utf8_len(l.last()) <= widest(l));
            }
            let b = byte_len(&c);
            if b > widest_len {
                widest_len = b;
            }
            shown.push(c);
        }
        i += 1;
    }
    assert(nv.take(names.len() as int) =~= nv);
    let ghost sv = listed(nv, all);
    let colw = widest_len + spacing;
    let ncol = if width / colw > 1 {
        width / colw
    } else {
        1
    };
    let mut out: Vec<char> = Vec::new();
    let mut col: usize = 0;
    let mut k: usize = 0;
    while k < shown.len()
        invariant
            k <= shown.len(),
            shown@.len() == sv.len(),
            forall|j: int| 0 <= j < shown@.len() ==> #[trigger] shown@[j]@ == sv[j],
            col <= k,
            colw > 0,
            out@ + rows_from(sv, k as int, col as nat, ncol as nat, colw as nat) == rows_from(sv, 0, 0, ncol as nat, colw as nat),
        decreases shown.len() - k,
    {
        if col >= ncol {
            out.push('\n');
            col = 0;
        }
        if col == 0 {
            push_padded(&mut out, &shown[k], colw);
        } else {
            out.push(' ');
            push_padded(&mut out, &shown[k], colw - 1);
        }
        col += 1;
        k += 1;
        assert(out@ + rows_from(sv, k as int, col as nat, ncol as nat, colw as nat) =~= rows_from(sv, 0, 0, ncol as nat, colw as nat));
    }
    if col != 0 {
        out.push('\n');
    }
    assert(out@ =~= short_listing(nv, all, width as nat, spacing as nat));
    string_of(&out)
}

proof fn lemma_listed_prefix(names: Seq<Seq<char>>, all: bool, k: int)
    requires
        0 <= k <= names.len(),
    ensures
        listed(names.take(k), all).len() <= listed(names, all).len(),
        forall|j: int| 0 <= j < listed(names.take(k), all).len() ==> #[trigger] listed(names.take(k), all)[j] == listed(names, all)[j],
    decreases names.len() - k,
{
    if k < names.len() {
        lemma_listed_prefix(names, all, k + 1);
        assert(names.take(k + 1).drop_last() =~= names.take(k));
        let a = listed(names.take(k), all);
        let b = listed(names.take(k + 1), all);
        assert(a.len() <= b.len());
        assert forall|j: int| 0 <= j < a.len() implies #[trigger] a[j] == listed(names, all)[j] by {
            assert(a[j] == b[j]);
        }
    } else {
        assert(names.take(k) =~= names);
    }
}

/// The longest of a prefix is no longer than the longest of the whole.
proof fn lemma_widest_le(whole: Seq<Seq<char>>, part: Seq<Seq<char>>)
    requires
        part.len() <= whole.len(),
        forall|j: int| 0 <= j < part.len() ==> part[j] == whole[j],
    ensures
        widest(part) <= widest(whole),
        forall|j: int| 0 <= j < part.len() ==> utf8_len(#[trigger] part[j]) <= widest(part),
    decreases whole.len(),
{
    if part.len() < whole.len() {
        lemma_widest_le(whole.drop_last(), part);
    } else if part.len() > 0 {
        assert(part =~= whole);
        lemma_widest_le(whole.drop_last(), part.drop_last());
        assert forall|j: int| 0 <= j < part.len() implies utf8_len(#[trigger] part[j]) <= widest(part) by {
            if j < part.len() - 1 {
                assert(part.drop_last()[j] == part[j]);
            }
        }
    }
}

/// What the long listing shows of a file: its kind, permission bits, owner
/// and group names, size in bytes, time of change (as text), name, and where
/// it points if it is a link.
pub struct EntryInfo {
    pub kind: FileKind,
    pub mode: u32,
    pub owner: String,
    pub group: String,
    pub size: u64,
    pub modified: String,
    pub name: String,
    pub link_target: Option<String>,
}

/// The width that owner and group names are padded to.
pub const OWNER_WIDTH: usize = 16;

/// The name shown: the name, and for a link ` -> ` and where it points.
pub open spec fn shown_name(e: EntryInfo) -> Seq<char> {
    match e.link_target {
        Some(t) => e.name@ + " -> "@ + t@,
        None => e.name@,
    }
}

/// The size shown: none for a directory, else in bytes or, if asked, in
/// human readable units (see [`crate::util::spec_format_size`]).
pub open spec fn size_shown(e: EntryInfo, human: bool) -> Seq<char> {
    if e.kind == FileKind::Dir {
        Seq::empty()
    } else {
        crate::util::spec_format_size(e.size as nat, 1, human)
    }
}

/// The line of the long listing for `e`: kind letter and permissions, owner
/// and group padded to their width, the size right-aligned in 12, the time
/// and the name.
pub open spec fn detail_text(e: EntryInfo, human: bool) -> Seq<char> {
    seq![kind_letter(e.kind)] + permissions_text(e.mode) + "  "@ + pad_to(e.owner@, OWNER_WIDTH as nat) + " "@ + pad_to(
        e.group@,
        OWNER_WIDTH as nat,
    ) + " "@ + crate::cat::pad_left(size_shown(e, human), 12) + "  "@ + e.modified@ + "  "@ + shown_name(e)
}

/// `s` padded on the left with spaces to at least `w` characters, after `out`.
fn push_left_padded(out: &mut Vec<char>, s: &Vec<char>, w: usize)
    ensures
        final(out)@ == old(out)@ + crate::cat::pad_left(s@, w as nat),
{
    let mut n = s.len();
    while n < w
        invariant
            s.len() <= n,
            n <= w || n == s.len(),
            out@ == old(out)@ + spaces((n - s.len()) as nat),
        decreases w - n,
    {
        out.push(' ');
        n += 1;
        assert(out@ =~= old(out)@ + spaces((n - s.len()) as nat));
    }
    vec_extend(out, s);
    assert(out@ =~= old(out)@ + crate::cat::pad_left(s@, w as nat));
}

/// The line of the long listing for `e` (see [`detail_text`]).
pub fn detail_line(e: &EntryInfo, human: bool) -> (res: String)
    ensures
        res@ == detail_text(*e, human),
{
    proof {
        reveal_strlit("  ");
        reveal_strlit(" ");
        reveal_strlit(" -> ");
    }
    let mut out: Vec<char> = Vec::new();
    out.push(kind_char(e.kind));
    vec_extend(&mut out, &chars_of(permissions(e.mode).as_str()));
    vec_extend(&mut out, &chars_of("  "));
    push_padded(&mut out, &chars_of(e.owner.as_str()), OWNER_WIDTH);
    out.push(' ');
    push_padded(&mut out, &chars_of(e.group.as_str()), OWNER_WIDTH);
    out.push(' ');
    let size = if e.kind == FileKind::Dir {
        Vec::new()
    } else {
        chars_of(crate::util::format_size(e.size, 1, human).as_str())
    };
    assert(size@ =~= size_shown(*e, human));
    push_left_padded(&mut out, &size, 12);
    vec_extend(&mut out, &chars_of("  "));
    vec_extend(&mut out, &chars_of(e.modified.as_str()));
    vec_extend(&mut out, &chars_of("  "));
    vec_extend(&mut out, &chars_of(e.name.as_str()));
    match &e.link_target {
        Some(t) => {
            vec_extend(&mut out, &chars_of(" -> "));
            vec_extend(&mut out, &chars_of(t.as_str()));
        },
        None => {},
    }
    assert(out@ =~= detail_text(*e, human));
    string_of(&out)
}

/// The `ls` command and its flags.
pub struct Dir {
    pub flags: CommandFlags,
}

/// The usage of `ls`, before its options.
pub const LS_USAGE: &'static str = "Usage: ls [OPTION]... [FILE]...
List information about the FILEs (the current directory by default).

Options:
";

impl Dir {
    /// The command with its flags: `--all`, `--long`, `--human-readable`,
    /// `--utc` and `--help`.
    pub fn new() -> (res: Self)
        ensures
            res.flags.wf(),
            res.flags.spec_flags().len() == 5,
            res.flags.spec_flags().contains(FlagSpec { short: Some('a'), long: "all"@, help: "Do not ignore entries starting with ."@, takes_value: false, default_value: None }),
            res.flags.spec_flags().contains(FlagSpec { short: Some('l'), long: "long"@, help: "Use a long listing format"@, takes_value: false, default_value: None }),
            res.flags.spec_flags().contains(FlagSpec { short: Some('h'), long: "human-readable"@, help: "Print sizes in human readable format (e.g., 1K, 234M, 2G)"@, takes_value: false, default_value: None }),
            res.flags.spec_flags().contains(FlagSpec { short: Some('u'), long: "utc"@, help: "Show file times in UTC"@, takes_value: false, default_value: None }),
            res.flags.spec_flags().contains(FlagSpec { short: Some('?'), long: "help"@, help: "Display this help and exit"@, takes_value: false, default_value: None }),
    {
        let mut flags = CommandFlags::new();
        proof {
            reveal_strlit("all");
            reveal_strlit("long");
            reveal_strlit("human-readable");
            reveal_strlit("utc");
            reveal_strlit("help");
            assert("all"@.len() == 3 && "long"@.len() == 4 && "human-readable"@.len() == 14 && "utc"@.len() == 3
                && "help"@.len() == 4);
            assert("all"@[0] != "long"@[0] && "all"@[0] != "human-readable"@[0] && "all"@[0] != "utc"@[0] && "all"@[0]
                != "help"@[0]);
            assert("long"@[0] != "human-readable"@[0] && "long"@[0] != "utc"@[0] && "long"@[0] != "help"@[0]);
            assert("human-readable"@[0] != "utc"@[0] && "human-readable"@[1] != "help"@[1]);
            assert("utc"@[0] != "help"@[0]);
        }
        let ghost f0 = flags.spec_flags();
        assert(f0.len() == 0);
        let ghost pre_flags_0 = flags.spec_flags();
        flags.add_flag('a', "all", "Do not ignore entries starting with .");
        proof { crate::flags::lemma_insertion_keeps(pre_flags_0, flags.spec_flags(), FlagSpec { short: Some('a'), long: "all"@, help: "Do not ignore entries starting with ."@, takes_value: false, default_value: None }); }
        let ghost f1 = flags.spec_flags();
        proof {
            let f = FlagSpec { short: Some('a'), long: "all"@, help: "Do not ignore entries starting with ."@, takes_value: false, default_value: None };
            lemma_insertion_absent(f0, f1, f, "long"@, 'l');
            lemma_insertion_absent(f0, f1, f, "human-readable"@, 'h');
            lemma_insertion_absent(f0, f1, f, "utc"@, 'u');
            lemma_insertion_absent(f0, f1, f, "help"@, '?');
        }
        let ghost pre_flags_1 = flags.spec_flags();
        flags.add_flag('l', "long", "Use a long listing format");
        proof { crate::flags::lemma_insertion_keeps(pre_flags_1, flags.spec_flags(), FlagSpec { short: Some('l'), long: "long"@, help: "Use a long listing format"@, takes_value: false, default_value: None }); }
        let ghost f2 = flags.spec_flags();
        proof {
            let f = FlagSpec { short: Some('l'), long: "long"@, help: "Use a long listing format"@, takes_value: false, default_value: None };
            lemma_insertion_absent(f1, f2, f, "human-readable"@, 'h');
            lemma_insertion_absent(f1, f2, f, "utc"@, 'u');
            lemma_insertion_absent(f1, f2, f, "help"@, '?');
        }
        let ghost pre_flags_2 = flags.spec_flags();
        flags.add_flag('h', "human-readable", "Print sizes in human readable format (e.g., 1K, 234M, 2G)");
        proof { crate::flags::lemma_insertion_keeps(pre_flags_2, flags.spec_flags(), FlagSpec { short: Some('h'), long: "human-readable"@, help: "Print sizes in human readable format (e.g., 1K, 234M, 2G)"@, takes_value: false, default_value: None }); }
        let ghost f3 = flags.spec_flags();
        proof {
            let f = FlagSpec { short: Some('h'), long: "human-readable"@, help: "Print sizes in human readable format (e.g., 1K, 234M, 2G)"@, takes_value: false, default_value: None };
            lemma_insertion_absent(f2, f3, f, "utc"@, 'u');
            lemma_insertion_absent(f2, f3, f, "help"@, '?');
        }
        let ghost pre_flags_3 = flags.spec_flags();
        flags.add_flag('u', "utc", "Show file times in UTC");
        proof { crate::flags::lemma_insertion_keeps(pre_flags_3, flags.spec_flags(), FlagSpec { short: Some('u'), long: "utc"@, help: "Show file times in UTC"@, takes_value: false, default_value: None }); }
        let ghost f4 = flags.spec_flags();
        proof {
            let f = FlagSpec { short: Some('u'), long: "utc"@, help: "Show file times in UTC"@, takes_value: false, default_value: None };
            lemma_insertion_absent(f3, f4, f, "help"@, '?');
        }
        let ghost pre_flags_4 = flags.spec_flags();
        flags.add_flag('?', "help", "Display this help and exit");
        proof { crate::flags::lemma_insertion_keeps(pre_flags_4, flags.spec_flags(), FlagSpec { short: Some('?'), long: "help"@, help: "Display this help and exit"@, takes_value: false, default_value: None }); }
        Dir { flags }
    }
}

/// Is `name` shown: with `all` every name, else one that does not start
/// with `.`?
pub fn is_listed(name: &str, all: bool) -> (res: bool)
    ensures
        res == (all || !(name@.len() > 0 && name@[0] == '.')),
{
    let c = chars_of(name);
    all || !(c.len() > 0 && c[0] == '.')
}

} // verus!

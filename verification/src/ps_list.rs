//! The list view of `ps`: the columns, the sort specification, the order of
//! the rows under it, and the lines shown.
use vstd::prelude::*;
use crate::cat::pad_left;
use crate::cut::{lemma_find_char, split_at};
use crate::interp::CommandError;
use crate::ps::{run_time_string, run_time_text};
use crate::text::{
    chars_of, concat, lemma_seq_lt_irreflexive, lemma_seq_lt_total, lemma_seq_lt_transitive, seq_lt, spec_trim,
    str_eq, string_of, to_owned_string, trim, vec_eq, vec_lt, vec_range,
};

verus! {

/// A column of the list.
#[derive(Clone, Copy, PartialEq, Eq, Debug, Structural)]
pub enum ListColumn {
    User,
    Pid,
    Ppid,
    Name,
    Cpu,
    Mem,
    Time,
    Cmd,
}

/// What the list shows of a process. The processor and memory use are shown
/// as the text given, and ordered by the numbers given with them (which
/// order as the amounts do).
pub struct ProcRow {
    pub uid: Option<u32>,
    pub user: String,
    pub pid: u32,
    pub ppid: Option<u32>,
    pub name: String,
    pub cpu_order: u32,
    pub cpu_text: String,
    pub mem_order: u32,
    pub mem_text: String,
    pub run_time: u64,
    pub cmd: String,
}

/// A key of the sort order: a column, and whether it sorts down.
#[derive(Clone, Copy, PartialEq, Eq, Debug, Structural)]
pub struct SortKey {
    pub column: ListColumn,
    pub reverse: bool,
}

/// The width that user names are cut and padded to.
pub const USER_WIDTH: usize = 16;

/// The width that process names are cut and padded to.
pub const NAME_WIDTH: usize = 32;

/// The columns shown: the command line only in the long format.
pub open spec fn columns_of(long: bool) -> Seq<ListColumn> {
    let base = seq![
        ListColumn::User,
        ListColumn::Pid,
        ListColumn::Ppid,
        ListColumn::Name,
        ListColumn::Cpu,
        ListColumn::Mem,
        ListColumn::Time,
    ];
    if long {
        base.push(ListColumn::Cmd)
    } else {
        base
    }
}

/// The name of a column in a sort specification.
pub open spec fn column_name(c: ListColumn) -> Seq<char> {
    match c {
        ListColumn::User => "user"@,
        ListColumn::Pid => "pid"@,
        ListColumn::Ppid => "ppid"@,
        ListColumn::Name => "name"@,
        ListColumn::Cpu => "cpu"@,
        ListColumn::Mem => "mem"@,
        ListColumn::Time => "time"@,
        ListColumn::Cmd => "cmd"@,
    }
}

/// The column called `name`, among those shown.
pub open spec fn column_named(name: Seq<char>, long: bool) -> Option<ListColumn> {
    if name == "user"@ {
        Some(ListColumn::User)
    } else if name == "pid"@ {
        Some(ListColumn::Pid)
    } else if name == "ppid"@ {
        Some(ListColumn::Ppid)
    } else if name == "name"@ {
        Some(ListColumn::Name)
    } else if name == "cpu"@ {
        Some(ListColumn::Cpu)
    } else if name == "mem"@ {
        Some(ListColumn::Mem)
    } else if name == "time"@ {
        Some(ListColumn::Time)
    } else if name == "cmd"@ && long {
        Some(ListColumn::Cmd)
    } else {
        None
    }
}

/// A piece of a sort specification: its name, and whether it sorts down (a
/// leading `-`; a leading `+` sorts up, as does no sign).
pub open spec fn key_piece(piece: Seq<char>) -> (Seq<char>, bool) {
    let t = spec_trim(piece);
    if t.len() > 0 && t[0] == '-' {
        (t.drop_first(), true)
    } else if t.len() > 0 && t[0] == '+' {
        (t.drop_first(), false)
    } else {
        (t, false)
    }
}

/// Does a key of `keys` sort by column `c`?
pub open spec fn has_column(keys: Seq<SortKey>, c: ListColumn) -> bool {
    exists|k: int| 0 <= k < keys.len() && #[trigger] keys[k].column == c
}

/// The keys of the pieces of a sort specification, or the error of the first
/// piece that names no column shown, or a column named before.
pub open spec fn parse_keys(pieces: Seq<Seq<char>>, long: bool) -> Result<Seq<SortKey>, Seq<char>>
    decreases pieces.len(),
{
    if pieces.len() == 0 {
        Ok(Seq::empty())
    } else {
        match parse_keys(pieces.drop_last(), long) {
            Err(e) => Err(e),
            Ok(keys) => {
                let (name, reverse) = key_piece(pieces.last());
                match column_named(name, long) {
                    None => Err("Invalid sort key: "@ + name),
                    Some(c) => if has_column(keys, c) {
                        Err("Duplicate sort key: "@ + column_name(c))
                    } else {
                        Ok(keys.push(SortKey { column: c, reverse }))
                    },
                }
            },
        }
    }
}

/// The position of the first argument that is `s`, or 0.
pub open spec fn arg_position(args: Seq<String>, s: Seq<char>) -> int {
    if exists|i: int| 0 <= i < args.len() && args[i]@ == s {
        choose|i: int|
            0 <= i < args.len() && args[i]@ == s && forall|j: int| 0 <= j < i ==> args[j]@ != s
    } else {
        0
    }
}

/// The first position of `s` among `args`, or 0.
fn arg_index(args: &Vec<String>, s: &str) -> (res: usize)
    ensures
        res == arg_position(args@, s@),
        res == 0 || res < args.len(),
{
    let mut i: usize = 0;
    while i < args.len()
        invariant
            i <= args.len(),
            forall|j: int| 0 <= j < i ==> args@[j]@ != s@,
        decreases args.len() - i,
    {
        if str_eq(args[i].as_str(), s) {
            proof {
                let c = choose|k: int|
                    0 <= k < args@.len() && args@[k]@ == s@ && forall|j: int| 0 <= j < k ==> args@[j]@ != s@;
                assert(0 <= i && args@[i as int]@ == s@ && forall|j: int| 0 <= j < i ==> args@[j]@ != s@);
                if c < i {
                } else if c > i {
                    assert(args@[i as int]@ != s@);
                }
            }
            return i;
        }
        i += 1;
    }
    0
}

/// The column called `name`, among those shown (see [`column_named`]).
fn find_column(name: &Vec<char>, long: bool) -> (res: Option<ListColumn>)
    ensures
        res == column_named(name@, long),
{
    if vec_eq(name, &chars_of("user")) {
        Some(ListColumn::User)
    } else if vec_eq(name, &chars_of("pid")) {
        Some(ListColumn::Pid)
    } else if vec_eq(name, &chars_of("ppid")) {
        Some(ListColumn::Ppid)
    } else if vec_eq(name, &chars_of("name")) {
        Some(ListColumn::Name)
    } else if vec_eq(name, &chars_of("cpu")) {
        Some(ListColumn::Cpu)
    } else if vec_eq(name, &chars_of("mem")) {
        Some(ListColumn::Mem)
    } else if vec_eq(name, &chars_of("time")) {
        Some(ListColumn::Time)
    } else if vec_eq(name, &chars_of("cmd")) && long {
        Some(ListColumn::Cmd)
    } else {
        None
    }
}

/// The name of column `c` (see [`column_name`]).
fn name_of_column(c: ListColumn) -> (res: &'static str)
    ensures
        res@ == column_name(c),
{
    match c {
        ListColumn::User => "user",
        ListColumn::Pid => "pid",
        ListColumn::Ppid => "ppid",
        ListColumn::Name => "name",
        ListColumn::Cpu => "cpu",
        ListColumn::Mem => "mem",
        ListColumn::Time => "time",
        ListColumn::Cmd => "cmd",
    }
}

/// The sort keys of a sort specification `spec` (given among the arguments
/// `args`): a comma-separated list of column names, each with an optional
/// `+` (up, the default) or `-` (down) in front. A name of no column shown,
/// or one given twice, is an error, which names the specification and the
/// argument that holds it.
#[verifier::rlimit(50)]
pub fn parse_sort_spec(spec: &str, long: bool, args: &Vec<String>) -> (res: Result<Vec<SortKey>, CommandError>)
    ensures
        parse_keys(split_at(spec@, ',', 0), long) matches Ok(keys) ==> (res matches Ok(v) && v@ == keys),
        parse_keys(split_at(spec@, ',', 0), long) matches Err(m) ==> (res matches Err(e) && e.message@ == spec@
            + ": "@ + m && e.arg == arg_position(args@, spec@) + 1),
{
    let s = chars_of(spec);
    let ghost pieces = split_at(s@, ',', 0);
    let mut keys: Vec<SortKey> = Vec::new();
    let mut start: usize = 0;
    let mut count: usize = 0;
    let ghost done: Seq<Seq<char>> = Seq::empty();
    assert(pieces == done + split_at(s@, ',', 0));
    loop
        invariant
            s@ == spec@,
            pieces == split_at(s@, ',', 0),
            start <= s.len(),
            pieces == done + split_at(s@, ',', start as int),
            parse_keys(done, long) == Ok::<Seq<SortKey>, Seq<char>>(keys@),
        decreases s.len() - start,
    {
        let mut k = start;
        while k < s.len() && s[k] != ','
            invariant
                start <= k <= s.len(),
                forall|m: int| start <= m < k ==> s@[m] != ',',
            decreases s.len() - k,
        {
            k += 1;
        }
        proof {
            lemma_find_char(s@, ',', start as int);
            let f = crate::expand::find_char(s@, ',', start as int);
            if f < k {
                assert(s@[f] == ',');
            } else if f > k {
                assert(s@[k as int] != ',');
            }
            assert(f == k);
        }
        let piece = vec_range(&s, start, k);
        let t = trim(&piece);
        let (name, reverse) = if t.len() > 0 && t[0] == '-' {
            (vec_range(&t, 1, t.len()), true)
        } else if t.len() > 0 && t[0] == '+' {
            (vec_range(&t, 1, t.len()), false)
        } else {
            (t, false)
        };
        proof {
            if t.len() > 0 {
                assert(t@.drop_first() =~= t@.subrange(1, t@.len() as int));
            }
            assert((name@, reverse) == key_piece(piece@));
            assert(split_at(s@, ',', start as int) == seq![piece@] + (if k < s.len() {
                split_at(s@, ',', k + 1)
            } else {
                Seq::empty()
            }));
        }
        let ghost next = done.push(piece@);
        proof {
            assert(next.drop_last() =~= done);
            let rest = if k < s.len() {
                split_at(s@, ',', k + 1)
            } else {
                Seq::empty()
            };
            assert(pieces =~= next + rest);
            assert(pieces.take(next.len() as int) =~= next);
        }
        match find_column(&name, long) {
            None => {
                let mut m = concat(spec, ": Invalid sort key: ");
                crate::text::push_str(&mut m, string_of(&name).as_str());
                proof {
                    lemma_parse_prefix_err(pieces, next, long);
                    reveal_strlit(": Invalid sort key: ");
                    reveal_strlit(": ");
                    reveal_strlit("Invalid sort key: ");
                    assert(m@ =~= spec@ + ": "@ + ("Invalid sort key: "@ + name@));
                }
                return Err(CommandError { message: m, arg: arg_index(args, spec) + 1 });
            },
            Some(c) => {
                let mut dup = false;
                let mut j: usize = 0;
                while j < keys.len()
                    invariant
                        j <= keys.len(),
                        dup == exists|q: int| 0 <= q < j && #[trigger] keys@[q].column == c,
                    decreases keys.len() - j,
                {
                    if keys[j].column == c {
                        dup = true;
                    }
                    j += 1;
                }
                if dup {
                    let mut m = concat(spec, ": Duplicate sort key: ");
                    crate::text::push_str(&mut m, name_of_column(c));
                    proof {
                        lemma_parse_prefix_err(pieces, next, long);
                        reveal_strlit(": Duplicate sort key: ");
                        reveal_strlit(": ");
                        reveal_strlit("Duplicate sort key: ");
                        assert(m@ =~= spec@ + ": "@ + ("Duplicate sort key: "@ + column_name(c)));
                    }
                    return Err(CommandError { message: m, arg: arg_index(args, spec) + 1 });
                }
                keys.push(SortKey { column: c, reverse });
            },
        }
        proof {
            done = next;
        }
        if k >= s.len() {
            proof {
                assert(pieces =~= done);
            }
            return Ok(keys);
        }
        start = k + 1;
    }
}

/// Once a prefix of the pieces fails, so do all of them, with its error.
proof fn lemma_parse_prefix_err(pieces: Seq<Seq<char>>, prefix: Seq<Seq<char>>, long: bool)
    requires
        prefix.len() <= pieces.len(),
        pieces.take(prefix.len() as int) == prefix,
        parse_keys(prefix, long) is Err,
    ensures
        parse_keys(pieces, long) == parse_keys(prefix, long),
    decreases pieces.len(),
{
    if pieces.len() > prefix.len() {
        assert(pieces.drop_last().take(prefix.len() as int) =~= prefix);
        lemma_parse_prefix_err(pieces.drop_last(), prefix, long);
    } else {
        assert(pieces =~= prefix);
    }
}

/// The order of two numbers: -1, 0 or 1.
pub open spec fn int_order(a: int, b: int) -> int {
    if a < b {
        -1
    } else if a == b {
        0
    } else {
        1
    }
}

/// The order of two texts (the order of `str`): -1, 0 or 1.
pub open spec fn text_order(a: Seq<char>, b: Seq<char>) -> int {
    if seq_lt(a, b) {
        -1
    } else if a == b {
        0
    } else {
        1
    }
}

/// An optional id as a number that orders as `Option` does: none first.
pub open spec fn opt_rank(o: Option<u32>) -> int {
    match o {
        None => 0,
        Some(u) => u + 1,
    }
}

/// The run time as the list shows it, right-aligned in 12 characters.
pub open spec fn time_field(secs: nat) -> Seq<char> {
    pad_left(run_time_text(secs), 12)
}

/// The order of two rows by column `c`: users by id, ids as numbers (no
/// parent first), names and command lines as text, processor and memory use
/// by their order numbers, and run times by the text shown.
pub open spec fn column_order(a: ProcRow, b: ProcRow, c: ListColumn) -> int {
    match c {
        ListColumn::User => int_order(opt_rank(a.uid), opt_rank(b.uid)),
        ListColumn::Pid => int_order(a.pid as int, b.pid as int),
        ListColumn::Ppid => int_order(opt_rank(a.ppid), opt_rank(b.ppid)),
        ListColumn::Name => text_order(a.name@, b.name@),
        ListColumn::Cpu => int_order(a.cpu_order as int, b.cpu_order as int),
        ListColumn::Mem => int_order(a.mem_order as int, b.mem_order as int),
        ListColumn::Time => text_order(time_field(a.run_time as nat), time_field(b.run_time as nat)),
        ListColumn::Cmd => text_order(a.cmd@, b.cmd@),
    }
}

/// The order of two rows by one key.
pub open spec fn key_order(a: ProcRow, b: ProcRow, k: SortKey) -> int {
    if k.reverse {
        -column_order(a, b, k.column)
    } else {
        column_order(a, b, k.column)
    }
}

/// The order of two rows by the keys: the first key that tells them apart.
pub open spec fn rows_order(a: ProcRow, b: ProcRow, keys: Seq<SortKey>) -> int
    decreases keys.len(),
{
    if keys.len() == 0 {
        0
    } else {
        let c = key_order(a, b, keys[0]);
        if c != 0 {
            c
        } else {
            rows_order(a, b, keys.drop_first())
        }
    }
}

/// Row `i` comes before row `j`: it sorts lower, or sorts the same and came
/// first (the sort is stable).
pub open spec fn comes_before(rows: Seq<ProcRow>, keys: Seq<SortKey>, i: int, j: int) -> bool {
    rows_order(rows[i], rows[j], keys) < 0 || (rows_order(rows[i], rows[j], keys) == 0 && i < j)
}

/// An order of the rows: each position once, each before the next.
pub open spec fn sorted_order(rows: Seq<ProcRow>, keys: Seq<SortKey>, order: Seq<usize>) -> bool {
    &&& order.len() == rows.len()
    &&& forall|a: int| 0 <= a < order.len() ==> order[a] < rows.len()
    &&& forall|a: int, b: int| 0 <= a < b < order.len() ==> comes_before(rows, keys, order[a] as int, order[b] as int)
}

proof fn lemma_text_order(a: Seq<char>, b: Seq<char>, c: Seq<char>)
    ensures
        text_order(a, b) == -text_order(b, a),
        -1 <= text_order(a, b) <= 1,
        text_order(a, b) <= 0 && text_order(b, c) <= 0 ==> text_order(a, c) <= 0,
        text_order(a, b) < 0 && text_order(b, c) <= 0 ==> text_order(a, c) < 0,
        text_order(a, b) <= 0 && text_order(b, c) < 0 ==> text_order(a, c) < 0,
{
    lemma_seq_lt_total(a, b);
    lemma_seq_lt_total(b, c);
    lemma_seq_lt_total(a, c);
    lemma_seq_lt_irreflexive(a);
    lemma_seq_lt_irreflexive(b);
    if seq_lt(a, b) && seq_lt(b, c) {
        lemma_seq_lt_transitive(a, b, c);
    }
}

proof fn lemma_column_order(a: ProcRow, b: ProcRow, c: ProcRow, col: ListColumn)
    ensures
        column_order(a, b, col) == -column_order(b, a, col),
        -1 <= column_order(a, b, col) <= 1,
        column_order(a, b, col) <= 0 && column_order(b, c, col) <= 0 ==> column_order(a, c, col) <= 0,
        column_order(a, b, col) < 0 && column_order(b, c, col) <= 0 ==> column_order(a, c, col) < 0,
        column_order(a, b, col) <= 0 && column_order(b, c, col) < 0 ==> column_order(a, c, col) < 0,
        column_order(a, b, col) == 0 && column_order(b, c, col) == 0 ==> column_order(a, c, col) == 0,
{
    match col {
        ListColumn::Name => lemma_text_order(a.name@, b.name@, c.name@),
        ListColumn::Cmd => lemma_text_order(a.cmd@, b.cmd@, c.cmd@),
        ListColumn::Time => lemma_text_order(
            time_field(a.run_time as nat),
            time_field(b.run_time as nat),
            time_field(c.run_time as nat),
        ),
        _ => {},
    }
}

proof fn lemma_key_order(a: ProcRow, b: ProcRow, c: ProcRow, k: SortKey)
    ensures
        key_order(a, b, k) == -key_order(b, a, k),
        -1 <= key_order(a, b, k) <= 1,
        key_order(a, b, k) <= 0 && key_order(b, c, k) <= 0 ==> key_order(a, c, k) <= 0,
        key_order(a, b, k) < 0 && key_order(b, c, k) <= 0 ==> key_order(a, c, k) < 0,
        key_order(a, b, k) <= 0 && key_order(b, c, k) < 0 ==> key_order(a, c, k) < 0,
        key_order(a, b, k) == 0 && key_order(b, c, k) == 0 ==> key_order(a, c, k) == 0,
{
    lemma_column_order(a, b, c, k.column);
    lemma_column_order(c, b, a, k.column);
    lemma_column_order(b, a, c, k.column);
    lemma_column_order(a, c, b, k.column);
}

proof fn lemma_rows_order(a: ProcRow, b: ProcRow, c: ProcRow, keys: Seq<SortKey>)
    ensures
        rows_order(a, b, keys) == -rows_order(b, a, keys),
        rows_order(a, b, keys) < 0 && rows_order(b, c, keys) <= 0 ==> rows_order(a, c, keys) < 0,
        rows_order(a, b, keys) <= 0 && rows_order(b, c, keys) <= 0 ==> rows_order(a, c, keys) <= 0,
    decreases keys.len(),
{
    if keys.len() > 0 {
        let k = keys[0];
        lemma_key_order(a, b, c, k);
        lemma_rows_order(a, b, c, keys.drop_first());
        let ab = key_order(a, b, k);
        let bc = key_order(b, c, k);
        let ac = key_order(a, c, k);
        if ab == 0 && bc == 0 {
            assert(ac == 0);
        } else if ab == 0 && bc < 0 {
            assert(ac < 0);
        } else if ab < 0 && bc == 0 {
            assert(ac < 0);
        } else if ab < 0 && bc < 0 {
            assert(ac < 0);
        }
    }
}

/// The order of two rows by the keys, as -1, 0 or 1 (see [`rows_order`]).
fn compare_rows(a: &ProcRow, b: &ProcRow, keys: &Vec<SortKey>) -> (res: i8)
    ensures
        res == rows_order(*a, *b, keys@),
{
    let mut k: usize = 0;
    assert(keys@.skip(0) =~= keys@);
    while k < keys.len()
        invariant
            k <= keys.len(),
            rows_order(*a, *b, keys@) == rows_order(*a, *b, keys@.skip(k as int)),
        decreases keys.len() - k,
    {
        assert(keys@.skip(k as int).drop_first() =~= keys@.skip(k + 1));
        let c = compare_column(a, b, keys[k].column);
        let c = if keys[k].reverse {
            -c
        } else {
            c
        };
        if c != 0 {
            return c;
        }
        k += 1;
    }
    0
}

/// The order of two texts, as -1, 0 or 1.
fn compare_text(a: &str, b: &str) -> (res: i8)
    ensures
        res == text_order(a@, b@),
{
    let x = chars_of(a);
    let y = chars_of(b);
    if vec_lt(&x, &y) {
        -1
    } else if vec_eq(&x, &y) {
        0
    } else {
        1
    }
}

/// The order of two numbers, as -1, 0 or 1.
fn compare_int(a: u64, b: u64) -> (res: i8)
    ensures
        res == int_order(a as int, b as int),
{
    if a < b {
        -1
    } else if a == b {
        0
    } else {
        1
    }
}

/// An optional id as a number (see [`opt_rank`]).
fn rank(o: Option<u32>) -> (res: u64)
    ensures
        res == opt_rank(o),
{
    match o {
        None => 0,
        Some(u) => u as u64 + 1,
    }
}

/// The order of two rows by column `c` (see [`column_order`]).
fn compare_column(a: &ProcRow, b: &ProcRow, c: ListColumn) -> (res: i8)
    ensures
        res == column_order(*a, *b, c),
{
    match c {
        ListColumn::User => compare_int(rank(a.uid), rank(b.uid)),
        ListColumn::Pid => compare_int(a.pid as u64, b.pid as u64),
        ListColumn::Ppid => compare_int(rank(a.ppid), rank(b.ppid)),
        ListColumn::Name => compare_text(a.name.as_str(), b.name.as_str()),
        ListColumn::Cpu => compare_int(a.cpu_order as u64, b.cpu_order as u64),
        ListColumn::Mem => compare_int(a.mem_order as u64, b.mem_order as u64),
        ListColumn::Time => compare_text(time_text(a.run_time).as_str(), time_text(b.run_time).as_str()),
        ListColumn::Cmd => compare_text(a.cmd.as_str(), b.cmd.as_str()),
    }
}

/// `s` padded on the left with spaces to `w` characters.
fn left_padded(s: &str, w: usize) -> (res: String)
    ensures
        res@ == pad_left(s@, w as nat),
{
    let t = chars_of(s);
    if t.len() >= w {
        return to_owned_string(s);
    }
    let mut out: Vec<char> = Vec::new();
    let mut n: usize = t.len();
    while n < w
        invariant
            t.len() <= n <= w,
            out@ == crate::help::spaces((n - t.len()) as nat),
        decreases w - n,
    {
        out.push(' ');
        n += 1;
        assert(out@ =~= crate::help::spaces((n - t.len()) as nat));
    }
    crate::text::vec_extend(&mut out, &t);
    string_of(&out)
}

/// The run time as the list shows it (see [`time_field`]).
fn time_text(secs: u64) -> (res: String)
    ensures
        res@ == time_field(secs as nat),
{
    left_padded(run_time_string(secs).as_str(), 12)
}

/// The order in which the list shows `rows`: sorted by the keys, the first
/// key first, rows that sort the same in the order given.
pub fn sort_order(rows: &Vec<ProcRow>, keys: &Vec<SortKey>) -> (res: Vec<usize>)
    ensures
        sorted_order(rows@, keys@, res@),
{
    let mut order: Vec<usize> = Vec::new();
    let mut i: usize = 0;
    while i < rows.len()
        invariant
            i <= rows.len(),
            order@.len() == i,
            forall|a: int| 0 <= a < order@.len() ==> order@[a] < i,
            forall|a: int, b: int| 0 <= a < b < order@.len() ==> comes_before(rows@, keys@, order@[a] as int, order@[b] as int),
        decreases rows.len() - i,
    {
        let mut pos: usize = 0;
        while pos < order.len() && compare_rows(&rows[i], &rows[order[pos]], keys) >= 0
            invariant
                i < rows.len(),
                pos <= order.len(),
                forall|a: int| 0 <= a < order@.len() ==> order@[a] < i,
                forall|a: int| 0 <= a < pos ==> rows_order(rows@[i as int], rows@[order@[a] as int], keys@) >= 0,
            decreases order.len() - pos,
        {
            pos += 1;
        }
        let ghost before = order@;
        order.insert(pos, i);
        proof {
            assert forall|a: int, b: int| 0 <= a < b < order@.len() implies comes_before(
                rows@,
                keys@,
                order@[a] as int,
                order@[b] as int,
            ) by {
                let ri = rows@[i as int];
                if a < pos && b == pos {
                    lemma_rows_order(rows@[before[a] as int], ri, ri, keys@);
                } else if a == pos {
                    let x = rows@[before[pos as int] as int];
                    let y = rows@[before[b - 1] as int];
                    if b - 1 > pos {
                        assert(comes_before(rows@, keys@, before[pos as int] as int, before[b - 1] as int));
                    }
                    lemma_rows_order(ri, x, y, keys@);
                } else if a < pos && b > pos {
                    assert(order@[a] == before[a] && order@[b] == before[b - 1]);
                } else if a > pos {
                    assert(order@[a] == before[a - 1] && order@[b] == before[b - 1]);
                }
            }
        }
        i += 1;
    }
    order
}

/// Is the row shown when only the processes of user `me` are listed? All are
/// when the user is not known.
pub open spec fn row_kept(row: ProcRow, me: Option<u32>) -> bool {
    match me {
        None => true,
        Some(u) => row.uid == Some(u),
    }
}

/// Is the row shown when only the processes of user `me` are listed (see
/// [`row_kept`])?
pub fn keep_row(row: &ProcRow, me: Option<u32>) -> (res: bool)
    ensures
        res == row_kept(*row, me),
{
    match me {
        None => true,
        Some(u) => match row.uid {
            Some(v) => v == u,
            None => false,
        },
    }
}

/// `s` cut to its first `w` bytes and padded on the left to `w` characters
/// (see [`crate::ps::truncate_and_pad`]).
pub open spec fn cut_pad(s: Seq<char>, w: nat) -> Seq<char> {
    pad_left(
        if crate::pager::utf8_len(s) > w {
            s.take(crate::ps::char_boundary(s, w)->0)
        } else {
            s
        },
        w,
    )
}

/// Can `s` be cut to its first `w` bytes (the cut falls between characters)?
pub open spec fn cuttable(s: Seq<char>, w: nat) -> bool {
    crate::pager::utf8_len(s) > w ==> crate::ps::char_boundary(s, w) is Some
}

/// The header of the list: the column titles, aligned as the fields are,
/// two spaces apart.
pub open spec fn header_text(long: bool) -> Seq<char> {
    let base = pad_left("USER"@, USER_WIDTH as nat) + "  "@ + pad_left("PID"@, 8) + "  "@ + pad_left("PPID"@, 8) + "  "@
        + pad_left("NAME"@, NAME_WIDTH as nat) + "  "@ + pad_left("CPU%"@, 10) + "  "@ + pad_left("MEM (MB)"@, 10) + "  "@
        + pad_left("TIME"@, 12);
    if long {
        base + "  "@ + "CMD"@
    } else {
        base
    }
}

/// The line of a row: each field followed by two spaces. The user and the
/// name are cut and padded to their widths; the ids (0 for no parent), the
/// processor and memory use and the run time are right-aligned.
pub open spec fn row_text(row: ProcRow, long: bool) -> Seq<char> {
    let ppid: nat = match row.ppid {
        Some(p) => p as nat,
        None => 0,
    };
    let base = cut_pad(row.user@, USER_WIDTH as nat) + "  "@ + pad_left(crate::text::nat_to_decimal(row.pid as nat), 8)
        + "  "@ + pad_left(crate::text::nat_to_decimal(ppid), 8) + "  "@ + cut_pad(row.name@, NAME_WIDTH as nat) + "  "@
        + pad_left(row.cpu_text@, 10) + "  "@ + pad_left(row.mem_text@, 10) + "  "@ + time_field(row.run_time as nat)
        + "  "@;
    if long {
        base + row.cmd@ + "  "@
    } else {
        base
    }
}

/// The header of the list (see [`header_text`]).
pub fn header_line(long: bool) -> (res: String)
    ensures
        res@ == header_text(long),
{
    let mut h = left_padded("USER", USER_WIDTH);
    crate::text::push_str(&mut h, "  ");
    crate::text::push_str(&mut h, left_padded("PID", 8).as_str());
    crate::text::push_str(&mut h, "  ");
    crate::text::push_str(&mut h, left_padded("PPID", 8).as_str());
    crate::text::push_str(&mut h, "  ");
    crate::text::push_str(&mut h, left_padded("NAME", NAME_WIDTH).as_str());
    crate::text::push_str(&mut h, "  ");
    crate::text::push_str(&mut h, left_padded("CPU%", 10).as_str());
    crate::text::push_str(&mut h, "  ");
    crate::text::push_str(&mut h, left_padded("MEM (MB)", 10).as_str());
    crate::text::push_str(&mut h, "  ");
    crate::text::push_str(&mut h, left_padded("TIME", 12).as_str());
    if long {
        crate::text::push_str(&mut h, "  ");
        crate::text::push_str(&mut h, "CMD");
    }
    h
}

/// The line of a row (see [`row_text`]).
pub fn row_line(row: &ProcRow, long: bool) -> (res: String)
    requires
        cuttable(row.user@, USER_WIDTH as nat),
        cuttable(row.name@, NAME_WIDTH as nat),
    ensures
        res@ == row_text(*row, long),
{
    let ppid: u64 = match row.ppid {
        Some(p) => p as u64,
        None => 0,
    };
    let mut h = crate::ps::truncate_and_pad(row.user.as_str(), USER_WIDTH);
    crate::text::push_str(&mut h, "  ");
    crate::text::push_str(&mut h, left_padded(crate::text::u64_to_string(row.pid as u64).as_str(), 8).as_str());
    crate::text::push_str(&mut h, "  ");
    crate::text::push_str(&mut h, left_padded(crate::text::u64_to_string(ppid).as_str(), 8).as_str());
    crate::text::push_str(&mut h, "  ");
    crate::text::push_str(&mut h, crate::ps::truncate_and_pad(row.name.as_str(), NAME_WIDTH).as_str());
    crate::text::push_str(&mut h, "  ");
    crate::text::push_str(&mut h, left_padded(row.cpu_text.as_str(), 10).as_str());
    crate::text::push_str(&mut h, "  ");
    crate::text::push_str(&mut h, left_padded(row.mem_text.as_str(), 10).as_str());
    crate::text::push_str(&mut h, "  ");
    crate::text::push_str(&mut h, time_text(row.run_time).as_str());
    crate::text::push_str(&mut h, "  ");
    if long {
        crate::text::push_str(&mut h, row.cmd.as_str());
        crate::text::push_str(&mut h, "  ");
    }
    h
}

} // verus!

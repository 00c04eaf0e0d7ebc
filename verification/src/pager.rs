//! The pager of `less`: what each key does to the view of a text.
//!
//! The pager keeps the lines of the text, the size of the screen and the state
//! of the view; the program reads the keys (and what is typed at a prompt) and
//! draws the screen.
use vstd::prelude::*;
use crate::flags::{CommandFlags, FlagSpec, find_long, find_short, lemma_insertion_absent};
use crate::value::{spec_parse_usize, parse_usize};
use crate::text::{chars_of, occurs_at, spec_trim, string_of, to_owned_string, trim, u64_to_chars, nat_to_decimal, vec_extend};

verus! {

/// What to do after a key: nothing, go to the next or previous file, or quit.
#[derive(PartialEq, Eq, Structural, Clone, Copy, Debug)]
pub enum FileAction {
    NoAction,
    NextFile,
    PrevFile,
    Quit,
}

/// A key, with what was typed at the prompt that `:`, `/` and `?` open.
pub enum Key {
    F1,
    Char(char),
    Esc,
    Enter,
    Up,
    Down,
    Left,
    Right,
    PageUp,
    PageDown,
    /// `:` and the command typed.
    Command(String),
    /// `/` (forward) or `?` (backward) and the text to search.
    Search(bool, String),
    Other,
}

/// The state of the view.
#[derive(Clone, PartialEq, Debug)]
pub struct ViewerState {
    pub current_line: usize,
    pub horizontal_scroll: usize,
    pub last_search: Option<String>,
    pub last_search_direction: bool,
    pub redraw: bool,
    pub search_start_index: usize,
    pub show_line_numbers: bool,
    pub status_line: Option<String>,
}

impl ViewerState {
    /// Is this the view of the top of a text, with nothing searched nor shown?
    pub open spec fn is_initial(&self) -> bool {
        &&& self.current_line == 0
        &&& self.horizontal_scroll == 0
        &&& self.last_search is None
        &&& self.last_search_direction
        &&& !self.redraw
        &&& self.search_start_index == 0
        &&& !self.show_line_numbers
        &&& self.status_line is None
    }

    /// The view of the top of a text.
    pub fn new() -> (res: Self)
        ensures
            res.is_initial(),
    {
        ViewerState {
            current_line: 0,
            horizontal_scroll: 0,
            last_search: None,
            last_search_direction: true,
            redraw: false,
            search_start_index: 0,
            show_line_numbers: false,
            status_line: None,
        }
    }
}

/// The pager: the lines of a text, a description of the file, the size of the
/// screen, and the state of the view.
pub struct Viewer {
    pub file_info: Option<String>,
    pub lines: Vec<Vec<char>>,
    pub line_num_width: usize,
    pub screen_width: usize,
    pub screen_height: usize,
    pub state: ViewerState,
}

/// The number of bytes of `c` in UTF-8.
pub open spec fn utf8_width(c: char) -> nat {
    if (c as u32) < 0x80 {
        1
    } else if (c as u32) < 0x800 {
        2
    } else if (c as u32) < 0x10000 {
        3
    } else {
        4
    }
}

/// The number of bytes of `s` in UTF-8 (`str::len`).
pub open spec fn utf8_len(s: Seq<char>) -> nat
    decreases s.len(),
{
    if s.len() == 0 {
        0
    } else {
        utf8_len(s.drop_last()) + utf8_width(s.last())
    }
}

/// Does `n` occur in `h` at character position `i`?
pub open spec fn occurs(h: Seq<char>, n: Seq<char>, i: int) -> bool {
    0 <= i && i + n.len() <= h.len() && h.subrange(i, i + n.len()) == n
}

/// The first character position, at or after `i`, where `n` occurs in `h`.
pub open spec fn first_occurrence(h: Seq<char>, n: Seq<char>, i: int) -> Option<int>
    decreases h.len() + 1 - i,
{
    if i < 0 || i + n.len() > h.len() {
        None
    } else if occurs(h, n, i) {
        Some(i)
    } else {
        first_occurrence(h, n, i + 1)
    }
}

/// The byte position of the first occurrence of `n` in `h` (`str::find`).
pub open spec fn find_pos(h: Seq<char>, n: Seq<char>) -> Option<nat> {
    match first_occurrence(h, n, 0) {
        Some(i) => Some(utf8_len(h.take(i))),
        None => None,
    }
}

/// Text shown in reverse video.
pub open spec fn strong(s: Seq<char>) -> Seq<char> {
    seq!['\x1b', '[', '7', 'm'] + s + seq!['\x1b', '[', '0', 'm']
}

/// The hints that `h` and F1 show.
pub open spec fn help_hints() -> Seq<char> {
    strong("b"@) + " Prev Page | "@ + strong("f"@) + " Next Page | "@ + strong("/"@) + " Search | "@
        + strong("?"@) + " Search Backward | "@ + strong(":n"@) + " Next File | "@ + strong(":p"@)
        + " Prev File | "@ + strong(":q"@) + " Quit"@
}

/// Number of bytes of `c` in UTF-8.
pub(crate) fn char_width(c: char) -> (res: usize)
    ensures
        res == utf8_width(c),
{
    let n = c as u32;
    if n < 0x80 {
        1
    } else if n < 0x800 {
        2
    } else if n < 0x10000 {
        3
    } else {
        4
    }
}

/// Number of bytes of the first `k` characters of `s` in UTF-8.
fn prefix_len(s: &Vec<char>, k: usize) -> (res: usize)
    requires
        k <= s.len(),
        s.len() < usize::MAX / 4,
    ensures
        res == utf8_len(s@.take(k as int)),
        res <= 4 * k,
{
    let mut n: usize = 0;
    let mut i: usize = 0;
    while i < k
        invariant
            i <= k,
            k <= s.len(),
            s.len() < usize::MAX / 4,
            n == utf8_len(s@.take(i as int)),
            n <= 4 * i,
        decreases k - i,
    {
        assert(s@.take(i + 1).drop_last() =~= s@.take(i as int));
        n = n + char_width(s[i]);
        i += 1;
    }
    n
}

/// The byte position of the first occurrence of `n` in `h` (see [`find_pos`]).
fn find(h: &Vec<char>, n: &Vec<char>) -> (res: Option<usize>)
    requires
        h.len() < usize::MAX / 4,
    ensures
        match find_pos(h@, n@) {
            Some(p) => res matches Some(x) && x as nat == p,
            None => res is None,
        },
        res matches Some(p) ==> p <= 4 * h.len(),
{
    if n.len() > h.len() {
        return None;
    }
    let mut i: usize = 0;
    while i <= h.len() - n.len()
        invariant
            n.len() <= h.len(),
            h.len() < usize::MAX / 4,
            first_occurrence(h@, n@, 0) == first_occurrence(h@, n@, i as int),
        decreases h.len() + 1 - i,
    {
        if occurs_at(h, n, i) {
            assert(h@.skip(i as int).take(n@.len() as int) =~= h@.subrange(i as int, i + n@.len()));
            return Some(prefix_len(h, i));
        }
        assert(h@.skip(i as int).take(n@.len() as int) =~= h@.subrange(i as int, i + n@.len()));
        i += 1;
    }
    None
}

/// Text in reverse video (see [`strong`]).
fn make_strong(s: &Vec<char>) -> (res: String)
    ensures
        res@ == strong(s@),
{
    let mut t: Vec<char> = Vec::new();
    t.push('\x1b');
    t.push('[');
    t.push('7');
    t.push('m');
    vec_extend(&mut t, s);
    t.push('\x1b');
    t.push('[');
    t.push('0');
    t.push('m');
    assert(t@ =~= strong(s@));
    string_of(&t)
}


/// The decimal form of `n` has at most `n + 1` digits.
proof fn lemma_decimal_len(n: nat)
    ensures
        nat_to_decimal(n).len() <= n + 1,
    decreases n,
{
    if n >= 10 {
        lemma_decimal_len(n / 10);
    }
}

impl Viewer {
    /// The lines of the text.
    pub open spec fn text(&self) -> Seq<Seq<char>> {
        self.lines@.map_values(|l: Vec<char>| l@)
    }

    /// Well-formedness: lines and screen are not too large for the arithmetic.
    pub open spec fn wf(&self) -> bool {
        &&& self.lines.len() < usize::MAX / 4
        &&& forall|i: int| 0 <= i < self.lines.len() ==> #[trigger] self.lines@[i].len() < usize::MAX / 4
        &&& self.screen_width < usize::MAX / 4
        &&& self.screen_height < usize::MAX / 4
        &&& self.line_num_width < usize::MAX / 4
        &&& self.state.current_line < usize::MAX / 4
        &&& self.state.horizontal_scroll < usize::MAX
    }

    /// A pager for `lines`, on a screen `width` by `height` characters (the
    /// last row is the status line); line numbers are as wide as the number of
    /// lines, plus one.
    pub fn new(file_info: Option<String>, lines: Vec<String>, width: usize, height: usize) -> (res: Self)
        requires
            lines.len() < usize::MAX / 4,
            width < usize::MAX / 4,
            height < usize::MAX / 4,
        ensures
            res.text().len() == lines.len(),
            res.screen_width == width,
            res.screen_height == (if height > 0 { height - 1 } else { 0 }),
            res.state.is_initial(),
            res.line_num_width == nat_to_decimal(lines.len() as nat).len() + 1,
    {
        let mut ls: Vec<Vec<char>> = Vec::new();
        let mut i: usize = 0;
        while i < lines.len()
            invariant
                i <= lines.len(),
                ls.len() == i,
                forall|j: int| 0 <= j < i ==> #[trigger] ls@[j]@ == lines@[j]@,
            decreases lines.len() - i,
        {
            ls.push(chars_of(lines[i].as_str()));
            i += 1;
        }
        let digits = u64_to_chars(lines.len() as u64);
        proof { lemma_decimal_len(lines.len() as nat); }
        Viewer {
            file_info,
            lines: ls,
            line_num_width: digits.len() + 1,
            screen_width: width,
            screen_height: if height > 0 { height - 1 } else { 0 },
            state: ViewerState::new(),
        }
    }

    /// The number of lines.
    pub fn len(&self) -> (res: usize)
        ensures
            res == self.text().len(),
    {
        self.lines.len()
    }

    /// Forget the last search.
    pub fn clear_search(&mut self)
        requires
            old(self).wf(),
        ensures
            final(self).wf(),
            final(self).lines == old(self).lines,
            final(self).state.last_search is None,
            final(self).state.current_line == old(self).state.current_line,
    {
        self.state.last_search = None;
    }

    /// Show `message` in reverse video on the status line.
    fn show_status(&mut self, message: &Vec<char>)
        ensures
            final(self).state.status_line matches Some(s) && s@ == strong(message@),
            final(self).state.current_line == old(self).state.current_line,
            final(self).state.horizontal_scroll == old(self).state.horizontal_scroll,
            final(self).state.search_start_index == old(self).state.search_start_index,
            final(self).state.last_search == old(self).state.last_search,
            final(self).state.last_search_direction == old(self).state.last_search_direction,
            final(self).state.redraw == old(self).state.redraw,
            final(self).state.show_line_numbers == old(self).state.show_line_numbers,
            final(self).lines == old(self).lines,
            final(self).screen_width == old(self).screen_width,
            final(self).screen_height == old(self).screen_height,
            final(self).line_num_width == old(self).line_num_width,
            final(self).file_info == old(self).file_info,
    {
        self.state.status_line = Some(make_strong(message));
    }
}

/// The first line, from line `i` on, in which `q` occurs.
pub open spec fn match_forward(lines: Seq<Seq<char>>, q: Seq<char>, i: int) -> Option<int>
    decreases lines.len() - i,
{
    if i < 0 || i >= lines.len() {
        None
    } else if find_pos(lines[i], q) is Some {
        Some(i)
    } else {
        match_forward(lines, q, i + 1)
    }
}

/// The last line before line `i` in which `q` occurs.
pub open spec fn match_backward(lines: Seq<Seq<char>>, q: Seq<char>, i: int) -> Option<int>
    decreases i,
{
    if i <= 0 {
        None
    } else if i - 1 < lines.len() && find_pos(lines[i - 1], q) is Some {
        Some(i - 1)
    } else {
        match_backward(lines, q, i - 1)
    }
}

/// `a - b`, or 0 if `b` is larger.
pub open spec fn sat_sub(a: int, b: int) -> int {
    if a >= b {
        a - b
    } else {
        0
    }
}

/// The status line after a line number out of range.
pub open spec fn out_of_range_status(n: nat, len: nat) -> Seq<char> {
    strong(nat_to_decimal(n) + " is out of range: [1.."@ + nat_to_decimal(len) + "]"@)
}

/// The horizontal scroll that shows a match at byte `pos` of length `qlen`:
/// none if it fits on the screen, else enough to show its end, past the line
/// numbers (at most `usize::MAX - 1`).
pub open spec fn spec_scroll_to_show(pos: nat, qlen: nat, width: nat, num_width: nat) -> nat {
    if pos + qlen >= width {
        let v = sat_sub(pos as int, width as int) + qlen + num_width + 2;
        if v < usize::MAX {
            v as nat
        } else {
            (usize::MAX - 1) as nat
        }
    } else {
        0
    }
}

/// See [`spec_scroll_to_show`].
fn scroll_to_show(pos: usize, qlen: usize, width: usize, num_width: usize) -> (res: usize)
    ensures
        res == spec_scroll_to_show(pos as nat, qlen as nat, width as nat, num_width as nat),
        res < usize::MAX,
{
    let end = (pos as u128) + (qlen as u128);
    if end >= width as u128 {
        let v: u128 = (pos.saturating_sub(width) as u128) + (qlen as u128) + (num_width as u128) + 2;
        if v < usize::MAX as u128 {
            v as usize
        } else {
            usize::MAX - 1
        }
    } else {
        0
    }
}

/// The number of bytes of `s` in UTF-8, at most `usize::MAX`.
fn prefix_len_long(s: &Vec<char>) -> (res: usize)
    ensures
        utf8_len(s@) <= usize::MAX ==> res == utf8_len(s@),
{
    let mut n: u128 = 0;
    let mut i: usize = 0;
    while i < s.len()
        invariant
            i <= s.len(),
            n == utf8_len(s@.take(i as int)),
            n <= 4 * i,
        decreases s.len() - i,
    {
        assert(s@.take(i + 1).drop_last() =~= s@.take(i as int));
        n = n + (char_width(s[i]) as u128);
        i += 1;
    }
    assert(s@.take(s.len() as int) =~= s@);
    if n <= usize::MAX as u128 {
        n as usize
    } else {
        usize::MAX
    }
}

impl Viewer {
    /// Go to line `cmd` (1-based, with white space around); a number out of range
    /// or not a number is reported on the status line.
    pub fn goto_line(&mut self, cmd: &str)
        requires
            old(self).wf(),
        ensures
            final(self).wf(),
            final(self).lines == old(self).lines,
            match spec_parse_usize(spec_trim(cmd@)) {
                Some(n) => if 1 <= n <= old(self).lines.len() {
                    final(self).state.current_line == n - 1
                        && final(self).state.status_line == old(self).state.status_line
                } else {
                    final(self).state.current_line == old(self).state.current_line
                        && (final(self).state.status_line matches Some(st)
                        && st@ == out_of_range_status(n, old(self).lines.len() as nat))
                },
                None => final(self).state.current_line == old(self).state.current_line
                    && (final(self).state.status_line matches Some(st) && st@ == strong("Invalid line number"@)),
            },
    {
        let t = trim(&chars_of(cmd));
        match parse_usize(&t) {
            Some(n) => {
                if n < 1 || n > self.lines.len() {
                    let mut m = u64_to_chars(n as u64);
                    let a = chars_of(" is out of range: [1..");
                    vec_extend(&mut m, &a);
                    let l = u64_to_chars(self.lines.len() as u64);
                    vec_extend(&mut m, &l);
                    m.push(']');
                    proof {
                        reveal_strlit(" is out of range: [1..");
                        reveal_strlit("]");
                        assert(m@ =~= nat_to_decimal(n as nat) + " is out of range: [1.."@ + nat_to_decimal(
                            self.lines.len() as nat,
                        ) + "]"@);
                    }
                    self.show_status(&m);
                } else {
                    self.state.current_line = n - 1;
                }
            },
            None => {
                let m = chars_of("Invalid line number");
                self.show_status(&m);
            },
        }
    }

    /// Go to the last page.
    pub fn last_page(&mut self)
        requires
            old(self).wf(),
        ensures
            final(self).wf(),
            final(self).state.current_line == sat_sub(old(self).lines.len() as int, old(self).screen_height as int),
            final(self).lines == old(self).lines,
    {
        if self.lines.len() == 0 {
            self.state.current_line = 0;
        } else {
            self.state.current_line = self.lines.len().saturating_sub(self.screen_height);
        }
    }

    /// Go one line down, unless at the last line.
    pub fn next_line(&mut self)
        requires
            old(self).wf(),
        ensures
            final(self).wf(),
            final(self).state.current_line == if old(self).state.current_line < sat_sub(old(self).lines.len() as int, 1) {
                old(self).state.current_line + 1
            } else {
                old(self).state.current_line as int
            },
            final(self).lines == old(self).lines,
    {
        if self.state.current_line < self.lines.len().saturating_sub(1) {
            self.state.current_line = self.state.current_line + 1;
        }
    }

    /// Go one page down, but not past the last line.
    pub fn next_page(&mut self)
        requires
            old(self).wf(),
        ensures
            final(self).wf(),
            ({
                let cur = old(self).state.current_line as int;
                let target = cur + old(self).screen_height;
                let last = sat_sub(old(self).lines.len() as int, 1);
                let new_line = if target < last { target } else { last };
                final(self).state.current_line == if new_line > cur { new_line } else { cur }
            }),
            final(self).lines == old(self).lines,
    {
        let target = self.state.current_line + self.screen_height;
        let last = self.lines.len().saturating_sub(1);
        let new_line = if target < last { target } else { last };
        if new_line > self.state.current_line {
            self.state.current_line = new_line;
        }
    }

    /// Go one page up, but not above the first line.
    pub fn prev_page(&mut self)
        requires
            old(self).wf(),
        ensures
            final(self).wf(),
            final(self).state.current_line == sat_sub(old(self).state.current_line as int, old(self).screen_height as int),
            final(self).lines == old(self).lines,
    {
        self.state.current_line = self.state.current_line.saturating_sub(self.screen_height);
    }

    /// Go one line up, unless at the first line.
    pub fn prev_line(&mut self)
        requires
            old(self).wf(),
        ensures
            final(self).wf(),
            final(self).state.current_line == sat_sub(old(self).state.current_line as int, 1),
            final(self).lines == old(self).lines,
    {
        if self.state.current_line > 0 {
            self.state.current_line = self.state.current_line - 1;
        }
    }

    /// Scroll one column to the right.
    pub fn scroll_right(&mut self)
        requires
            old(self).wf(),
        ensures
            final(self).wf(),
            old(self).state.horizontal_scroll + 1 < usize::MAX ==> final(self).state.horizontal_scroll
                == old(self).state.horizontal_scroll + 1,
            final(self).lines == old(self).lines,
            final(self).state.current_line == old(self).state.current_line,
    {
        if self.state.horizontal_scroll + 1 < usize::MAX {
            self.state.horizontal_scroll = self.state.horizontal_scroll + 1;
        }
    }

    /// Scroll one column to the left, but not past the first.
    pub fn scroll_left(&mut self)
        requires
            old(self).wf(),
        ensures
            final(self).wf(),
            final(self).state.horizontal_scroll == sat_sub(old(self).state.horizontal_scroll as int, 1),
            final(self).lines == old(self).lines,
            final(self).state.current_line == old(self).state.current_line,
    {
        self.state.horizontal_scroll = self.state.horizontal_scroll.saturating_sub(1);
    }

    /// The first line from line `i` on in which `q` occurs, and the byte
    /// position of the match.
    fn find_forward(&self, q: &Vec<char>, i: usize) -> (res: Option<(usize, usize)>)
        requires
            self.wf(),
        ensures
            match match_forward(self.text(), q@, i as int) {
                Some(k) => res matches Some((k2, p)) && k2 == k && find_pos(self.text()[k], q@) == Some(p as nat)
                    && k < self.lines.len() && p <= 4 * self.lines@[k]@.len(),
                None => res is None,
            },
    {
        let mut k = i;
        while k < self.lines.len()
            invariant
                self.wf(),
                match_forward(self.text(), q@, i as int) == match_forward(self.text(), q@, k as int),
            decreases self.lines.len() - k,
        {
            assert(self.text()[k as int] == self.lines@[k as int]@);
            match find(&self.lines[k], q) {
                Some(pos) => {
                    return Some((k, pos));
                },
                None => {},
            }
            k += 1;
        }
        None
    }

    /// The last line before line `i` in which `q` occurs, and the byte position
    /// of the match.
    fn find_backward(&self, q: &Vec<char>, i: usize) -> (res: Option<(usize, usize)>)
        requires
            self.wf(),
        ensures
            match match_backward(self.text(), q@, i as int) {
                Some(k) => res matches Some((k2, p)) && k2 == k && find_pos(self.text()[k], q@) == Some(p as nat)
                    && k < self.lines.len() && p <= 4 * self.lines@[k]@.len(),
                None => res is None,
            },
    {
        let mut k = i;
        while k > 0
            invariant
                self.wf(),
                match_backward(self.text(), q@, i as int) == match_backward(self.text(), q@, k as int),
            decreases k,
        {
            if k - 1 < self.lines.len() {
                assert(self.text()[k - 1] == self.lines@[k - 1]@);
                match find(&self.lines[k - 1], q) {
                    Some(pos) => {
                        return Some((k - 1, pos));
                    },
                    None => {},
                }
            }
            k -= 1;
        }
        None
    }

    /// Search `query` from line `search_start_index` on (forward), or in the
    /// lines before it (backward). Found: the line becomes the current one, the
    /// next search starts after it (before it, backward), and the view scrolls
    /// so that the match shows. Not found: the status line says so.
    pub fn search(&mut self, query: &str, forward: bool) -> (res: bool)
        requires
            old(self).wf(),
        ensures
            final(self).wf(),
            final(self).lines == old(self).lines,
            ({
                let found = if forward {
                    match_forward(old(self).text(), query@, old(self).state.search_start_index as int)
                } else {
                    match_backward(old(self).text(), query@, old(self).state.search_start_index as int)
                };
                match found {
                    Some(i) => res && final(self).state.current_line == i && final(self).state.search_start_index
                        == (if forward { i + 1 } else { sat_sub(i, 1) })
                        && (utf8_len(query@) <= usize::MAX ==> final(self).state.horizontal_scroll == spec_scroll_to_show(
                        find_pos(old(self).text()[i], query@)->0,
                        utf8_len(query@),
                        old(self).screen_width as nat,
                        old(self).line_num_width as nat,
                    )),
                    None => !res && final(self).state.current_line == old(self).state.current_line
                        && (final(self).state.status_line matches Some(st) && st@ == strong("Pattern not found: "@ + query@)),
                }
            }),
    {
        let q = chars_of(query);
        let found = if forward {
            self.find_forward(&q, self.state.search_start_index)
        } else {
            self.find_backward(&q, self.state.search_start_index)
        };
        match found {
            Some((i, pos)) => {
                self.state.current_line = i;
                self.state.search_start_index = if forward { i + 1 } else { i.saturating_sub(1) };
                let qlen = prefix_len_long(&q);
                self.state.horizontal_scroll = scroll_to_show(pos, qlen, self.screen_width, self.line_num_width);
                true
            },
            None => {
                let mut m = chars_of("Pattern not found: ");
                vec_extend(&mut m, &q);
                self.show_status(&m);
                false
            },
        }
    }
}

/// The line after moving one line down.
pub open spec fn next_line_of(cur: int, len: int) -> int {
    if cur < sat_sub(len, 1) {
        cur + 1
    } else {
        cur
    }
}

/// The line after moving one page down.
pub open spec fn next_page_of(cur: int, len: int, height: int) -> int {
    let target = cur + height;
    let last = sat_sub(len, 1);
    let new_line = if target < last { target } else { last };
    if new_line > cur {
        new_line
    } else {
        cur
    }
}

/// What a key does to the current line, for the keys that only move it.
pub open spec fn moved_line(key: Key, cur: int, len: int, height: int) -> Option<int> {
    match key {
        Key::Char(c) => if c == 'b' {
            Some(sat_sub(cur, height))
        } else if c == 'f' || c == ' ' {
            Some(next_page_of(cur, len, height))
        } else if c == 'G' {
            Some(sat_sub(len, height))
        } else {
            None
        },
        Key::Enter => Some(next_line_of(cur, len)),
        Key::Down => Some(next_line_of(cur, len)),
        Key::Up => Some(sat_sub(cur, 1)),
        Key::PageUp => Some(sat_sub(cur, height)),
        Key::PageDown => Some(next_page_of(cur, len, height)),
        _ => None,
    }
}

/// The action of a key: `q`, `:q` quit; `:n`, `:p` the next, previous file.
pub open spec fn key_action(key: Key) -> FileAction {
    match key {
        Key::Char(c) => if c == 'q' {
            FileAction::Quit
        } else {
            FileAction::NoAction
        },
        Key::Command(cmd) => {
            let t = spec_trim(cmd@);
            if t == seq!['n'] {
                FileAction::NextFile
            } else if t == seq!['p'] {
                FileAction::PrevFile
            } else if t == seq!['q'] {
                FileAction::Quit
            } else {
                FileAction::NoAction
            }
        },
        _ => FileAction::NoAction,
    }
}

/// Append `s` in reverse video.
fn push_strong(out: &mut Vec<char>, s: &str)
    ensures
        final(out)@ == old(out)@ + strong(s@),
{
    let t = make_strong(&chars_of(s));
    let c = chars_of(t.as_str());
    vec_extend(out, &c);
}

/// Append `s`.
fn push_text(out: &mut Vec<char>, s: &str)
    ensures
        final(out)@ == old(out)@ + s@,
{
    let c = chars_of(s);
    vec_extend(out, &c);
}

impl Viewer {
    /// Search again for the last search, in the same direction.
    pub fn repeat_search(&mut self) -> (res: bool)
        requires
            old(self).wf(),
        ensures
            final(self).wf(),
            final(self).lines == old(self).lines,
            old(self).state.last_search is None ==> !res && final(self).state == old(self).state,
            old(self).state.last_search matches Some(q) ==> ({
                let found = if old(self).state.last_search_direction {
                    match_forward(old(self).text(), q@, old(self).state.search_start_index as int)
                } else {
                    match_backward(old(self).text(), q@, old(self).state.search_start_index as int)
                };
                &&& res == found is Some
                &&& found matches Some(i) ==> final(self).state.current_line == i
                &&& found is None ==> final(self).state.current_line == old(self).state.current_line
            }),
    {
        let q = match &self.state.last_search {
            Some(q) => to_owned_string(q.as_str()),
            None => {
                return false;
            },
        };
        let forward = self.state.last_search_direction;
        self.search(q.as_str(), forward)
    }

    /// Show the hints (see [`help_hints`]) on the status line.
    pub fn show_help(&mut self)
        requires
            old(self).wf(),
        ensures
            final(self).wf(),
            final(self).lines == old(self).lines,
            final(self).state.current_line == old(self).state.current_line,
            final(self).state.status_line matches Some(st) && st@ == strong(help_hints()),
    {
        let mut text: Vec<char> = Vec::new();
        push_strong(&mut text, "b");
        push_text(&mut text, " Prev Page | ");
        push_strong(&mut text, "f");
        push_text(&mut text, " Next Page | ");
        push_strong(&mut text, "/");
        push_text(&mut text, " Search | ");
        push_strong(&mut text, "?");
        push_text(&mut text, " Search Backward | ");
        push_strong(&mut text, ":n");
        push_text(&mut text, " Next File | ");
        push_strong(&mut text, ":p");
        push_text(&mut text, " Prev File | ");
        push_strong(&mut text, ":q");
        push_text(&mut text, " Quit");
        assert(text@ =~= help_hints());
        self.show_status(&text);
    }
}

impl Viewer {
    /// What key `key` does: moves the view, searches, goes to a line, shows the
    /// hints, or ends the view of the file (see [`key_action`] and
    /// [`moved_line`]). `state` is the state before the key, whose `redraw` is
    /// set when the screen must be drawn again though the view did not change.
    pub fn process_key_code(&mut self, key: &Key, state: &mut ViewerState) -> (res: FileAction)
        requires
            old(self).wf(),
        ensures
            final(self).wf(),
            final(self).lines == old(self).lines,
            res == key_action(*key),
            moved_line(*key, old(self).state.current_line as int, old(self).lines.len() as int, old(self).screen_height as int)
                matches Some(l) ==> final(self).state.current_line == l,
            *key == Key::Char('l') ==> final(self).state.show_line_numbers == !old(self).state.show_line_numbers,
            *key == Key::Esc ==> final(self).state.last_search is None,
            (*key == Key::F1 || *key == Key::Char('h')) ==> (final(self).state.status_line matches Some(st) && st@ == strong(help_hints())),
            key matches Key::Command(cmd) && spec_trim(cmd@).len() == 0 ==> final(state).redraw,
            key matches Key::Search(_, q) && spec_trim(q@).len() == 0 ==> final(state).redraw,
            match *key {
                Key::Search(forward, query) => spec_trim(query@).len() > 0 ==> ({
                    let q = spec_trim(query@);
                    let found = if forward {
                        match_forward(old(self).text(), q, old(self).state.current_line as int)
                    } else {
                        match_backward(
                            old(self).text(),
                            q,
                            old(self).state.current_line + old(self).screen_height,
                        )
                    };
                    match found {
                        Some(i) => final(self).state.current_line == i && (final(self).state.last_search matches Some(
                            s,
                        ) && s@ == q) && final(self).state.last_search_direction == forward,
                        None => final(self).state.current_line == old(self).state.current_line && final(state).redraw,
                    }
                }),
                Key::Char('n') => match old(self).state.last_search {
                    None => final(self).state == old(self).state,
                    Some(q) => {
                        let found = if old(self).state.last_search_direction {
                            match_forward(old(self).text(), q@, old(self).state.search_start_index as int)
                        } else {
                            match_backward(old(self).text(), q@, old(self).state.search_start_index as int)
                        };
                        match found {
                            Some(i) => final(self).state.current_line == i,
                            None => final(self).state.current_line == old(self).state.current_line
                                && final(state).redraw,
                        }
                    },
                },
                Key::Command(cmd) => {
                    let t = spec_trim(cmd@);
                    t.len() > 0 && t != seq!['n'] && t != seq!['p'] && t != seq!['q'] ==> match spec_parse_usize(t) {
                        Some(n) => if 1 <= n <= old(self).lines.len() {
                            final(self).state.current_line == n - 1
                        } else {
                            final(self).state.current_line == old(self).state.current_line && (
                            final(self).state.status_line matches Some(st) && st@ == out_of_range_status(
                                n,
                                old(self).lines.len() as nat,
                            ))
                        },
                        None => final(self).state.current_line == old(self).state.current_line && (
                        final(self).state.status_line matches Some(st) && st@ == strong("Invalid line number"@)),
                    }
                },
                Key::Left => final(self).state.horizontal_scroll == sat_sub(old(self).state.horizontal_scroll as int, 1),
                Key::Right => old(self).state.horizontal_scroll + 1 < usize::MAX ==> final(self).state.horizontal_scroll
                    == old(self).state.horizontal_scroll + 1,
                _ => true,
            },
    {
        match key {
            Key::F1 => {
                self.show_help();
                FileAction::NoAction
            },
            Key::Char(c) => {
                let c = *c;
                if c == 'h' {
                    self.show_help();
                } else if c == 'q' {
                    return FileAction::Quit;
                } else if c == 'b' {
                    self.prev_page();
                } else if c == 'f' || c == ' ' {
                    self.next_page();
                } else if c == 'G' {
                    self.last_page();
                } else if c == 'n' {
                    if !self.repeat_search() {
                        state.redraw = true;
                    }
                } else if c == 'l' {
                    self.state.show_line_numbers = !self.state.show_line_numbers;
                }
                FileAction::NoAction
            },
            Key::Command(cmd) => {
                let t = trim(&chars_of(cmd.as_str()));
                if t.len() == 1 && t[0] == 'n' {
                    assert(t@ =~= seq!['n']);
                    FileAction::NextFile
                } else if t.len() == 1 && t[0] == 'p' {
                    assert(t@ =~= seq!['p']);
                    FileAction::PrevFile
                } else if t.len() == 1 && t[0] == 'q' {
                    assert(t@ =~= seq!['q']);
                    FileAction::Quit
                } else if t.len() == 0 {
                    state.redraw = true;
                    FileAction::NoAction
                } else {
                    self.goto_line(cmd.as_str());
                    FileAction::NoAction
                }
            },
            Key::Esc => {
                self.clear_search();
                FileAction::NoAction
            },
            Key::Enter => {
                self.next_line();
                FileAction::NoAction
            },
            Key::Up => {
                self.prev_line();
                FileAction::NoAction
            },
            Key::Down => {
                self.next_line();
                FileAction::NoAction
            },
            Key::Left => {
                self.scroll_left();
                FileAction::NoAction
            },
            Key::Right => {
                self.scroll_right();
                FileAction::NoAction
            },
            Key::PageUp => {
                self.prev_page();
                FileAction::NoAction
            },
            Key::PageDown => {
                self.next_page();
                FileAction::NoAction
            },
            Key::Search(forward, query) => {
                let forward = *forward;
                let q = string_of(&trim(&chars_of(query.as_str())));
                if q.as_str().unicode_len() == 0 {
                    state.redraw = true;
                } else {
                    self.state.search_start_index = if forward {
                        self.state.current_line
                    } else {
                        self.state.current_line + self.screen_height
                    };
                    if self.search(q.as_str(), forward) {
                        self.state.last_search = Some(q);
                        self.state.last_search_direction = forward;
                    } else {
                        state.redraw = true;
                    }
                }
                FileAction::NoAction
            },
            Key::Other => FileAction::NoAction,
        }
    }
}

/// The help of `less` after its usage line: the keys of the pager.
pub const LESS_HELP: &'static str = "View FILE(s) or the standard input (stdin) in a pager.\n\nUser Interaction:\n  Navigation:\n    Up Arrow             Move one line up.\n    Down Arrow           Move one line down.\n    Left Arrow           Scroll horizontally left.\n    Right Arrow          Scroll horizontally right.\n    PageUp               Go to the previous page.\n    b                    Go to the previous page.\n    PageDown             Go to the next page.\n    f                    Go to the next page.\n    Space                Go to the next page.\n    G                    Go to the last page.\n    :N                   Go to line number N (1-based).\n    :n                   Load the next file.\n    :p                   Load the previous file.\n    :q                   Quit the viewer.\n    q                    Quit the viewer.\n\n  Search:\n    /                    Search forward.\n    ?                    Search backward.\n    n                    Repeat the last search (preserving the direction).\n    Esc                  Clear the search.\n\n  Miscellaneous:\n    l                    Toggle line numbering for the current file.\n    h                    Show hints at the bottom of the screen.\n    F1                   Show hints at the bottom of the screen.\n";

/// The `less` command and its flags.
pub struct Less {
    pub flags: CommandFlags,
}

impl Less {
    /// The command with its flags: `--help`, `--follow-links`, `--number`.
    pub fn new() -> (res: Self)
        ensures
            res.flags.wf(),
            res.flags.spec_flags().len() == 3,
            res.flags.spec_flags().contains(FlagSpec { short: Some('?'), long: "help"@, help: "Display this help message"@, takes_value: false, default_value: None }),
            res.flags.spec_flags().contains(FlagSpec { short: Some('L'), long: "follow-links"@, help: "Follow symbolic links"@, takes_value: false, default_value: None }),
            res.flags.spec_flags().contains(FlagSpec { short: Some('n'), long: "number"@, help: "Number output lines"@, takes_value: false, default_value: None }),
    {
        let mut flags = CommandFlags::with_follow_links();
        proof { crate::flags::lemma_insertion_keeps(seq![FlagSpec { short: Some('?'), long: "help"@, help: "Display this help message"@, takes_value: false, default_value: None }], flags.spec_flags(), FlagSpec { short: Some('L'), long: "follow-links"@, help: "Follow symbolic links"@, takes_value: false, default_value: None }); assert(seq![FlagSpec { short: Some('?'), long: "help"@, help: "Display this help message"@, takes_value: false, default_value: None }][0] == FlagSpec { short: Some('?'), long: "help"@, help: "Display this help message"@, takes_value: false, default_value: None }); }
        proof {
            reveal_strlit("number");
            reveal_strlit("help");
            reveal_strlit("follow-links");
            assert("number"@.len() == 6);
            assert("help"@.len() == 4);
            assert("follow-links"@.len() == 12);
            let h = FlagSpec {
                short: Some('?'),
                long: "help"@,
                help: "Display this help message"@,
                takes_value: false,
                default_value: None,
            };
            let l = FlagSpec {
                short: Some('L'),
                long: "follow-links"@,
                help: "Follow symbolic links"@,
                takes_value: false,
                default_value: None,
            };
            assert(find_long(seq![h], "number"@) is None);
            assert(find_short(seq![h], 'n') is None);
            lemma_insertion_absent(seq![h], flags.spec_flags(), l, "number"@, 'n');
        }
        let ghost pre_flags_0 = flags.spec_flags();
        flags.add_flag('n', "number", "Number output lines");
        proof { crate::flags::lemma_insertion_keeps(pre_flags_0, flags.spec_flags(), FlagSpec { short: Some('n'), long: "number"@, help: "Number output lines"@, takes_value: false, default_value: None }); }
        Less { flags }
    }

    /// The help of `less` (see [`LESS_HELP`]), invoked as `name`.
    pub fn help_text(name: &str) -> (res: String)
        ensures
            res@ == "Usage: "@ + name@ + " [OPTION]... [FILE]...\n"@ + LESS_HELP@,
    {
        let mut t = crate::text::concat3("Usage: ", name, " [OPTION]... [FILE]...\n");
        crate::text::push_str(&mut t, LESS_HELP);
        t
    }
}

/// The file that the pager shows after `action` on file `i` of `count`: the
/// previous one (none before the first), the next one (none after the last),
/// the same one, or none at all to quit.
pub fn next_file(i: usize, action: FileAction, count: usize) -> (res: Option<usize>)
    requires
        i < count,
    ensures
        match action {
            FileAction::Quit => res is None,
            FileAction::PrevFile => res == Some(if i > 0 { (i - 1) as usize } else { 0usize }),
            FileAction::NextFile => res == Some(if i + 1 < count { (i + 1) as usize } else { (count - 1) as usize }),
            FileAction::NoAction => res == Some(i),
        },
{
    match action {
        FileAction::Quit => None,
        FileAction::PrevFile => Some(if i > 0 { i - 1 } else { 0 }),
        FileAction::NextFile => Some(if i + 1 < count { i + 1 } else { count - 1 }),
        FileAction::NoAction => Some(i),
    }
}

/// The title of file `i` (0-based) of `count`: `NAME (I of COUNT)`.
pub fn file_title(filename: &str, i: usize, count: usize) -> (res: String)
    requires
        i < count,
    ensures
        res@ == filename@ + " ("@ + nat_to_decimal((i + 1) as nat) + " of "@ + nat_to_decimal(count as nat) + ")"@,
{
    let mut t = chars_of(filename);
    let a = chars_of(" (");
    vec_extend(&mut t, &a);
    let n = u64_to_chars((i + 1) as u64);
    vec_extend(&mut t, &n);
    let b = chars_of(" of ");
    vec_extend(&mut t, &b);
    let c = u64_to_chars(count as u64);
    vec_extend(&mut t, &c);
    t.push(')');
    proof {
        reveal_strlit(")");
        assert(")"@ =~= seq![')']);
    }
    string_of(&t)
}

} // verus!

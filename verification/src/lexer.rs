//! Tokens of the shell language.
//!
//! The lexer reads one token at a time. Some of its decisions depend on the
//! parser: whether `-`, `/`, `+` and `*` separate words depends on what has been
//! parsed so far, and is passed in a [`LexContext`].
use vstd::prelude::*;
use crate::scope::Scope;
use crate::text::{
    chars_of, is_prefix, is_whitespace, spec_is_whitespace, string_of, to_owned_string, vec_extend,
    vec_range,
};
use crate::value::{numeric_text, is_numeric_text};
use crate::expand::{spec_parse_value, value_chars};

verus! {

/// Operators.
#[derive(PartialEq, Eq, Structural, Clone, Copy, Debug)]
pub enum Op {
    And,
    Append,
    Assign,
    Div,
    Equals,
    Gt,
    Gte,
    IntDiv,
    Minus,
    Mod,
    Mul,
    Lt,
    Lte,
    Not,
    NotEquals,
    Or,
    Pipe,
    Plus,
    Write,
}

/// The precedence classes of operators.
#[derive(PartialEq, Eq, Structural, Clone, Copy, Debug)]
pub enum Priority {
    VeryLow,
    Low,
    High,
}

/// The rank of a precedence class, lowest first.
pub open spec fn priority_rank(p: Priority) -> int {
    match p {
        Priority::VeryLow => 0,
        Priority::Low => 1,
        Priority::High => 2,
    }
}

/// The precedence class of an operator: assignment and pipe bind loosest,
/// multiplication, division and modulo tightest.
pub open spec fn spec_op_priority(op: Op) -> Priority {
    match op {
        Op::Assign | Op::Pipe => Priority::VeryLow,
        Op::And | Op::Append | Op::Or | Op::Gt | Op::Gte | Op::Lt | Op::Lte | Op::Not
        | Op::NotEquals | Op::Minus | Op::Plus | Op::Write => Priority::Low,
        _ => Priority::High,
    }
}

/// Does operator `a` bind tighter than operator `b`?
pub open spec fn binds_tighter(a: Op, b: Op) -> bool {
    priority_rank(spec_op_priority(a)) > priority_rank(spec_op_priority(b))
}

/// Is `op` one of `*`, `/`, `//` and `%`?
pub open spec fn is_multiplicative(op: Op) -> bool {
    op == Op::Mul || op == Op::Div || op == Op::IntDiv || op == Op::Mod
}

/// The multiplicative operators `*`, `/`, `//` and `%` share one precedence
/// class (with `==`), and bind tighter than `+`, `-`, the other comparisons,
/// `&&`, `||`, `!`, redirections, assignment and pipes: in `a - b % c` the `%`
/// is applied first.
pub proof fn law_multiplicative_bind_tightest(m: Op, other: Op)
    requires
        is_multiplicative(m),
    ensures
        spec_op_priority(m) == spec_op_priority(Op::Mul),
        !is_multiplicative(other) && other != Op::Equals ==> binds_tighter(m, other),
{
}

impl Op {
    /// The precedence class of the operator.
    pub fn priority(&self) -> (res: Priority)
        ensures
            res == spec_op_priority(*self),
    {
        match self {
            Op::Assign | Op::Pipe => Priority::VeryLow,
            Op::And | Op::Append | Op::Or | Op::Gt | Op::Gte | Op::Lt | Op::Lte | Op::Not
            | Op::NotEquals | Op::Minus | Op::Plus | Op::Write => Priority::Low,
            _ => Priority::High,
        }
    }

    /// Can the operator stand without a left operand (`-x`, `!x`)?
    pub fn is_unary_ok(&self) -> (res: bool)
        ensures
            res == (*self == Op::Minus || *self == Op::Not),
    {
        match self {
            Op::Minus | Op::Not => true,
            _ => false,
        }
    }

    /// The operator as written.
    pub open spec fn text(self) -> Seq<char> {
        match self {
            Op::And => "&&"@,
            Op::Append => "=>>"@,
            Op::Assign => "="@,
            Op::Div => "/"@,
            Op::Equals => "=="@,
            Op::Gt => ">"@,
            Op::Gte => ">="@,
            Op::IntDiv => "//"@,
            Op::Minus => "-"@,
            Op::Mod => "%"@,
            Op::Mul => "*"@,
            Op::Lt => "<"@,
            Op::Lte => "<="@,
            Op::Not => "!"@,
            Op::NotEquals => "!="@,
            Op::Or => "||"@,
            Op::Pipe => "|"@,
            Op::Plus => "+"@,
            Op::Write => "=>"@,
        }
    }

    /// The operator as written (see [`Op::text`]).
    pub fn as_str(&self) -> (res: &'static str)
        ensures
            res@ == self.text(),
    {
        match self {
            Op::And => "&&",
            Op::Append => "=>>",
            Op::Assign => "=",
            Op::Div => "/",
            Op::Equals => "==",
            Op::Gt => ">",
            Op::Gte => ">=",
            Op::IntDiv => "//",
            Op::Minus => "-",
            Op::Mod => "%",
            Op::Mul => "*",
            Op::Lt => "<",
            Op::Lte => "<=",
            Op::Not => "!",
            Op::NotEquals => "!=",
            Op::Or => "||",
            Op::Pipe => "|",
            Op::Plus => "+",
            Op::Write => "=>",
        }
    }
}

/// A word: its text, whether it was (partly) quoted, whether it was a raw string `r"(...)"`.
#[derive(Debug)]
pub struct Text {
    pub value: String,
    pub quoted: bool,
    pub raw: bool,
}

impl Text {
    /// A copy of this word.
    pub fn duplicate(&self) -> (res: Text)
        ensures
            res.value@ == self.value@,
            res.quoted == self.quoted,
            res.raw == self.raw,
    {
        Text { value: self.value.clone(), quoted: self.quoted, raw: self.raw }
    }
}

/// Tokens.
#[derive(Debug)]
pub enum Token {
    End,
    Keyword(String),
    Literal(Text),
    Operator(Op),
    LeftParen,
    RightParen,
    Semicolon,
}

/// A position in the input: line and column, both counted from 1.
#[derive(PartialEq, Eq, Structural, Clone, Copy, Debug)]
pub struct Location {
    pub line: u32,
    pub col: u32,
}

impl Location {
    /// A location.
    pub fn new(line: u32, col: u32) -> (res: Self)
        ensures
            res.line == line,
            res.col == col,
    {
        Location { line, col }
    }
}

/// What the parser tells the lexer about the expression being built.
pub struct LexContext {
    /// Are we in the argument list of a command or of a FOR?
    pub in_args: bool,
    /// Is the current expression a command?
    pub current_is_cmd: bool,
    /// Is there no current expression?
    pub current_is_empty: bool,
    /// Is the current expression a number?
    pub current_is_number: bool,
}

/// The keywords of the language, in upper case.
pub open spec fn is_keyword(s: Seq<char>) -> bool {
    ||| s == seq!['B', 'R', 'E', 'A', 'K']
    ||| s == seq!['C', 'O', 'N', 'T', 'I', 'N', 'U', 'E']
    ||| s == seq!['E', 'L', 'S', 'E']
    ||| s == seq!['F', 'O', 'R']
    ||| s == seq!['I', 'F']
    ||| s == seq!['I', 'N']
    ||| s == seq!['Q', 'U', 'I', 'T']
    ||| s == seq!['W', 'H', 'I', 'L', 'E']
}

/// The upper case of a character as far as keywords are concerned: ASCII letters,
/// and the two letters whose upper case is an ASCII letter (`ı` and `ſ`).
pub open spec fn keyword_upper(c: char) -> char {
    if 'a' <= c && c <= 'z' {
        ((c as u32) - 32) as char
    } else if c == '\u{131}' {
        'I'
    } else if c == '\u{17f}' {
        'S'
    } else {
        c
    }
}

/// The upper case of a word, as far as keywords are concerned.
pub open spec fn upper_word(s: Seq<char>) -> Seq<char> {
    s.map_values(|c: char| keyword_upper(c))
}

/// Separators between words: white space, parentheses, operators, `#`.
pub open spec fn is_separator(c: char) -> bool {
    c == ' ' || c == '\t' || c == '\n' || c == '\r' || c == '(' || c == ')' || c == '+' || c == '='
        || c == ';' || c == '|' || c == '&' || c == '<' || c == '>' || c == '#'
}

/// Does `c` end the word `text`? `-`, `/`, `+` and `*` end a number; at the start of
/// a word they are operators unless in an argument list, after a command, or with no
/// left operand. Other separators always end a word.
pub open spec fn spec_is_delimiter(text: Seq<char>, c: char, ctx: LexContext, sc: Scope, f: int) -> bool {
    if c == '/' || c == '-' || c == '+' || c == '*' {
        if text.len() == 0 {
            !ctx.in_args && !ctx.current_is_cmd && !ctx.current_is_empty
        } else {
            is_numeric_text(crate::expand::value_text(spec_parse_value(text, sc, f)))
        }
    } else {
        is_separator(c)
    }
}

/// Is `s[i]` the character `c`?
pub open spec fn char_at(s: Seq<char>, i: int, c: char) -> bool {
    0 <= i < s.len() && s[i] == c
}

/// Is `s[k]` a hexadecimal digit?
pub open spec fn hex_at(s: Seq<char>, k: int) -> bool {
    0 <= k < s.len() && hex_value(s[k]) is Some
}

/// Are `s[i..i + m]` hexadecimal digits?
pub open spec fn hex_run(s: Seq<char>, i: int, m: int) -> bool {
    forall|k: int| i <= k < i + m ==> #[trigger] hex_at(s, k)
}

/// Is the escape `\u{` whose digits start at `s[i]` malformed: at most six
/// digits followed by the end of the input, by neither a digit nor `}`, or by
/// `}` with no digit before it; or more than six digits?
pub open spec fn unicode_bad(s: Seq<char>, i: int) -> bool {
    ||| exists|m: int| #![trigger hex_run(s, i, m)] 0 <= m <= 6 && hex_run(s, i, m) && (i + m >= s.len() || (
        m == 0 && s[i] == '}') || (hex_value(s[i + m]) is None && s[i + m] != '}'))
    ||| hex_run(s, i, 7)
}

/// The error of the escape sequence whose letter is `s[i]` (after a backslash
/// inside quotes), where its form alone decides one.
pub open spec fn escape_error(s: Seq<char>, i: int) -> Option<Seq<char>> {
    if char_at(s, i, 'x') {
        if !hex_at(s, i + 1) || !hex_at(s, i + 2) {
            Some("Invalid hex escape sequence"@)
        } else {
            None
        }
    } else if char_at(s, i, 'u') {
        if !char_at(s, i + 1, '{') || unicode_bad(s, i + 2) {
            Some("Invalid unicode escape sequence"@)
        } else {
            None
        }
    } else {
        None
    }
}

/// The token that an operator, a parenthesis or a semicolon at `s[p]` makes,
/// and how many characters it takes: those whose token does not depend on what
/// the parser is building.
pub open spec fn lead_token(s: Seq<char>, p: int) -> Option<(Token, int)> {
    if !(0 <= p < s.len()) {
        None
    } else {
        let c = s[p];
        if c == '%' {
            Some((Token::Operator(Op::Mod), 1))
        } else if c == '(' {
            Some((Token::LeftParen, 1))
        } else if c == ')' {
            Some((Token::RightParen, 1))
        } else if c == ';' {
            Some((Token::Semicolon, 1))
        } else if c == '+' {
            Some((Token::Operator(Op::Plus), 1))
        } else if c == '&' {
            if char_at(s, p + 1, '&') {
                Some((Token::Operator(Op::And), 2))
            } else {
                None
            }
        } else if c == '|' {
            if char_at(s, p + 1, '|') {
                Some((Token::Operator(Op::Or), 2))
            } else {
                Some((Token::Operator(Op::Pipe), 1))
            }
        } else if c == '!' {
            if char_at(s, p + 1, '=') {
                Some((Token::Operator(Op::NotEquals), 2))
            } else {
                Some((Token::Operator(Op::Not), 1))
            }
        } else if c == '<' {
            if char_at(s, p + 1, '=') {
                Some((Token::Operator(Op::Lte), 2))
            } else {
                Some((Token::Operator(Op::Lt), 1))
            }
        } else if c == '>' {
            if char_at(s, p + 1, '=') {
                Some((Token::Operator(Op::Gte), 2))
            } else {
                Some((Token::Operator(Op::Gt), 1))
            }
        } else if c == '=' {
            if char_at(s, p + 1, '=') {
                Some((Token::Operator(Op::Equals), 2))
            } else if char_at(s, p + 1, '>') {
                if char_at(s, p + 2, '>') {
                    Some((Token::Operator(Op::Append), 3))
                } else {
                    Some((Token::Operator(Op::Write), 2))
                }
            } else {
                Some((Token::Operator(Op::Assign), 1))
            }
        } else {
            None
        }
    }
}

/// A character that continues a bare word whatever the parser is building:
/// no separator, quote, backslash, or character that may be an operator.
pub open spec fn word_char(c: char) -> bool {
    !is_separator(c) && c != '\\' && c != '"' && c != '/' && c != '-' && c != '*'
}

/// Is `s[p..q]` a bare word: word characters, the first one neither white
/// space nor an operator, ended by the end of the input or a separator other
/// than `+`?
pub open spec fn bare_word(s: Seq<char>, p: int, q: int) -> bool {
    &&& 0 <= p < q <= s.len()
    &&& q < usize::MAX - 1
    &&& forall|k: int| p <= k < q ==> #[trigger] word_char(s[k])
    &&& !spec_is_whitespace(s[p]) && s[p] != '!' && s[p] != '%'
    &&& q == s.len() || (is_separator(s[q]) && s[q] != '+')
}

/// A bare word has one end.
pub proof fn lemma_bare_word_unique(s: Seq<char>, p: int, q1: int, q2: int)
    requires
        bare_word(s, p, q1),
        bare_word(s, p, q2),
    ensures
        q1 == q2,
{
    if q1 < q2 {
        assert(word_char(s[q1]));
    } else if q2 < q1 {
        assert(word_char(s[q2]));
    }
}

/// Does `s[k..k + 2]` close a raw string: `)"`?
pub open spec fn closes_raw(s: Seq<char>, k: int) -> bool {
    char_at(s, k, ')') && char_at(s, k + 1, '"')
}

/// Is `s[p..q + 2]` a raw string `r"(...)"` whose text `s[p + 3..q]` holds no `)"`?
pub open spec fn raw_string(s: Seq<char>, p: int, q: int) -> bool {
    &&& 0 <= p && p + 3 <= q
    &&& char_at(s, p, 'r') && char_at(s, p + 1, '"') && char_at(s, p + 2, '(')
    &&& closes_raw(s, q)
    &&& forall|k: int| p + 3 <= k < q ==> !#[trigger] closes_raw(s, k)
}

/// A raw string has one end.
pub proof fn lemma_raw_string_unique(s: Seq<char>, p: int, q1: int, q2: int)
    requires
        raw_string(s, p, q1),
        raw_string(s, p, q2),
    ensures
        q1 == q2,
{
    if q1 < q2 {
        assert(!closes_raw(s, q1));
    } else if q2 < q1 {
        assert(!closes_raw(s, q2));
    }
}

/// Is the input from `s[p]` on one quoted word: a quote, characters that are
/// neither quotes nor backslashes, and a quote that ends the input?
pub open spec fn quoted_to_end(s: Seq<char>, p: int) -> bool {
    &&& 0 <= p && p + 2 <= s.len()
    &&& s[p] == '"'
    &&& s[s.len() - 1] == '"'
    &&& forall|k: int| p < k < s.len() - 1 ==> #[trigger] s[k] != '"' && s[k] != '\\'
}

/// Inside quotes, from `s[k]` on: does the input end before a quote closes
/// them, each escape on the way being well formed (a backslash at the very end
/// included)?
pub open spec fn stays_open(s: Seq<char>, k: int) -> bool
    decreases s.len() - k, 1int,
{
    if k < 0 || k >= s.len() {
        true
    } else if s[k] == '"' {
        false
    } else if s[k] == '\\' {
        escape_stays_open(s, k + 1)
    } else {
        stays_open(s, k + 1)
    }
}

/// After a backslash inside quotes, with the escape's letter at `s[k]`: is the
/// escape well formed (`\x` and two hexadecimal digits, or one letter other
/// than `u`), and does the quote stay open after it?
pub open spec fn escape_stays_open(s: Seq<char>, k: int) -> bool
    decreases s.len() - k, 0int,
{
    if k < 0 || k >= s.len() {
        true
    } else if s[k] == 'x' {
        hex_at(s, k + 1) && hex_at(s, k + 2) && stays_open(s, k + 3)
    } else if s[k] == 'u' {
        false
    } else {
        stays_open(s, k + 1)
    }
}

/// Does `s[p]` open a quote that nothing after it closes (see [`stays_open`])?
pub open spec fn open_quote(s: Seq<char>, p: int) -> bool {
    &&& 0 <= p < s.len()
    &&& s[p] == '"'
    &&& stays_open(s, p + 1)
}

/// The value of a hexadecimal digit, if it is one.
pub open spec fn hex_value(c: char) -> Option<int> {
    if '0' <= c && c <= '9' {
        Some((c as u32) - ('0' as u32))
    } else if 'a' <= c && c <= 'f' {
        Some((c as u32) - ('a' as u32) + 10)
    } else if 'A' <= c && c <= 'F' {
        Some((c as u32) - ('A' as u32) + 10)
    } else {
        None
    }
}

/// Executable counterpart of [`hex_value`].
fn hex_digit(c: char) -> (res: Option<u32>)
    ensures
        match hex_value(c) {
            Some(v) => res == Some(v as u32),
            None => res is None,
        },
{
    if '0' <= c && c <= '9' {
        Some((c as u32) - ('0' as u32))
    } else if 'a' <= c && c <= 'f' {
        Some((c as u32) - ('a' as u32) + 10)
    } else if 'A' <= c && c <= 'F' {
        Some((c as u32) - ('A' as u32) + 10)
    } else {
        None
    }
}

/// Is `v` a Unicode scalar value (a `char`)?
pub open spec fn is_scalar(v: int) -> bool {
    (0 <= v < 0xD800) || (0xE000 <= v <= 0x10FFFF)
}

/// The character with scalar value `v` (`char::from_u32`).
#[verifier::external_body]
fn char_from_scalar(v: u32) -> (res: char)
    requires
        is_scalar(v as int),
    ensures
        res as u32 == v,
{
    match char::from_u32(v) {
        Some(c) => c,
        None => '\u{fffd}',
    }
}

/// An error found while reading or evaluating: where, and what.
#[derive(Debug)]
pub struct LexError {
    pub loc: Location,
    pub message: String,
}

/// The lexer: the input, the position in it, and the state between tokens.
pub struct Lexer {
    chars: Vec<char>,
    pos: usize,
    loc: Location,
    comment: bool,
    escaped: bool,
    in_quotes: bool,
    globbed: Vec<String>,
    text: Vec<char>,
    quoted: bool,
    raw: bool,
}

/// Does crate `glob` refuse `pattern` (`glob::glob` returns an error)? That
/// depends on the pattern alone: the error comes before any directory is read.
pub uninterp spec fn glob_refuses(pattern: Seq<char>) -> bool;

/// Whether crate `glob` refuses the pattern (`glob::glob(pattern).is_err()`).
#[verifier::external_body]
fn glob_pattern_refused(pattern: &str) -> (res: bool)
    ensures
        res == glob_refuses(pattern@),
{
    glob::glob(pattern).is_err()
}

/// A pattern of one path component without the characters that make a pattern
/// (`*`, `?`, `[`, `]`) and other than `.` and `..`: it names one file.
pub open spec fn literal_pattern(p: Seq<char>) -> bool {
    &&& p.len() > 0
    &&& p != seq!['.']
    &&& p != seq!['.', '.']
    &&& forall|i: int|
        0 <= i < p.len() ==> !(#[trigger] p[i] == '*' || p[i] == '?' || p[i] == '[' || p[i] == ']' || p[i] == '/')
}

/// The whole input is one unquoted word, not a keyword, that names one file once
/// a leading `~` is replaced (see [`literal_pattern`]).
pub open spec fn lone_literal_word(input: Seq<char>, sc: Scope, f: int) -> bool {
    &&& bare_word(input, 0, input.len() as int)
    &&& !is_keyword(upper_word(input))
    &&& literal_pattern(tilde_word(input, sc, f))
}

/// What the paths that a file name pattern gives are known to be: `None` exactly
/// when the pattern is refused, and for a literal pattern at most the pattern itself.
pub open spec fn glob_fits(pattern: Seq<char>, paths: Option<Seq<Seq<char>>>) -> bool {
    &&& (paths is None <==> glob_refuses(pattern))
    &&& literal_pattern(pattern) ==> (paths matches Some(p) && p.len() <= 1 && forall|i: int|
        0 <= i < p.len() ==> #[trigger] p[i] == pattern)
}

/// A literal word is expanded to itself, whatever the disk holds.
pub proof fn lemma_literal_word(pattern: Seq<char>, paths: Option<Seq<Seq<char>>>)
    requires
        glob_fits(pattern, paths),
        literal_pattern(pattern),
    ensures
        expanded_word(pattern, paths) == (pattern, Seq::<Seq<char>>::empty()),
{
    if let Some(p) = paths {
        if p.len() == 1 {
            assert(p[0] == pattern);
            assert(p.drop_first() =~= Seq::<Seq<char>>::empty());
        }
    }
}

/// The paths that match a file name pattern (crate `glob`, `glob::glob`), in the
/// order the crate gives them, each `None` where the crate could not read the
/// entry; `None` for a pattern that the crate refuses. What is on disk decides
/// which paths come back; of a literal pattern (see [`literal_pattern`]) the
/// crate checks only whether that one file exists, so the result is empty or
/// the pattern itself.
#[verifier::external_body]
fn glob_paths(pattern: &str) -> (res: Option<Vec<Option<String>>>)
    ensures
        res is None <==> glob_refuses(pattern@),
        literal_pattern(pattern@) ==> (res matches Some(v) && v@.len() <= 1 && forall|i: int|
            0 <= i < v@.len() ==> (#[trigger] v@[i] matches Some(s) && s@ == pattern@)),
{
    match glob::glob(pattern) {
        Ok(paths) => Some(
            paths.map(|p| match p {
                Ok(path) => Some(path.to_string_lossy().into_owned()),
                Err(_) => None,
            }).collect(),
        ),
        Err(_) => None,
    }
}

/// The paths that were read, in order.
pub open spec fn read_paths(v: Seq<Option<String>>) -> Seq<Seq<char>>
    decreases v.len(),
{
    if v.len() == 0 {
        Seq::empty()
    } else {
        let rest = read_paths(v.drop_last());
        match v.last() {
            Some(p) => rest.push(p@),
            None => rest,
        }
    }
}

/// Keep the paths that were read, in order.
fn keep_read(v: Vec<Option<String>>) -> (res: Vec<String>)
    ensures
        crate::expand::strings_view(res@) == read_paths(v@),
{
    let mut out: Vec<String> = Vec::new();
    let mut i: usize = 0;
    while i < v.len()
        invariant
            i <= v.len(),
            crate::expand::strings_view(out@) == read_paths(v@.take(i as int)),
        decreases v.len() - i,
    {
        proof {
            assert(v@.take(i + 1).drop_last() =~= v@.take(i as int));
        }
        match &v[i] {
            Some(p) => {
                let ghost before = crate::expand::strings_view(out@);
                out.push(p.clone());
                assert(crate::expand::strings_view(out@) =~= before.push(p@));
            },
            None => {},
        }
        i += 1;
    }
    assert(v@.take(v.len() as int) =~= v@);
    out
}

/// The word `text` with a leading `~` replaced by the value of `HOME` seen from
/// scope `f`, when `HOME` is defined.
pub open spec fn tilde_word(text: Seq<char>, sc: Scope, f: int) -> Seq<char> {
    if text.len() > 0 && text[0] == '~' {
        match sc.lookup_from(f, "HOME"@) {
            Some(v) => crate::expand::value_text(v) + text.subrange(1, text.len() as int),
            None => text,
        }
    } else {
        text
    }
}

/// The token for an unquoted word once its file name expansion is known: the
/// first path found, the others waiting; the word itself where the pattern was
/// refused or matched nothing.
pub open spec fn expanded_word(word: Seq<char>, paths: Option<Seq<Seq<char>>>) -> (Seq<char>, Seq<Seq<char>>) {
    match paths {
        Some(p) => if p.len() > 0 {
            (p[0], p.drop_first())
        } else {
            (word, Seq::empty())
        },
        None => (word, Seq::empty()),
    }
}

/// The word and the waiting words of an unquoted word (see [`expanded_word`]).
fn word_from_paths(word: Vec<char>, paths: Option<Vec<String>>) -> (res: (String, Vec<String>))
    ensures
        ({
            let pv = match paths {
                Some(p) => Some(crate::expand::strings_view(p@)),
                None => None::<Seq<Seq<char>>>,
            };
            expanded_word(word@, pv) == (res.0@, crate::expand::strings_view(res.1@))
        }),
{
    match paths {
        Some(p) => {
            if p.len() > 0 {
                let mut p = p;
                let ghost whole = crate::expand::strings_view(p@);
                let first = p.remove(0);
                assert(crate::expand::strings_view(p@) =~= whole.drop_first());
                (first, p)
            } else {
                (string_of(&word), Vec::new())
            }
        },
        None => (string_of(&word), Vec::new()),
    }
}

impl Lexer {
    /// The characters of the input.
    pub closed spec fn input(&self) -> Seq<char> {
        self.chars@
    }

    /// The position of the next character to read.
    pub closed spec fn position(&self) -> int {
        self.pos as int
    }

    /// Where the lexer stands in the input.
    pub closed spec fn location(&self) -> Location {
        self.loc
    }

    /// Where the lexer stands in the input.
    pub fn loc(&self) -> (res: Location)
        ensures
            res == self.location(),
    {
        self.loc
    }

    /// A well-formed lexer stands within its input.
    pub proof fn lemma_position(&self)
        requires
            self.wf(),
        ensures
            0 <= self.position() <= self.input().len(),
            self.pending() >= 0,
    {
    }

    /// There are as many waiting words as the count of them says.
    pub proof fn lemma_pending_len(&self)
        ensures
            self.pending_words().len() == self.pending(),
    {
    }

    /// The words waiting from a file name expansion, in order.
    pub closed spec fn pending_words(&self) -> Seq<Seq<char>> {
        crate::expand::strings_view(self.globbed@)
    }

    /// Words waiting from a file name expansion.
    pub closed spec fn pending(&self) -> int {
        self.globbed@.len() as int
    }

    /// Between tokens: no quote is open, no escape or comment under way.
    pub closed spec fn at_rest(&self) -> bool {
        !self.in_quotes && !self.escaped && !self.comment
    }

    /// Well-formedness: the position is within the input.
    pub closed spec fn wf(&self) -> bool {
        self.pos <= self.chars.len()
    }

    /// A lexer at the start of `input`, line 1, column 1.
    pub fn new(input: &str) -> (res: Self)
        ensures
            res.wf(),
            res.input() == input@,
            res.position() == 0,
            res.pending() == 0,
            res.at_rest(),
            res.location() == (Location { line: 1, col: 1 }),
    {
        Lexer {
            chars: chars_of(input),
            pos: 0,
            loc: Location { line: 1, col: 1 },
            comment: false,
            escaped: false,
            in_quotes: false,
            globbed: Vec::new(),
            text: Vec::new(),
            quoted: false,
            raw: false,
        }
    }

    /// The next character, if any.
    fn peek(&self) -> (res: Option<char>)
        requires
            self.wf(),
        ensures
            self.pos < self.chars.len() ==> res == Some(self.chars@[self.pos as int]),
            self.pos >= self.chars.len() ==> res is None,
    {
        if self.pos < self.chars.len() {
            Some(self.chars[self.pos])
        } else {
            None
        }
    }

    /// Move past the next character.
    fn advance(&mut self)
        requires
            old(self).wf(),
        ensures
            final(self).wf(),
            final(self).chars == old(self).chars,
            final(self).pos == if old(self).pos < old(self).chars.len() {
                old(self).pos + 1
            } else {
                old(self).pos as int
            },
            final(self).text == old(self).text,
            final(self).globbed == old(self).globbed,
            final(self).in_quotes == old(self).in_quotes,
            final(self).quoted == old(self).quoted,
            final(self).raw == old(self).raw,
            final(self).escaped == old(self).escaped,
            final(self).comment == old(self).comment,
            final(self).loc.line == old(self).loc.line,
    {
        if self.loc.col < u32::MAX {
            self.loc.col = self.loc.col + 1;
        }
        if self.pos < self.chars.len() {
            self.pos = self.pos + 1;
        }
    }

    /// Is the next character `c`?
    fn next_is(&self, c: char) -> (res: bool)
        requires
            self.wf(),
        ensures
            res == (self.pos < self.chars.len() && self.chars@[self.pos as int] == c),
    {
        self.pos < self.chars.len() && self.chars[self.pos] == c
    }

    /// An error at the current location.
    fn error(&self, message: &str) -> (res: LexError)
        ensures
            res.message@ == message@,
            res.loc == self.loc,
    {
        LexError { loc: self.loc, message: to_owned_string(message) }
    }

    /// Does `c` end the current word (see [`spec_is_delimiter`])?
    fn is_delimiter(&self, c: char, ctx: &LexContext, scope: &Scope, frame: usize) -> (res: bool)
        requires
            scope.wf(),
            frame < scope.frames.len(),
            self.text.len() < usize::MAX,
        ensures
            res == spec_is_delimiter(self.text@, c, *ctx, *scope, frame as int),
    {
        if c == '/' || c == '-' || c == '+' || c == '*' {
            if self.text.len() == 0 {
                !ctx.in_args && !ctx.current_is_cmd && !ctx.current_is_empty
            } else {
                let v = scope.parse_value(&self.text, frame);
                let t = value_chars(&v);
                numeric_text(&t)
            }
        } else {
            c == ' ' || c == '\t' || c == '\n' || c == '\r' || c == '(' || c == ')' || c == '+' || c
                == '=' || c == ';' || c == '|' || c == '&' || c == '<' || c == '>' || c == '#'
        }
    }

    /// The keyword that the current word is, if any (in upper case).
    fn keyword(&self) -> (res: Option<String>)
        ensures
            is_keyword(upper_word(self.text@)) ==> (res matches Some(k) && k@ == upper_word(self.text@)),
            !is_keyword(upper_word(self.text@)) ==> res is None,
    {
        let mut up: Vec<char> = Vec::new();
        let mut i: usize = 0;
        while i < self.text.len()
            invariant
                i <= self.text.len(),
                up@ == upper_word(self.text@.take(i as int)),
            decreases self.text.len() - i,
        {
            let c = self.text[i];
            let u = if 'a' <= c && c <= 'z' {
                upper_ascii(c)
            } else if c == '\u{131}' {
                'I'
            } else if c == '\u{17f}' {
                'S'
            } else {
                c
            };
            up.push(u);
            i += 1;
            assert(up@ =~= upper_word(self.text@.take(i as int)));
        }
        assert(self.text@.take(self.text.len() as int) == self.text@);
        if is_keyword_exec(&up) {
            Some(string_of(&up))
        } else {
            None
        }
    }

    /// The token for the current word: a keyword, or a literal; an unquoted word
    /// starting with `~` has the value of `HOME` in place of the `~`, and an unquoted
    /// word that names files is replaced by their paths (one token each).
    fn finish_word(&mut self, scope: &Scope, frame: usize) -> (res: Token)
        requires
            old(self).wf(),
            old(self).globbed@.len() == 0,
            scope.wf(),
            frame < scope.frames.len(),
        ensures
            final(self).wf(),
            final(self).chars == old(self).chars,
            final(self).pos == old(self).pos,
            final(self).in_quotes == old(self).in_quotes,
            final(self).escaped == old(self).escaped,
            final(self).comment == old(self).comment,
            old(self).quoted ==> final(self).globbed == old(self).globbed,
            old(self).quoted ==> (res matches Token::Literal(t) && t.value@ == old(self).text@
                && t.quoted && t.raw == old(self).raw),
            !old(self).quoted && is_keyword(upper_word(old(self).text@)) ==> (res matches Token::Keyword(k)
                && k@ == upper_word(old(self).text@)) && final(self).globbed == old(self).globbed,
            !old(self).quoted && !is_keyword(upper_word(old(self).text@)) ==> (res matches Token::Literal(t)
                && !t.quoted && !t.raw),
            !old(self).quoted && !is_keyword(upper_word(old(self).text@)) ==> (res matches Token::Literal(t)
                && exists|paths: Option<Seq<Seq<char>>>| glob_fits(
                tilde_word(old(self).text@, *scope, frame as int), paths) && #[trigger] expanded_word(tilde_word(old(self).text@, *scope, frame as int), paths) == (
            t.value@,
            crate::expand::strings_view(final(self).globbed@),
        )),
            !old(self).quoted && !is_keyword(upper_word(old(self).text@)) && literal_pattern(
                tilde_word(old(self).text@, *scope, frame as int),
            ) ==> (res matches Token::Literal(t) && t.value@ == tilde_word(old(self).text@, *scope, frame as int)
                && final(self).globbed@.len() == 0),
            !(res is End),
    {
        if !self.quoted {
            match self.keyword() {
                Some(k) => {
                    return Token::Keyword(k);
                },
                None => {},
            }
            let word = self.tilde_expand(scope, frame);
            let pattern = string_of(&word);
            let found = glob_paths(pattern.as_str());
            let paths = match found {
                Some(v) => {
                    proof {
                        if literal_pattern(pattern@) {
                            if v@.len() == 1 {
                                assert(v@.drop_last() =~= Seq::<Option<String>>::empty());
                                assert(read_paths(v@.drop_last()) =~= Seq::<Seq<char>>::empty());
                                assert(v@.last() == v@[0]);
                                assert(v@[0] matches Some(x) && x@ == pattern@);
                                assert(read_paths(v@) =~= seq![pattern@]);
                            } else {
                                assert(read_paths(v@) =~= Seq::<Seq<char>>::empty());
                            }
                        }
                    }
                    Some(keep_read(v))
                },
                None => None,
            };
            let ghost pv: Option<Seq<Seq<char>>> = match &paths {
                Some(p) => Some(crate::expand::strings_view(p@)),
                None => None,
            };
            let (value, rest) = word_from_paths(word, paths);
            self.globbed = rest;
            let t = Text { value, quoted: false, raw: false };
            proof {
                assert(crate::expand::strings_view(self.globbed@).len() == self.globbed@.len());
            }
            assert(expanded_word(tilde_word(old(self).text@, *scope, frame as int), pv) == (
                t.value@,
                crate::expand::strings_view(self.globbed@),
            ));
            return Token::Literal(t);
        }
        Token::Literal(Text { value: string_of(&self.text), quoted: self.quoted, raw: self.raw })
    }

    /// The current word with a leading `~` replaced by the value of `HOME` (see
    /// [`tilde_word`]).
    fn tilde_expand(&self, scope: &Scope, frame: usize) -> (res: Vec<char>)
        requires
            scope.wf(),
            frame < scope.frames.len(),
        ensures
            res@ == tilde_word(self.text@, *scope, frame as int),
    {
        if self.text.len() > 0 && self.text[0] == '~' {
            match scope.lookup_from_frame(frame, "HOME") {
                Some(v) => {
                    let mut t = value_chars(&v);
                    let rest = vec_range(&self.text, 1, self.text.len());
                    vec_extend(&mut t, &rest);
                    return t;
                },
                None => {},
            }
        }
        vec_range(&self.text, 0, self.text.len())
    }

    /// Decode the escape sequence after a backslash inside quotes: `\n`, `\t`, `\r`,
    /// `\xHH`, `\u{H...}`; any other character stands for itself.
    fn escape(&mut self) -> (res: Result<(), LexError>)
        requires
            old(self).wf(),
            old(self).pos < old(self).chars.len(),
        ensures
            final(self).wf(),
            final(self).chars == old(self).chars,
            final(self).pos > old(self).pos,
            final(self).in_quotes == old(self).in_quotes,
            final(self).globbed == old(self).globbed,
            final(self).quoted == old(self).quoted,
            final(self).raw == old(self).raw,
            final(self).escaped == old(self).escaped,
            final(self).comment == old(self).comment,
            res is Err ==> (res matches Err(e) && (e.message@ == "Invalid hex escape sequence"@
                || e.message@ == "Invalid unicode escape sequence"@)),
            escape_error(old(self).chars@, old(self).pos as int) matches Some(m) ==> (res matches Err(e)
                && e.message@ == m),
            char_at(old(self).chars@, old(self).pos as int, 'x') && hex_at(old(self).chars@, old(self).pos + 1)
                && hex_at(old(self).chars@, old(self).pos + 2) ==> res is Ok && final(self).pos == old(self).pos + 3,
            !char_at(old(self).chars@, old(self).pos as int, 'x') && !char_at(old(self).chars@, old(self).pos as int, 'u')
                ==> res is Ok && final(self).pos == old(self).pos + 1,
    {
        let ghost s = self.chars@;
        let ghost i0 = self.pos as int;
        let ghost mm = choose|m: int| #![trigger hex_run(s, i0 + 2, m)] 0 <= m <= 6 && hex_run(s, i0 + 2, m) && (
        i0 + 2 + m >= s.len() || (m == 0 && s[i0 + 2] == '}') || (hex_value(s[i0 + 2 + m]) is None && s[i0 + 2
            + m] != '}'));
        let ghost bad_u = char_at(s, i0, 'u') && char_at(s, i0 + 1, '{') && unicode_bad(s, i0 + 2);
        let ghost seven = hex_run(s, i0 + 2, 7);
        proof {
            if bad_u && !seven {
                assert(0 <= mm <= 6 && hex_run(s, i0 + 2, mm) && (i0 + 2 + mm >= s.len() || (mm == 0 && s[i0 + 2]
                    == '}') || (hex_value(s[i0 + 2 + mm]) is None && s[i0 + 2 + mm] != '}')));
            }
        }
        let c = self.chars[self.pos];
        if c == 'n' {
            self.text.push('\n');
            self.advance();
        } else if c == 't' {
            self.text.push('\t');
            self.advance();
        } else if c == 'r' {
            self.text.push('\r');
            self.advance();
        } else if c == 'x' {
            self.advance();
            let d1 = match self.peek() {
                Some(a) => hex_digit(a),
                None => None,
            };
            if d1.is_none() {
                return Err(self.error("Invalid hex escape sequence"));
            }
            self.advance();
            let d2 = match self.peek() {
                Some(a) => hex_digit(a),
                None => None,
            };
            match (d1, d2) {
                (Some(h), Some(l)) => {
                    self.advance();
                    let v = h * 16 + l;
                    self.text.push(char_from_scalar(v));
                },
                _ => {
                    return Err(self.error("Invalid hex escape sequence"));
                },
            }
        } else if c == 'u' {
            self.advance();
            if !self.next_is('{') {
                return Err(self.error("Invalid unicode escape sequence"));
            }
            self.advance();
            let mut v: u32 = 0;
            let mut n: usize = 0;
            loop
                invariant
                    self.wf(),
                    self.chars == old(self).chars,
                    self.pos > old(self).pos,
                    self.in_quotes == old(self).in_quotes,
                    self.globbed == old(self).globbed,
                    self.quoted == old(self).quoted,
                    self.raw == old(self).raw,
                    self.escaped == old(self).escaped,
                    self.comment == old(self).comment,
                    n <= 6,
                    v < 0x1000000,
                    s == old(self).chars@,
                    i0 == old(self).pos,
                    self.pos == i0 + 2 + n,
                    bad_u == (char_at(s, i0, 'u') && char_at(s, i0 + 1, '{') && unicode_bad(s, i0 + 2)),
                    seven == hex_run(s, i0 + 2, 7),
                    char_at(s, i0, 'u') && char_at(s, i0 + 1, '{'),
                    bad_u && !seven ==> n <= mm && 0 <= mm <= 6 && hex_run(s, i0 + 2, mm) && (i0 + 2 + mm
                        >= s.len() || (mm == 0 && s[i0 + 2] == '}') || (hex_value(s[i0 + 2 + mm]) is None && s[i0
                        + 2 + mm] != '}')),
                decreases self.chars.len() - self.pos,
            {
                proof {
                    if bad_u && !seven && n < mm {
                        assert(hex_at(s, i0 + 2 + n));
                    }
                    if seven {
                        assert(hex_at(s, i0 + 2 + n));
                    }
                }
                match self.peek() {
                    Some('}') => {
                        self.advance();
                        if n == 0 || !((v < 0xD800) || (0xE000 <= v && v <= 0x10FFFF)) {
                            return Err(self.error("Invalid unicode escape sequence"));
                        }
                        self.text.push(char_from_scalar(v));
                        return Ok(());
                    },
                    Some(a) => {
                        match hex_digit(a) {
                            Some(d) => {
                                if n == 6 {
                                    return Err(self.error("Invalid unicode escape sequence"));
                                }
                                assert(v * 16 + d < 0x1000000 * 16);
                                v = v * 16 + d;
                                if v >= 0x1000000 {
                                    return Err(self.error("Invalid unicode escape sequence"));
                                }
                                n = n + 1;
                                self.advance();
                            },
                            None => {
                                return Err(self.error("Invalid unicode escape sequence"));
                            },
                        }
                    },
                    None => {
                        return Err(self.error("Invalid unicode escape sequence"));
                    },
                }
            }
        } else {
            self.text.push(c);
            self.advance();
        }
        Ok(())
    }

    /// Read the rest of a word (quotes, escapes, raw strings); stops at a delimiter
    /// outside quotes, or at the end of a raw string.
    fn scan_word(&mut self, ctx: &LexContext, scope: &Scope, frame: usize) -> (res: Result<(), LexError>)
        requires
            old(self).wf(),
            scope.wf(),
            frame < scope.frames.len(),
        ensures
            final(self).wf(),
            final(self).chars == old(self).chars,
            final(self).pos >= old(self).pos,
            final(self).globbed == old(self).globbed,
            final(self).comment == old(self).comment,
            old(self).quoted ==> final(self).quoted,
            final(self).text.len() > 0 ==> (final(self).pos > old(self).pos || old(self).text.len() > 0),
            final(self).quoted ==> (final(self).pos > old(self).pos || old(self).quoted),
            forall|q: int| #![trigger bare_word(old(self).chars@, old(self).pos as int, q)]
                bare_word(old(self).chars@, old(self).pos as int, q) && old(self).text.len() == 0
                && !old(self).in_quotes && !old(self).escaped && !old(self).raw && !old(self).quoted ==> {
                &&& res is Ok
                &&& final(self).pos == q
                &&& final(self).text@ == old(self).chars@.subrange(old(self).pos as int, q)
                &&& !final(self).quoted && !final(self).in_quotes && !final(self).escaped && !final(self).raw
            },
            open_quote(old(self).chars@, old(self).pos as int) && old(self).text.len() == 0 && !old(
                self,
            ).in_quotes && !old(self).escaped && !old(self).raw ==> final(self).in_quotes && final(self).quoted
                && res is Ok,
            old(self).text.len() == 0 && !old(self).in_quotes && !old(self).escaped && !old(self).raw && char_at(
                old(self).chars@,
                old(self).pos as int,
                '"',
            ) && char_at(old(self).chars@, old(self).pos + 1, '\\') ==> (escape_error(
                old(self).chars@,
                old(self).pos + 2,
            ) matches Some(m) ==> (res matches Err(e) && e.message@ == m)),
            old(self).text.len() == 0 && !old(self).in_quotes && !old(self).escaped && !old(self).raw
                && quoted_to_end(old(self).chars@, old(self).pos as int) ==> {
                &&& res is Ok
                &&& final(self).pos == final(self).chars.len()
                &&& final(self).text@ == old(self).chars@.subrange(old(self).pos + 1, old(self).chars.len() - 1)
                &&& final(self).quoted && !final(self).raw && !final(self).in_quotes && !final(self).escaped
            },
            forall|q: int| #![trigger raw_string(old(self).chars@, old(self).pos as int, q)]
                old(self).text.len() == 0 && !old(self).in_quotes && !old(self).escaped && !old(self).raw
                    && raw_string(old(self).chars@, old(self).pos as int, q) ==> {
                &&& res is Ok
                &&& final(self).pos == q + 2
                &&& final(self).text@ == old(self).chars@.subrange(old(self).pos + 3, q)
                &&& final(self).quoted && final(self).raw && !final(self).in_quotes && !final(self).escaped
            },
    {
        let ghost rq = choose|q: int| raw_string(old(self).chars@, old(self).pos as int, q);
        let ghost has_raw = exists|q: int| raw_string(old(self).chars@, old(self).pos as int, q);
        proof {
            if has_raw {
                assert(raw_string(old(self).chars@, old(self).pos as int, rq));
            }
        }
        let ghost raw_case = old(self).text.len() == 0 && !old(self).in_quotes && !old(self).escaped && !old(
            self,
        ).raw && has_raw;
        let ghost qt = old(self).text.len() == 0 && !old(self).in_quotes && !old(self).escaped && !old(self).raw
            && quoted_to_end(old(self).chars@, old(self).pos as int);
        let ghost esc_case = old(self).text.len() == 0 && !old(self).in_quotes && !old(self).escaped && !old(
            self,
        ).raw && char_at(old(self).chars@, old(self).pos as int, '"') && char_at(
            old(self).chars@,
            old(self).pos + 1,
            '\\',
        ) && escape_error(old(self).chars@, old(self).pos + 2) is Some;
        let ghost start = self.pos as int;
        let ghost qq = choose|q: int| bare_word(old(self).chars@, start, q);
        let ghost has_word = exists|q: int| bare_word(old(self).chars@, start, q);
        proof {
            if has_word {
                assert(bare_word(old(self).chars@, start, qq));
            }
        }
        let ghost plain = old(self).text.len() == 0 && !old(self).in_quotes && !old(self).escaped && !old(
            self,
        ).raw && !old(self).quoted && has_word;
        let ghost quote_case = open_quote(old(self).chars@, start) && old(self).text.len() == 0 && !old(
            self,
        ).in_quotes && !old(self).escaped && !old(self).raw;
        while self.pos < self.chars.len()
            invariant_except_break
                raw_case ==> self.pos <= rq,
            invariant
                self.wf(),
                self.chars == old(self).chars,
                self.pos >= old(self).pos,
                self.globbed == old(self).globbed,
                self.comment == old(self).comment,
                old(self).quoted ==> self.quoted,
                self.text.len() > 0 ==> (self.pos > old(self).pos || old(self).text.len() > 0),
                self.quoted ==> (self.pos > old(self).pos || old(self).quoted),
                scope.wf(),
                frame < scope.frames.len(),
                start == old(self).pos,
                plain ==> !self.in_quotes && !self.escaped && !self.raw && !self.quoted && self.text@
                    == old(self).chars@.subrange(start, self.pos as int) && self.pos <= qq && bare_word(
                    old(self).chars@,
                    start,
                    qq,
                ),
                quote_case ==> open_quote(self.chars@, start),
                quote_case == (open_quote(old(self).chars@, start) && old(self).text.len() == 0 && !old(
                    self,
                ).in_quotes && !old(self).escaped && !old(self).raw),
                plain == (old(self).text.len() == 0 && !old(self).in_quotes && !old(self).escaped && !old(
                    self,
                ).raw && !old(self).quoted && has_word),
                has_word == exists|q: int| bare_word(old(self).chars@, start, q),
                has_word ==> bare_word(old(self).chars@, start, qq),
                quote_case ==> (if self.pos == start {
                    !self.in_quotes && !self.escaped && !self.raw && self.text.len() == 0
                } else {
                    self.in_quotes && !self.raw && self.quoted && (if self.escaped {
                        escape_stays_open(self.chars@, self.pos as int)
                    } else {
                        stays_open(self.chars@, self.pos as int)
                    })
                }),
                esc_case == (old(self).text.len() == 0 && !old(self).in_quotes && !old(self).escaped && !old(
                    self,
                ).raw && char_at(old(self).chars@, start, '"') && char_at(old(self).chars@, start + 1, '\\')
                    && escape_error(old(self).chars@, start + 2) is Some),
                esc_case ==> start <= self.pos <= start + 2 && !self.raw && (self.pos == start ==> !self.in_quotes
                    && !self.escaped && self.text.len() == 0) && (self.pos == start + 1 ==> self.in_quotes
                    && !self.escaped) && (self.pos == start + 2 ==> self.in_quotes && self.escaped),
                raw_case == (old(self).text.len() == 0 && !old(self).in_quotes && !old(self).escaped && !old(
                    self,
                ).raw && has_raw),
                has_raw == exists|q: int| raw_string(old(self).chars@, start, q),
                has_raw ==> raw_string(old(self).chars@, start, rq),
                raw_case && self.pos == start ==> !self.in_quotes && !self.escaped && !self.raw
                    && self.text.len() == 0,
                raw_case && self.pos == start + 1 ==> !self.in_quotes && !self.escaped && !self.raw
                    && self.text@ == seq!['r'],
                raw_case ==> self.pos != start + 2,
                raw_case && start + 3 <= self.pos <= rq ==> self.in_quotes && !self.escaped && self.raw
                    && self.quoted,
                raw_case && start + 3 <= self.pos <= rq ==> self.text@ == old(self).chars@.subrange(
                    start + 3,
                    self.pos as int,
                ),

                qt == (old(self).text.len() == 0 && !old(self).in_quotes && !old(self).escaped && !old(self).raw
                    && quoted_to_end(old(self).chars@, start)),
                qt && self.pos == start ==> !self.in_quotes && !self.escaped && !self.raw && self.text.len() == 0,
                qt && start < self.pos < self.chars.len() ==> self.in_quotes && !self.escaped && !self.raw
                    && self.quoted && self.text@ == old(self).chars@.subrange(start + 1, self.pos as int),
                qt && self.pos == self.chars.len() ==> !self.in_quotes && !self.escaped && !self.raw && self.quoted
                    && self.text@ == old(self).chars@.subrange(start + 1, self.pos - 1),
            ensures
                !esc_case,
                qt ==> self.pos == self.chars.len() && !self.in_quotes && !self.escaped && !self.raw
                    && self.quoted && self.text@ == old(self).chars@.subrange(start + 1, self.chars.len() - 1),
                raw_case ==> self.pos == rq + 2 && self.quoted && self.raw && !self.in_quotes && !self.escaped
                    && self.text@ == old(self).chars@.subrange(start + 3, rq),
                plain ==> self.pos == qq,
                quote_case ==> self.in_quotes && self.quoted,
            decreases self.chars.len() - self.pos,
        {
            let next_c = self.chars[self.pos];
            proof {
                if plain && self.pos < qq {
                    assert(word_char(self.chars@[self.pos as int]));
                }
                if raw_case && start + 3 <= self.pos < rq {
                    assert(!closes_raw(old(self).chars@, self.pos as int));
                }
            }
            if self.escaped {
                match self.escape() {
                    Ok(()) => {},
                    Err(e) => {
                        return Err(e);
                    },
                }
                self.escaped = false;
            } else if next_c == '\\' {
                self.advance();
                if self.in_quotes && !self.raw {
                    // Escapes only work inside quotes, to avoid issues with Windows paths
                    self.escaped = true;
                } else {
                    self.text.push('\\');
                }
            } else if next_c == '"' {
                self.advance();
                if self.raw {
                    self.text.push(next_c);
                } else {
                    // The start of a raw string r"(...)"
                    if self.text.len() == 1 && self.text[0] == 'r' && self.next_is('(') {
                        self.raw = true;
                        self.text = Vec::new();
                        self.advance();
                    }
                    self.quoted = true;
                    self.in_quotes = !self.in_quotes;
                }
            } else if next_c == ')' && self.raw {
                // The end of a raw string )"
                self.advance();
                if self.next_is('"') {
                    self.in_quotes = false;
                    self.advance();
                    break;
                }
                self.text.push(next_c);
            } else {
                if self.text.len() >= usize::MAX - 1 {
                    self.text.push(next_c);
                    self.advance();
                } else if self.in_quotes || !self.is_delimiter(next_c, ctx, scope, frame) {
                    let ghost before = self.text@;
                    self.text.push(next_c);
                    self.advance();
                    proof {
                        if plain {
                            assert(self.text@ =~= old(self).chars@.subrange(start, self.pos as int));
                        }
                    }
                } else {
                    break;
                }
            }
            proof {
                if raw_case && start + 3 <= self.pos <= rq {
                    assert(self.text@ =~= old(self).chars@.subrange(start + 3, self.pos as int));
                }
                if raw_case && self.pos == start + 1 {
                    assert(self.text@ =~= seq!['r']);
                }
                if qt && start < self.pos < self.chars.len() {
                    assert(self.text@ =~= old(self).chars@.subrange(start + 1, self.pos as int));
                }
            }
        }
        proof {
            assert forall|q: int| #![trigger bare_word(old(self).chars@, old(self).pos as int, q)]
                bare_word(old(self).chars@, old(self).pos as int, q) implies q == qq by {
                lemma_bare_word_unique(old(self).chars@, start, q, qq);
            }
        }
        Ok(())
    }

    /// Emit a token after checking for a pending word: a pending word is emitted
    /// first, and the character is read again for the next token.
    fn word_or(&mut self, scope: &Scope, frame: usize, tok: Token) -> (res: (Token, bool))
        requires
            old(self).wf(),
            old(self).globbed@.len() == 0,
            scope.wf(),
            frame < scope.frames.len(),
        ensures
            final(self).wf(),
            final(self).chars == old(self).chars,
            final(self).pos == old(self).pos,
            final(self).in_quotes == old(self).in_quotes,
            res.1 == (old(self).text.len() > 0),
            !(tok is End) ==> !(res.0 is End),
            old(self).text.len() == 0 ==> res.0 == tok && *final(self) == *old(self),
    {
        if self.text.len() > 0 {
            (self.finish_word(scope, frame), true)
        } else {
            (tok, false)
        }
    }

    /// The next token.
    #[verifier::rlimit(40)]
    pub fn next_token(&mut self, scope: &Scope, frame: usize, ctx: &LexContext) -> (res: Result<Token, LexError>)
        requires
            old(self).wf(),
            scope.wf(),
            frame < scope.frames.len(),
        ensures
            final(self).wf(),
            final(self).input() == old(self).input(),
            final(self).position() >= old(self).position(),
            res matches Ok(Token::End) ==> final(self).position() == final(self).input().len()
                && old(self).pending() == 0,
            old(self).pending() > 0 ==> (res matches Ok(Token::Literal(t)) && !t.quoted
                && final(self).pending() == old(self).pending() - 1 && final(self).position()
                == old(self).position()),
            res matches Ok(t) && !(t is End) ==> (final(self).position() > old(self).position() || (
            final(self).position() == old(self).position() && final(self).pending()
                < old(self).pending())),
            old(self).pending() == 0 && old(self).at_rest() && old(self).position() == old(self).input().len()
                ==> res matches Ok(Token::End),
            old(self).pending() == 0 && old(self).at_rest() ==> match lead_token(old(self).input(), old(self).position()) {
                Some((t, n)) => res matches Ok(x) && x == t && final(self).position() == old(self).position() + n,
                None => true,
            },
            forall|q: int| #![trigger bare_word(old(self).input(), old(self).position(), q)]
                old(self).pending() == 0 && old(self).at_rest() && bare_word(old(self).input(), old(self).position(), q)
                && is_keyword(upper_word(old(self).input().subrange(old(self).position(), q))) ==> (res matches Ok(
                Token::Keyword(k)) && k@ == upper_word(old(self).input().subrange(old(self).position(), q))
                && final(self).position() == q),
            forall|q: int| #![trigger bare_word(old(self).input(), old(self).position(), q)]
                old(self).pending() == 0 && old(self).at_rest() && bare_word(old(self).input(), old(self).position(), q)
                && !is_keyword(upper_word(old(self).input().subrange(old(self).position(), q))) ==> (res matches Ok(Token::Literal(t)) && !t.quoted && !t.raw && final(self).position() == q
                    && final(self).at_rest() && exists|paths: Option<Seq<Seq<char>>>| glob_fits(
                    tilde_word(old(self).input().subrange(old(self).position(), q), *scope, frame as int), paths) && #[trigger] expanded_word(
                    tilde_word(old(self).input().subrange(old(self).position(), q), *scope, frame as int),
                    paths,
                ) == (t.value@, final(self).pending_words())),
            old(self).pending() == 0 && old(self).at_rest() && open_quote(old(self).input(), old(self).position())
                ==> (res matches Err(e) && e.message@ == "Unbalanced quotes"@),
            old(self).pending() == 0 && old(self).at_rest() && quoted_to_end(old(self).input(), old(self).position())
                ==> (res matches Ok(Token::Literal(t)) && t.value@ == old(self).input().subrange(
                old(self).position() + 1,
                old(self).input().len() - 1,
            ) && t.quoted && !t.raw && final(self).position() == final(self).input().len() && final(self).at_rest()
                && final(self).pending() == 0),
            forall|q: int| #![trigger raw_string(old(self).input(), old(self).position(), q)]
                old(self).pending() == 0 && old(self).at_rest() && raw_string(old(self).input(), old(self).position(), q)
                    ==> (res matches Ok(Token::Literal(t)) && t.value@ == old(self).input().subrange(
                    old(self).position() + 3,
                    q,
                ) && t.quoted && t.raw && final(self).position() == q + 2 && final(self).at_rest()
                    && final(self).pending() == 0),
            old(self).pending() == 0 && old(self).at_rest() && char_at(old(self).input(), old(self).position(), '"')
                && char_at(old(self).input(), old(self).position() + 1, '\\') ==> (escape_error(
                old(self).input(),
                old(self).position() + 2,
            ) matches Some(m) ==> (res matches Err(e) && e.message@ == m)),
    {
        if self.globbed.len() > 0 {
            let v = self.globbed.remove(0);
            return Ok(Token::Literal(Text { value: v, quoted: false, raw: false }));
        }
        let mut tok = Token::End;
        let mut have = false;
        self.quoted = false;
        self.raw = false;
        self.text = Vec::new();
        let ghost p0 = self.pos as int;
        let ghost rest = !old(self).in_quotes && !old(self).escaped && !old(self).comment;
        let ghost lt = lead_token(old(self).chars@, p0);
        let ghost has_word = exists|q: int| bare_word(old(self).chars@, p0, q);
        let ghost qq = choose|q: int| bare_word(old(self).chars@, p0, q);
        proof {
            if has_word {
                assert(bare_word(old(self).chars@, p0, qq));
            }
            assert forall|q: int| #![trigger bare_word(old(self).chars@, p0, q)]
                bare_word(old(self).chars@, p0, q) implies q == qq by {
                lemma_bare_word_unique(old(self).chars@, p0, q, qq);
            }
        }
        let ghost kw = rest && has_word && is_keyword(upper_word(old(self).chars@.subrange(p0, qq)));
        let ghost lw = rest && has_word && !is_keyword(upper_word(old(self).chars@.subrange(p0, qq)));
        let ghost tw = tilde_word(old(self).chars@.subrange(p0, qq), *scope, frame as int);
        let ghost oq = rest && open_quote(old(self).chars@, p0);
        let ghost esc = rest && char_at(old(self).chars@, p0, '"') && char_at(old(self).chars@, p0 + 1, '\\')
            && escape_error(old(self).chars@, p0 + 2) is Some;
        let ghost has_raw = exists|q: int| raw_string(old(self).chars@, p0, q);
        let ghost rq = choose|q: int| raw_string(old(self).chars@, p0, q);
        proof {
            if has_raw {
                assert(raw_string(old(self).chars@, p0, rq));
            }
            assert forall|q: int| #![trigger raw_string(old(self).chars@, p0, q)]
                raw_string(old(self).chars@, p0, q) implies q == rq by {
                lemma_raw_string_unique(old(self).chars@, p0, q, rq);
            }
        }
        let ghost rw = rest && has_raw;
        let ghost qe = rest && quoted_to_end(old(self).chars@, p0);
        while self.pos < self.chars.len() && !have
            invariant
                qe == (rest && quoted_to_end(old(self).chars@, p0)),
                qe && self.pos != p0 ==> have && (tok matches Token::Literal(t) && t.value@ == old(
                    self,
                ).chars@.subrange(p0 + 1, old(self).chars.len() - 1) && t.quoted && !t.raw),
                qe && self.pos != p0 ==> self.pos == self.chars.len() && !self.in_quotes && !self.escaped
                    && !self.comment && self.globbed@.len() == 0,
                has_raw == exists|q: int| raw_string(old(self).chars@, p0, q),
                has_raw ==> raw_string(old(self).chars@, p0, rq),
                forall|q: int| #![trigger raw_string(old(self).chars@, p0, q)]
                    raw_string(old(self).chars@, p0, q) ==> q == rq,
                rw == (rest && has_raw),
                rw && self.pos != p0 ==> have,
                rw && self.pos != p0 ==> (tok matches Token::Literal(t) && t.value@ == old(self).chars@.subrange(
                    p0 + 3,
                    rq,
                ) && t.quoted && t.raw),
                rw && self.pos != p0 ==> self.pos == rq + 2 && !self.in_quotes,
                rw && self.pos != p0 ==> !self.escaped && !self.comment,
                rw && self.pos != p0 ==> self.globbed@.len() == 0,
                self.pos == p0 ==> self.globbed@.len() == 0,
                !have ==> self.globbed@.len() == 0,
                esc == (rest && char_at(old(self).chars@, p0, '"') && char_at(old(self).chars@, p0 + 1, '\\')
                    && escape_error(old(self).chars@, p0 + 2) is Some),
                esc ==> self.pos == p0,
                p0 == old(self).pos,
                rest == (!old(self).in_quotes && !old(self).escaped && !old(self).comment),
                lt == lead_token(old(self).chars@, p0),
                has_word == exists|q: int| bare_word(old(self).chars@, p0, q),
                has_word ==> bare_word(old(self).chars@, p0, qq),
                forall|q: int| #![trigger bare_word(old(self).chars@, p0, q)]
                    bare_word(old(self).chars@, p0, q) ==> q == qq,
                kw == (rest && has_word && is_keyword(upper_word(old(self).chars@.subrange(p0, qq)))),
                lw == (rest && has_word && !is_keyword(upper_word(old(self).chars@.subrange(p0, qq)))),
                tw == tilde_word(old(self).chars@.subrange(p0, qq), *scope, frame as int),
                lw && self.pos != p0 ==> have && self.pos == qq,
                lw && self.pos != p0 ==> !self.in_quotes && !self.escaped && !self.comment,
                lw && self.pos != p0 ==> (tok matches Token::Literal(t) && !t.quoted && !t.raw),
                lw && self.pos != p0 ==> (tok matches Token::Literal(t) && exists|paths: Option<Seq<Seq<char>>>|
                    glob_fits(tw, paths) && #[trigger] expanded_word(tw, paths) == (
                    t.value@,
                    crate::expand::strings_view(self.globbed@),
                )),
                oq == (rest && open_quote(old(self).chars@, p0)),
                rest && self.pos == p0 ==> !have && self.text.len() == 0 && !self.quoted && !self.raw
                    && !self.in_quotes && !self.escaped && !self.comment,
                rest && self.pos != p0 ==> (lt matches Some((t, n)) ==> have && tok == t && self.pos == p0 + n
                    && !self.in_quotes),
                kw && self.pos != p0 ==> have && (tok matches Token::Keyword(k) && k@ == upper_word(
                    old(self).chars@.subrange(p0, qq))) && self.pos == qq && !self.in_quotes,
                oq && self.pos != p0 ==> have && self.in_quotes,
                self.wf(),
                self.chars == old(self).chars,
                self.pos >= old(self).pos,
                scope.wf(),
                frame < scope.frames.len(),
                have ==> !(tok is End),
                !have ==> tok is End,
                old(self).globbed@.len() == 0,
                self.text.len() > 0 ==> self.pos > old(self).pos,
                self.quoted ==> self.pos > old(self).pos,
                have ==> self.pos > old(self).pos,
            ensures
                have || self.pos >= self.chars.len() || self.text.len() > 0,
                rest && self.pos != p0 ==> (lt matches Some((t, n)) ==> have && tok == t && self.pos == p0 + n
                    && !self.in_quotes),
                rest && lt is Some ==> self.pos != p0,
                lw ==> have && self.pos == qq && !self.in_quotes && !self.escaped && !self.comment && (tok matches Token::Literal(t) && !t.quoted
                    && !t.raw && exists|paths: Option<Seq<Seq<char>>>| glob_fits(tw, paths)
                    && #[trigger] expanded_word(tw, paths) == (t.value@, crate::expand::strings_view(self.globbed@))),
                kw ==> have && (tok matches Token::Keyword(k) && k@ == upper_word(old(self).chars@.subrange(p0, qq)))
                    && self.pos == qq && !self.in_quotes,
                oq ==> have && self.in_quotes,
                !esc,
                qe ==> have && (tok matches Token::Literal(t) && t.value@ == old(self).chars@.subrange(
                    p0 + 1,
                    old(self).chars.len() - 1,
                ) && t.quoted && !t.raw) && self.pos == self.chars.len() && !self.in_quotes && !self.escaped
                    && !self.comment && self.globbed@.len() == 0,
                rw ==> have && (tok matches Token::Literal(t) && t.value@ == old(self).chars@.subrange(p0 + 3, rq)
                    && t.quoted && t.raw) && self.pos == rq + 2 && !self.in_quotes && !self.escaped
                    && !self.comment && self.globbed@.len() == 0,
                rest && p0 >= self.chars.len() ==> !have && self.text.len() == 0 && !self.in_quotes,
            decreases self.chars.len() - self.pos, if have { 0int } else { 1int },
        {
            proof {
                if has_word && self.pos == p0 {
                    assert(word_char(old(self).chars@[p0]));
                }
            }
            let c = self.chars[self.pos];
            if c == '\n' {
                if self.loc.line < u32::MAX {
                    self.loc.line = self.loc.line + 1;
                }
                self.loc.col = 0;
                self.comment = false;
                self.advance();
                continue;
            }
            if self.comment {
                self.advance();
                continue;
            }
            if c == '#' {
                self.comment = true;
                self.advance();
            } else if c == '%' || c == '(' || c == ')' || c == ';' || c == '+' {
                let single = if c == '%' {
                    Token::Operator(Op::Mod)
                } else if c == '(' {
                    Token::LeftParen
                } else if c == ')' {
                    Token::RightParen
                } else if c == ';' {
                    Token::Semicolon
                } else {
                    Token::Operator(Op::Plus)
                };
                let (t, pending) = self.word_or(scope, frame, single);
                tok = t;
                have = true;
                if !pending {
                    self.advance();
                }
            } else if c == '&' {
                if self.text.len() > 0 {
                    tok = self.finish_word(scope, frame);
                    have = true;
                } else {
                    self.advance();
                    if self.next_is('&') {
                        self.advance();
                        tok = Token::Operator(Op::And);
                        have = true;
                    }
                }
            } else if c == '|' || c == '!' || c == '<' || c == '>' || c == '/' {
                if c == '/' && !self.is_delimiter_guarded(c, ctx, scope, frame) {
                    self.text.push(c);
                    self.advance();
                } else if self.text.len() > 0 {
                    tok = self.finish_word(scope, frame);
                    have = true;
                } else {
                    self.advance();
                    let (second, one, two) = if c == '|' {
                        ('|', Op::Pipe, Op::Or)
                    } else if c == '!' {
                        ('=', Op::Not, Op::NotEquals)
                    } else if c == '<' {
                        ('=', Op::Lt, Op::Lte)
                    } else if c == '>' {
                        ('=', Op::Gt, Op::Gte)
                    } else {
                        ('/', Op::Div, Op::IntDiv)
                    };
                    if self.next_is(second) {
                        self.advance();
                        tok = Token::Operator(two);
                    } else {
                        tok = Token::Operator(one);
                    }
                    have = true;
                }
            } else if c == '*' || c == '-' {
                if !self.is_delimiter_guarded(c, ctx, scope, frame) {
                    self.text.push(c);
                    self.advance();
                } else if self.text.len() > 0 {
                    tok = self.finish_word(scope, frame);
                    have = true;
                } else {
                    tok = Token::Operator(if c == '*' { Op::Mul } else { Op::Minus });
                    have = true;
                    self.advance();
                }
            } else if c == '=' {
                if self.text.len() > 0 {
                    tok = self.finish_word(scope, frame);
                    have = true;
                } else {
                    self.advance();
                    if self.next_is('=') {
                        self.advance();
                        tok = Token::Operator(Op::Equals);
                    } else if self.next_is('>') {
                        self.advance();
                        if self.next_is('>') {
                            self.advance();
                            tok = Token::Operator(Op::Append);
                        } else {
                            tok = Token::Operator(Op::Write);
                        }
                    } else {
                        tok = Token::Operator(Op::Assign);
                    }
                    have = true;
                }
            } else if is_whitespace(c) {
                self.advance();
                if self.text.len() > 0 {
                    break;
                }
            } else {
                let start = self.pos;
                match self.scan_word(ctx, scope, frame) {
                    Ok(()) => {},
                    Err(e) => {
                        return Err(e);
                    },
                }
                if self.pos == start {
                    // nothing was read: keep the character, so that the input moves on
                    self.text.push(c);
                    self.advance();
                }
                if self.text.len() > 0 || self.quoted {
                    tok = self.finish_word(scope, frame);
                    have = true;
                    self.text = Vec::new();
                }
            }
        }
        if self.in_quotes {
            return Err(self.error("Unbalanced quotes"));
        }
        if !have && self.text.len() > 0 {
            // a pending word at the end of the input; a lone `-` or `/` after a number is an operator
            if self.text.len() == 1 && self.text[0] == '-' && ctx.current_is_number {
                tok = Token::Operator(Op::Minus);
            } else if self.text.len() == 1 && self.text[0] == '/' && ctx.current_is_number {
                tok = Token::Operator(Op::Div);
            } else {
                tok = self.finish_word(scope, frame);
            }
        }
        Ok(tok)
    }

    /// [`Lexer::is_delimiter`], for a word of any length.
    fn is_delimiter_guarded(&self, c: char, ctx: &LexContext, scope: &Scope, frame: usize) -> (res: bool)
        requires
            scope.wf(),
            frame < scope.frames.len(),
        ensures
            res == (self.text.len() < usize::MAX && spec_is_delimiter(self.text@, c, *ctx, *scope, frame as int)),
    {
        if self.text.len() >= usize::MAX {
            false
        } else {
            self.is_delimiter(c, ctx, scope, frame)
        }
    }
}

/// The upper case of an ASCII lower-case letter.
fn upper_ascii(c: char) -> (res: char)
    requires
        'a' <= c && c <= 'z',
    ensures
        res == keyword_upper(c),
{
    let n: u32 = c as u32;
    let u: u8 = (n - 32) as u8;
    let r = u as char;
    r
}

/// Is the word one of the keywords (see [`is_keyword`])?
fn is_keyword_exec(w: &Vec<char>) -> (res: bool)
    ensures
        res == is_keyword(w@),
{
    let n = w.len();
    if n == 5 && w[0] == 'B' && w[1] == 'R' && w[2] == 'E' && w[3] == 'A' && w[4] == 'K' {
        assert(w@ =~= seq!['B', 'R', 'E', 'A', 'K']);
        return true;
    }
    if n == 8 && w[0] == 'C' && w[1] == 'O' && w[2] == 'N' && w[3] == 'T' && w[4] == 'I' && w[5]
        == 'N' && w[6] == 'U' && w[7] == 'E' {
        assert(w@ =~= seq!['C', 'O', 'N', 'T', 'I', 'N', 'U', 'E']);
        return true;
    }
    if n == 4 && w[0] == 'E' && w[1] == 'L' && w[2] == 'S' && w[3] == 'E' {
        assert(w@ =~= seq!['E', 'L', 'S', 'E']);
        return true;
    }
    if n == 3 && w[0] == 'F' && w[1] == 'O' && w[2] == 'R' {
        assert(w@ =~= seq!['F', 'O', 'R']);
        return true;
    }
    if n == 2 && w[0] == 'I' && w[1] == 'F' {
        assert(w@ =~= seq!['I', 'F']);
        return true;
    }
    if n == 2 && w[0] == 'I' && w[1] == 'N' {
        assert(w@ =~= seq!['I', 'N']);
        return true;
    }
    if n == 4 && w[0] == 'Q' && w[1] == 'U' && w[2] == 'I' && w[3] == 'T' {
        assert(w@ =~= seq!['Q', 'U', 'I', 'T']);
        return true;
    }
    if n == 5 && w[0] == 'W' && w[1] == 'H' && w[2] == 'I' && w[3] == 'L' && w[4] == 'E' {
        assert(w@ =~= seq!['W', 'H', 'I', 'L', 'E']);
        return true;
    }
    false
}

} // verus!

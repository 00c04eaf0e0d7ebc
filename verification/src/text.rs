//! Character and string helpers shared by the rest of the library.
//!
//! Text is modelled by its view, a `Seq<char>`; the executable helpers here
//! convert between `String`, `&str` and `Vec<char>` and implement the few
//! comparisons that the shell needs.
use vstd::prelude::*;
use vstd::string::*;

verus! {

/// Is `p` a prefix of `s`?
pub open spec fn is_prefix(p: Seq<char>, s: Seq<char>) -> bool {
    p.len() <= s.len() && s.take(p.len() as int) == p
}

/// Strict lexicographic order on character sequences (the order of `str`).
pub open spec fn seq_lt(a: Seq<char>, b: Seq<char>) -> bool
    decreases a.len(),
{
    if b.len() == 0 {
        false
    } else if a.len() == 0 {
        true
    } else if a[0] != b[0] {
        a[0] < b[0]
    } else {
        seq_lt(a.drop_first(), b.drop_first())
    }
}

/// Appends one character to a string (`String::push`).
#[verifier::external_body]
pub fn push_char(s: &mut String, c: char)
    ensures
        final(s)@ == old(s)@.push(c),
{
    s.push(c);
}

/// Appends a string slice to a string.
pub fn push_str(s: &mut String, t: &str)
    ensures
        final(s)@ == old(s)@ + t@,
{
    s.append(t);
}

/// A new string holding the characters of a string slice.
pub fn to_owned_string(s: &str) -> (res: String)
    ensures
        res@ == s@,
{
    s.to_owned()
}

/// The characters of a string slice, in order.
pub fn chars_of(s: &str) -> (res: Vec<char>)
    ensures
        res@ == s@,
{
    let mut res: Vec<char> = Vec::new();
    for c in it: s.chars()
        invariant
            res@ == it.seq().take(it.index() as int),
    {
        res.push(c);
    }
    res
}

/// A string made of the given characters, from `start` (inclusive) to `end` (exclusive).
pub fn string_of_range(v: &Vec<char>, start: usize, end: usize) -> (res: String)
    requires
        start <= end <= v.len(),
    ensures
        res@ == v@.subrange(start as int, end as int),
{
    let mut res = String::new();
    let mut i: usize = start;
    while i < end
        invariant
            start <= i <= end <= v.len(),
            res@ == v@.subrange(start as int, i as int),
        decreases end - i,
    {
        push_char(&mut res, v[i]);
        i += 1;
        assert(v@.subrange(start as int, i as int) == v@.subrange(start as int, i - 1).push(
            v@[i - 1],
        ));
    }
    res
}

/// A string made of the given characters.
pub fn string_of(v: &Vec<char>) -> (res: String)
    ensures
        res@ == v@,
{
    let r = string_of_range(v, 0, v.len());
    assert(v@.subrange(0, v.len() as int) == v@);
    r
}

/// Concatenation of two string slices.
pub fn concat(a: &str, b: &str) -> (res: String)
    ensures
        res@ == a@ + b@,
{
    let mut r = to_owned_string(a);
    push_str(&mut r, b);
    r
}

/// Concatenation of three string slices.
pub fn concat3(a: &str, b: &str, c: &str) -> (res: String)
    ensures
        res@ == a@ + b@ + c@,
{
    let mut r = to_owned_string(a);
    push_str(&mut r, b);
    push_str(&mut r, c);
    r
}

/// Equality of two character vectors.
pub fn vec_eq(a: &Vec<char>, b: &Vec<char>) -> (res: bool)
    ensures
        res == (a@ == b@),
{
    if a.len() != b.len() {
        return false;
    }
    let mut i: usize = 0;
    while i < a.len()
        invariant
            a.len() == b.len(),
            i <= a.len(),
            forall|j: int| 0 <= j < i ==> a@[j] == b@[j],
        decreases a.len() - i,
    {
        if a[i] != b[i] {
            return false;
        }
        i += 1;
    }
    assert(a@ =~= b@);
    true
}

/// Equality of two string slices.
pub fn str_eq(a: &str, b: &str) -> (res: bool)
    ensures
        res == (a@ == b@),
{
    let va = chars_of(a);
    let vb = chars_of(b);
    vec_eq(&va, &vb)
}

/// Equality of a string slice with a character vector.
pub fn str_eq_vec(a: &str, b: &Vec<char>) -> (res: bool)
    ensures
        res == (a@ == b@),
{
    let va = chars_of(a);
    vec_eq(&va, b)
}

/// Does `v` start with `p`?
pub fn vec_starts_with(v: &Vec<char>, p: &Vec<char>) -> (res: bool)
    ensures
        res == is_prefix(p@, v@),
{
    if p.len() > v.len() {
        return false;
    }
    let mut i: usize = 0;
    while i < p.len()
        invariant
            p.len() <= v.len(),
            i <= p.len(),
            forall|j: int| 0 <= j < i ==> v@[j] == p@[j],
        decreases p.len() - i,
    {
        if v[i] != p[i] {
            assert(v@.take(p.len() as int)[i as int] != p@[i as int]);
            return false;
        }
        i += 1;
    }
    assert(v@.take(p.len() as int) =~= p@);
    true
}

/// Strict lexicographic comparison of two character vectors.
pub fn vec_lt(a: &Vec<char>, b: &Vec<char>) -> (res: bool)
    ensures
        res == seq_lt(a@, b@),
{
    let mut i: usize = 0;
    assert(a@.skip(0) == a@ && b@.skip(0) == b@);
    while i < a.len() && i < b.len() && a[i] == b[i]
        invariant
            i <= a.len(),
            i <= b.len(),
            seq_lt(a@, b@) == seq_lt(a@.skip(i as int), b@.skip(i as int)),
        decreases a.len() - i,
    {
        assert(a@.skip(i as int).drop_first() == a@.skip(i + 1));
        assert(b@.skip(i as int).drop_first() == b@.skip(i + 1));
        i += 1;
    }
    if i == b.len() {
        false
    } else if i == a.len() {
        true
    } else {
        a[i] < b[i]
    }
}

/// Is `c` a white-space character (the Unicode `White_Space` property, as `char::is_whitespace`)?
pub open spec fn spec_is_whitespace(c: char) -> bool {
    ||| c == ' '
    ||| ('\u{9}' <= c && c <= '\u{d}')
    ||| c == '\u{85}'
    ||| c == '\u{a0}'
    ||| c == '\u{1680}'
    ||| ('\u{2000}' <= c && c <= '\u{200a}')
    ||| c == '\u{2028}'
    ||| c == '\u{2029}'
    ||| c == '\u{202f}'
    ||| c == '\u{205f}'
    ||| c == '\u{3000}'
}

/// Executable counterpart of [`spec_is_whitespace`].
pub fn is_whitespace(c: char) -> (res: bool)
    ensures
        res == spec_is_whitespace(c),
{
    c == ' ' || ('\u{9}' <= c && c <= '\u{d}') || c == '\u{85}' || c == '\u{a0}' || c
        == '\u{1680}' || ('\u{2000}' <= c && c <= '\u{200a}') || c == '\u{2028}' || c
        == '\u{2029}' || c == '\u{202f}' || c == '\u{205f}' || c == '\u{3000}'
}

/// Is `c` ASCII white space (as `char::is_ascii_whitespace`)?
pub open spec fn spec_is_ascii_whitespace(c: char) -> bool {
    c == ' ' || c == '\t' || c == '\n' || c == '\u{c}' || c == '\r'
}

/// Is `c` an ASCII decimal digit?
pub open spec fn spec_is_digit(c: char) -> bool {
    '0' <= c && c <= '9'
}

/// The value of a decimal digit.
pub open spec fn digit_value(c: char) -> int {
    (c as u32) - ('0' as u32)
}

/// The character for a decimal digit value.
pub open spec fn digit_char(d: int) -> char
    recommends
        0 <= d < 10,
{
    ((d + ('0' as u32)) as u32) as char
}

/// Decimal representation of a natural number (no sign, no leading zeros).
pub open spec fn nat_to_decimal(n: nat) -> Seq<char>
    decreases n,
{
    if n < 10 {
        seq![digit_char(n as int)]
    } else {
        nat_to_decimal(n / 10).push(digit_char((n % 10) as int))
    }
}

/// Decimal representation of an integer, with a leading `-` when negative
/// (the `Display` form of Rust integers).
pub open spec fn int_to_decimal(i: int) -> Seq<char> {
    if i < 0 {
        seq!['-'] + nat_to_decimal((-i) as nat)
    } else {
        nat_to_decimal(i as nat)
    }
}

/// The character for a decimal digit value, executable.
pub fn digit_to_char(d: u64) -> (c: char)
    requires
        d < 10,
    ensures
        c == digit_char(d as int),
{
    let c = if d == 0 {
        '0'
    } else if d == 1 {
        '1'
    } else if d == 2 {
        '2'
    } else if d == 3 {
        '3'
    } else if d == 4 {
        '4'
    } else if d == 5 {
        '5'
    } else if d == 6 {
        '6'
    } else if d == 7 {
        '7'
    } else if d == 8 {
        '8'
    } else {
        '9'
    };
    c
}

/// Decimal representation of a `u64`.
pub fn u64_to_string(n: u64) -> (res: String)
    ensures
        res@ == nat_to_decimal(n as nat),
{
    let v = u64_to_chars(n);
    string_of(&v)
}

/// Decimal digits of a `u64`, as characters.
pub fn u64_to_chars(n: u64) -> (res: Vec<char>)
    ensures
        res@ == nat_to_decimal(n as nat),
    decreases n,
{
    if n < 10 {
        let mut v = Vec::new();
        v.push(digit_to_char(n));
        assert(v@ =~= nat_to_decimal(n as nat));
        v
    } else {
        let mut v = u64_to_chars(n / 10);
        v.push(digit_to_char(n % 10));
        v
    }
}

/// Decimal representation of an `i64`, as `i64::to_string`.
pub fn i64_to_string(i: i64) -> (res: String)
    ensures
        res@ == int_to_decimal(i as int),
{
    if i < 0 {
        let m: u64 = if i == i64::MIN {
            9223372036854775808u64
        } else {
            (-i) as u64
        };
        let digits = u64_to_chars(m);
        let mut r = String::new();
        push_char(&mut r, '-');
        let d = string_of(&digits);
        push_str(&mut r, d.as_str());
        assert(r@ =~= seq!['-'] + nat_to_decimal((-(i as int)) as nat));
        r
    } else {
        u64_to_string(i as u64)
    }
}

} // verus!

verus! {

/// `seq_lt` is irreflexive.
pub proof fn lemma_seq_lt_irreflexive(a: Seq<char>)
    ensures
        !seq_lt(a, a),
    decreases a.len(),
{
    if a.len() > 0 {
        lemma_seq_lt_irreflexive(a.drop_first());
    }
}

/// `seq_lt` is transitive.
pub proof fn lemma_seq_lt_transitive(a: Seq<char>, b: Seq<char>, c: Seq<char>)
    requires
        seq_lt(a, b),
        seq_lt(b, c),
    ensures
        seq_lt(a, c),
    decreases a.len(),
{
    if a.len() > 0 && b.len() > 0 && c.len() > 0 {
        if a[0] == b[0] && b[0] == c[0] {
            lemma_seq_lt_transitive(a.drop_first(), b.drop_first(), c.drop_first());
        }
    }
}

/// `seq_lt` is total on distinct sequences, and asymmetric.
pub proof fn lemma_seq_lt_total(a: Seq<char>, b: Seq<char>)
    ensures
        a != b ==> (seq_lt(a, b) || seq_lt(b, a)),
        !(seq_lt(a, b) && seq_lt(b, a)),
    decreases a.len(),
{
    if a.len() > 0 && b.len() > 0 {
        lemma_seq_lt_total(a.drop_first(), b.drop_first());
        if a[0] == b[0] && a != b {
            assert(a == seq![a[0]] + a.drop_first());
            assert(b == seq![b[0]] + b.drop_first());
        }
    } else if a.len() == 0 && b.len() == 0 {
        assert(a =~= b);
    }
}

} // verus!

verus! {

/// Append the characters of `src` to `dst`.
pub fn vec_extend(dst: &mut Vec<char>, src: &Vec<char>)
    ensures
        final(dst)@ == old(dst)@ + src@,
{
    let mut i: usize = 0;
    let ghost base = dst@;
    while i < src.len()
        invariant
            i <= src.len(),
            dst@ == base + src@.take(i as int),
        decreases src.len() - i,
    {
        dst.push(src[i]);
        i += 1;
        assert(dst@ =~= base + src@.take(i as int));
    }
    assert(src@.take(src.len() as int) == src@);
}

/// The characters `v[start..end]`.
pub fn vec_range(v: &Vec<char>, start: usize, end: usize) -> (res: Vec<char>)
    requires
        start <= end <= v.len(),
    ensures
        res@ == v@.subrange(start as int, end as int),
{
    let mut r: Vec<char> = Vec::new();
    let mut i: usize = start;
    while i < end
        invariant
            start <= i <= end <= v.len(),
            r@ == v@.subrange(start as int, i as int),
        decreases end - i,
    {
        r.push(v[i]);
        i += 1;
        assert(r@ =~= v@.subrange(start as int, i as int));
    }
    r
}

/// Every occurrence of `pat` in `s`, scanning from the left without overlap,
/// replaced by `with` (`str::replace`, for a non-empty pattern).
pub open spec fn str_replace(s: Seq<char>, pat: Seq<char>, with: Seq<char>) -> Seq<char>
    decreases s.len(),
{
    if pat.len() == 0 || s.len() < pat.len() {
        s
    } else if s.take(pat.len() as int) == pat {
        with + str_replace(s.skip(pat.len() as int), pat, with)
    } else {
        seq![s[0]] + str_replace(s.drop_first(), pat, with)
    }
}

/// Does `pat` occur in `s` at position `i`?
pub fn occurs_at(s: &Vec<char>, pat: &Vec<char>, i: usize) -> (res: bool)
    requires
        i <= s.len(),
    ensures
        res == (pat@.len() <= s@.len() - i && s@.skip(i as int).take(pat@.len() as int) == pat@),
{
    if pat.len() > s.len() - i {
        return false;
    }
    let mut k: usize = 0;
    while k < pat.len()
        invariant
            i <= s.len(),
            pat.len() <= s.len() - i,
            k <= pat.len(),
            forall|j: int| 0 <= j < k ==> s@[i + j] == pat@[j],
        decreases pat.len() - k,
    {
        if s[i + k] != pat[k] {
            assert(s@.skip(i as int).take(pat@.len() as int)[k as int] == s@[i + k]);
            return false;
        }
        k += 1;
    }
    assert(s@.skip(i as int).take(pat@.len() as int) =~= pat@);
    true
}

/// Replace every occurrence of `pat` in `s` by `with` (`str::replace`).
pub fn replace_all(s: &Vec<char>, pat: &Vec<char>, with: &Vec<char>) -> (res: Vec<char>)
    ensures
        res@ == str_replace(s@, pat@, with@),
{
    let mut out: Vec<char> = Vec::new();
    if pat.len() == 0 {
        vec_extend(&mut out, s);
        return out;
    }
    let mut i: usize = 0;
    assert(s@.skip(0) == s@);
    while i < s.len()
        invariant
            i <= s.len(),
            pat@.len() > 0,
            out@ + str_replace(s@.skip(i as int), pat@, with@) == str_replace(s@, pat@, with@),
        decreases s.len() - i,
    {
        let ghost rest = s@.skip(i as int);
        if occurs_at(s, pat, i) {
            vec_extend(&mut out, with);
            proof {
                assert(rest.skip(pat@.len() as int) == s@.skip(i + pat@.len()));
                assert(out@ + str_replace(s@.skip(i + pat@.len()), pat@, with@) == str_replace(s@, pat@, with@));
            }
            i += pat.len();
        } else {
            out.push(s[i]);
            proof {
                assert(rest.drop_first() == s@.skip(i + 1));
                assert(rest[0] == s@[i as int]);
                if rest.len() < pat@.len() {
                    // no more occurrences: the rest is copied
                    lemma_replace_short(rest, pat@, with@);
                    lemma_replace_short(rest.drop_first(), pat@, with@);
                    assert(rest == seq![rest[0]] + rest.drop_first());
                }
            }
            i += 1;
        }
    }
    assert(s@.skip(s.len() as int) =~= Seq::<char>::empty());
    assert(out@ + Seq::<char>::empty() == out@);
    out
}

/// Shorter than the pattern: nothing is replaced.
proof fn lemma_replace_short(s: Seq<char>, pat: Seq<char>, with: Seq<char>)
    requires
        s.len() < pat.len(),
    ensures
        str_replace(s, pat, with) == s,
{
}

/// Decimal representation of an `i64`, as characters.
pub fn i64_to_chars(i: i64) -> (res: Vec<char>)
    ensures
        res@ == int_to_decimal(i as int),
{
    let s = i64_to_string(i);
    chars_of(s.as_str())
}

/// The position of the first character at or after `i` that is not white space.
pub open spec fn lead_end(s: Seq<char>, i: int) -> int
    decreases s.len() - i,
{
    if i >= s.len() || !spec_is_whitespace(s[i]) {
        i
    } else {
        lead_end(s, i + 1)
    }
}

/// The position after the last character before `j` that is not white space.
pub open spec fn trail_start(s: Seq<char>, j: int) -> int
    decreases j,
{
    if j <= 0 || !spec_is_whitespace(s[j - 1]) {
        j
    } else {
        trail_start(s, j - 1)
    }
}

/// `s` without leading and trailing white space (as `str::trim`).
pub open spec fn spec_trim(s: Seq<char>) -> Seq<char> {
    let a = lead_end(s, 0);
    let b = trail_start(s, s.len() as int);
    if a >= b {
        Seq::empty()
    } else {
        s.subrange(a, b)
    }
}

/// Executable counterpart of [`spec_trim`].
pub fn trim(s: &Vec<char>) -> (res: Vec<char>)
    ensures
        res@ == spec_trim(s@),
{
    let mut a: usize = 0;
    while a < s.len() && is_whitespace(s[a])
        invariant
            a <= s.len(),
            lead_end(s@, 0) == lead_end(s@, a as int),
        decreases s.len() - a,
    {
        a += 1;
    }
    let mut b: usize = s.len();
    while b > 0 && is_whitespace(s[b - 1])
        invariant
            b <= s.len(),
            trail_start(s@, s.len() as int) == trail_start(s@, b as int),
        decreases b,
    {
        b -= 1;
    }
    if a >= b {
        Vec::new()
    } else {
        vec_range(s, a, b)
    }
}

/// The words of `s` from position `i` on, where `cur` is the word being read:
/// maximal runs of characters that are not ASCII white space (as
/// `str::split_ascii_whitespace`).
pub open spec fn words_from(s: Seq<char>, i: int, cur: Seq<char>) -> Seq<Seq<char>>
    decreases s.len() - i,
{
    if i >= s.len() {
        if cur.len() > 0 {
            seq![cur]
        } else {
            Seq::empty()
        }
    } else if spec_is_ascii_whitespace(s[i]) {
        (if cur.len() > 0 {
            seq![cur]
        } else {
            Seq::empty()
        }) + words_from(s, i + 1, Seq::empty())
    } else {
        words_from(s, i + 1, cur.push(s[i]))
    }
}

/// The words of `s` (see [`words_from`]).
pub open spec fn spec_words(s: Seq<char>) -> Seq<Seq<char>> {
    words_from(s, 0, Seq::empty())
}

/// The texts of a sequence of strings.
pub open spec fn texts(v: Seq<String>) -> Seq<Seq<char>> {
    v.map_values(|x: String| x@)
}

/// The position of the first line feed in `s` at or after `k`, or the length.
pub open spec fn char_line_end(s: Seq<char>, k: int) -> int
    decreases s.len() - k,
{
    if 0 <= k < s.len() && s[k] != '\n' {
        char_line_end(s, k + 1)
    } else {
        k
    }
}

/// The end of a line lies in the text, at a line feed or at the end.
pub proof fn lemma_char_line_end(s: Seq<char>, k: int)
    requires
        0 <= k <= s.len(),
    ensures
        k <= char_line_end(s, k) <= s.len(),
        char_line_end(s, k) < s.len() ==> s[char_line_end(s, k)] == '\n',
        forall|m: int| k <= m < char_line_end(s, k) ==> s[m] != '\n',
    decreases s.len() - k,
{
    if k < s.len() && s[k] != '\n' {
        lemma_char_line_end(s, k + 1);
    }
}

/// A line that ended in a line feed, without the carriage return before it.
pub open spec fn without_cr(l: Seq<char>) -> Seq<char> {
    if l.len() > 0 && l.last() == '\r' {
        l.drop_last()
    } else {
        l
    }
}

/// The lines of `s` from position `k`, as `str::lines` gives them: the pieces
/// between line feeds, each without a carriage return that ends it, and the
/// piece after the last line feed if it is not empty (kept as it is).
pub open spec fn lines_from_char(s: Seq<char>, k: int) -> Seq<Seq<char>>
    decreases s.len() - k,
{
    if k < 0 || k >= s.len() {
        Seq::empty()
    } else {
        let e = char_line_end(s, k);
        proof {
            lemma_char_line_end(s, k);
        }
        if e < s.len() {
            seq![without_cr(s.subrange(k, e))] + lines_from_char(s, e + 1)
        } else {
            seq![s.subrange(k, e)]
        }
    }
}

/// The lines of `s` (`str::lines`).
pub open spec fn text_lines(s: Seq<char>) -> Seq<Seq<char>> {
    lines_from_char(s, 0)
}

/// The lines of `s`, as `str::lines` gives them.
pub fn lines_of(s: &str) -> (res: Vec<String>)
    ensures
        texts(res@) == text_lines(s@),
{
    let v = chars_of(s);
    let mut out: Vec<String> = Vec::new();
    let mut k: usize = 0;
    while k < v.len()
        invariant
            v@ == s@,
            k <= v.len(),
            texts(out@) + lines_from_char(v@, k as int) == text_lines(v@),
        decreases v.len() - k,
    {
        let mut e = k;
        while e < v.len() && v[e] != '\n'
            invariant
                k <= e <= v.len(),
                char_line_end(v@, k as int) == char_line_end(v@, e as int),
            decreases v.len() - e,
        {
            e += 1;
        }
        proof {
            lemma_char_line_end(v@, k as int);
        }
        let ghost before = texts(out@);
        if e < v.len() {
            let stop = if e > k && v[e - 1] == '\r' {
                e - 1
            } else {
                e
            };
            out.push(string_of_range(&v, k, stop));
            proof {
                assert(v@.subrange(k as int, stop as int) == without_cr(v@.subrange(k as int, e as int)));
                assert(texts(out@) =~= before.push(without_cr(v@.subrange(k as int, e as int))));
            }
            k = e + 1;
        } else {
            out.push(string_of_range(&v, k, e));
            proof {
                assert(texts(out@) =~= before.push(v@.subrange(k as int, e as int)));
            }
            k = e;
        }
    }
    out
}

/// Append the words of `s` to `out` (see [`spec_words`]).
pub fn push_words(out: &mut Vec<String>, s: &Vec<char>)
    ensures
        texts(final(out)@) == texts(old(out)@) + spec_words(s@),
{
    let mut cur: Vec<char> = Vec::new();
    let mut i: usize = 0;
    while i < s.len()
        invariant
            i <= s.len(),
            texts(out@) + words_from(s@, i as int, cur@) == texts(old(out)@) + spec_words(s@),
        decreases s.len() - i,
    {
        let c = s[i];
        if c == ' ' || c == '\t' || c == '\n' || c == '\u{c}' || c == '\r' {
            if cur.len() > 0 {
                let ghost before = texts(out@);
                out.push(string_of(&cur));
                assert(texts(out@) == before.push(cur@));
                assert(words_from(s@, i as int, cur@) == seq![cur@] + words_from(s@, i + 1, Seq::empty()));
                assert(texts(out@) + words_from(s@, i + 1, Seq::<char>::empty()) == before + words_from(s@, i as int, cur@));
                cur = Vec::new();
            } else {
                assert(words_from(s@, i as int, cur@) == Seq::<Seq<char>>::empty() + words_from(s@, i + 1, Seq::empty()));
                assert(cur@ =~= Seq::<char>::empty());
            }
        } else {
            cur.push(c);
        }
        i += 1;
    }
    if cur.len() > 0 {
        let ghost before = texts(out@);
        out.push(string_of(&cur));
        assert(texts(out@) == before.push(cur@));
    } else {
        assert(texts(out@) + Seq::<Seq<char>>::empty() == texts(out@));
    }
}

} // verus!

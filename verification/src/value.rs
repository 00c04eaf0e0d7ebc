//! Values of the shell language.
use vstd::prelude::*;
use crate::text::{digit_value, nat_to_decimal, spec_is_digit};

verus! {

/// A value: an integer, a string, or the status of a command execution
/// (a handle into the interpreter's table of statuses).
#[derive(Debug)]
pub enum Value {
    Int(i64),
    Str(String),
    Stat(usize),
}

/// The mathematical view of a [`Value`].
pub enum SValue {
    Int(int),
    Str(Seq<char>),
    Stat(nat),
}

impl View for Value {
    type V = SValue;

    open spec fn view(&self) -> SValue {
        match self {
            Value::Int(i) => SValue::Int(*i as int),
            Value::Str(s) => SValue::Str(s@),
            Value::Stat(h) => SValue::Stat(*h as nat),
        }
    }
}

impl Value {
    /// A copy of this value.
    pub fn duplicate(&self) -> (res: Value)
        ensures
            res@ == self@,
    {
        match self {
            Value::Int(i) => Value::Int(*i),
            Value::Str(s) => Value::Str(s.clone()),
            Value::Stat(h) => Value::Stat(*h),
        }
    }

    /// The value of a successful command or statement: the integer zero.
    pub fn success() -> (res: Value)
        ensures
            res@ == SValue::Int(0),
    {
        Value::Int(0)
    }

    /// A string value.
    pub fn new_str(value: String) -> (res: Value)
        ensures
            res@ == SValue::Str(value@),
    {
        Value::Str(value)
    }
}

/// The value of a string of decimal digits.
pub open spec fn decimal_value(s: Seq<char>) -> int
    decreases s.len(),
{
    if s.len() == 0 {
        0
    } else {
        decimal_value(s.drop_last()) * 10 + digit_value(s.last())
    }
}

/// Is every character a decimal digit?
pub open spec fn all_digits(s: Seq<char>) -> bool {
    forall|i: int| 0 <= i < s.len() ==> spec_is_digit(#[trigger] s[i])
}

/// The integer that `s` denotes as Rust reads an `i64` (`i64::from_str`): an optional
/// sign and at least one digit, in range; `None` for anything else.
pub open spec fn spec_parse_i64(s: Seq<char>) -> Option<int> {
    let neg = s.len() > 0 && s[0] == '-';
    let signed = s.len() > 0 && (s[0] == '-' || s[0] == '+');
    let digits = if signed {
        s.drop_first()
    } else {
        s
    };
    if digits.len() == 0 || !all_digits(digits) {
        None
    } else {
        let v = if neg {
            -decimal_value(digits)
        } else {
            decimal_value(digits)
        };
        if i64::MIN <= v <= i64::MAX {
            Some(v)
        } else {
            None
        }
    }
}

/// Does `s[i..]` consist of digits only?
pub open spec fn digits_from(s: Seq<char>, i: int) -> bool {
    forall|j: int| i <= j < s.len() ==> spec_is_digit(#[trigger] s[j])
}

/// Are two characters equal up to ASCII case?
pub open spec fn char_eq_ignore_case(a: char, b: char) -> bool {
    ||| a == b
    ||| ('A' <= a && a <= 'Z' && (a as u32) + 32 == (b as u32))
    ||| ('A' <= b && b <= 'Z' && (b as u32) + 32 == (a as u32))
}

/// ASCII case-insensitive equality.
pub open spec fn eq_ignore_case(a: Seq<char>, b: Seq<char>) -> bool {
    a.len() == b.len() && forall|i: int| 0 <= i < a.len() ==> char_eq_ignore_case(#[trigger] a[i], b[i])
}

/// The decimal number part of the `f64` grammar: digits with at most one point
/// and at least one digit, then an optional exponent `e`/`E`, sign, digits.
pub open spec fn is_decimal_number(s: Seq<char>) -> bool {
    exists|e: int| 0 <= e <= s.len() && #[trigger] is_mantissa(s.take(e)) && is_exponent(s.skip(e))
}

/// Digits with at most one decimal point and at least one digit.
pub open spec fn is_mantissa(s: Seq<char>) -> bool {
    &&& s.len() > 0
    &&& (exists|k: int| 0 <= k < s.len() && spec_is_digit(#[trigger] s[k]))
    &&& forall|k: int| 0 <= k < s.len() ==> spec_is_digit(#[trigger] s[k]) || s[k] == '.'
    &&& forall|k: int, l: int| #![trigger s[k], s[l]] 0 <= k < l < s.len() && s[k] == '.' ==> s[l] != '.'
}

/// Empty, or `e`/`E`, an optional sign, and at least one digit.
pub open spec fn is_exponent(s: Seq<char>) -> bool {
    s.len() == 0 || ((s[0] == 'e' || s[0] == 'E') && {
        let t = s.drop_first();
        let d = if t.len() > 0 && (t[0] == '+' || t[0] == '-') {
            t.drop_first()
        } else {
            t
        };
        d.len() > 0 && all_digits(d)
    })
}

/// Does `s` read as an `f64` (`f64::from_str`): an optional sign, then `inf`,
/// `infinity`, `nan` (any case) or a decimal number?
pub open spec fn is_float_text(s: Seq<char>) -> bool {
    let body = if s.len() > 0 && (s[0] == '-' || s[0] == '+') {
        s.drop_first()
    } else {
        s
    };
    ||| eq_ignore_case(body, seq!['i', 'n', 'f'])
    ||| eq_ignore_case(body, seq!['i', 'n', 'f', 'i', 'n', 'i', 't', 'y'])
    ||| eq_ignore_case(body, seq!['n', 'a', 'n'])
    ||| is_decimal_number(body)
}

/// Does `s` read as a number, an `i64` or an `f64`?
pub open spec fn is_numeric_text(s: Seq<char>) -> bool {
    spec_parse_i64(s) is Some || is_float_text(s)
}

/// The value that a text denotes: an integer if it reads as one, else the text itself.
pub open spec fn spec_value_from_text(s: Seq<char>) -> SValue {
    match spec_parse_i64(s) {
        Some(i) => SValue::Int(i),
        None => SValue::Str(s),
    }
}

/// The value of digits is not negative.
pub proof fn lemma_decimal_nonneg(s: Seq<char>)
    requires
        all_digits(s),
    ensures
        decimal_value(s) >= 0,
    decreases s.len(),
{
    if s.len() > 0 {
        assert(all_digits(s.drop_last()));
        lemma_decimal_nonneg(s.drop_last());
        assert(spec_is_digit(s[s.len() - 1]));
    }
}

/// A prefix of digits is worth at most the whole.
pub proof fn lemma_decimal_prefix(s: Seq<char>, k: int)
    requires
        all_digits(s),
        0 <= k <= s.len(),
    ensures
        decimal_value(s.take(k)) <= decimal_value(s),
    decreases s.len() - k,
{
    if k < s.len() {
        lemma_decimal_prefix(s, k + 1);
        assert(s.take(k + 1).drop_last() == s.take(k));
        assert(all_digits(s.take(k)));
        lemma_decimal_nonneg(s.take(k));
        assert(spec_is_digit(s[k]));
    } else {
        assert(s.take(k) == s);
    }
}

/// Read an `i64` as `i64::from_str` does.
pub fn parse_i64(s: &Vec<char>) -> (res: Option<i64>)
    ensures
        match spec_parse_i64(s@) {
            Some(v) => res == Some(v as i64),
            None => res is None,
        },
{
    let n = s.len();
    if n == 0 {
        return None;
    }
    let neg = s[0] == '-';
    let start: usize = if s[0] == '-' || s[0] == '+' {
        1
    } else {
        0
    };
    let ghost digits = s@.skip(start as int);
    assert(start == 1 ==> digits == s@.drop_first());
    assert(start == 0 ==> digits == s@);
    if start == n {
        return None;
    }
    let mut acc: u64 = 0;
    let mut i: usize = start;
    while i < n
        invariant
            start <= i <= n,
            n == s.len(),
            n > 0,
            start == (if s@[0] == '-' || s@[0] == '+' { 1int } else { 0int }),
            neg == (s@[0] == '-'),
            digits == s@.skip(start as int),
            digits == (if start == 1 { s@.drop_first() } else { s@ }),
            forall|j: int| start <= j < i ==> spec_is_digit(#[trigger] s@[j]),
            acc as int == decimal_value(digits.take(i - start)),
        decreases n - i,
    {
        let c = s[i];
        if !('0' <= c && c <= '9') {
            assert(digits[i - start] == c);
            assert(!all_digits(digits));
            return None;
        }
        let d = (c as u32 - '0' as u32) as u64;
        assert(digits.take(i - start + 1).drop_last() == digits.take(i - start));
        assert(digits[i - start] == c);
        match acc.checked_mul(10) {
            Some(a10) => match a10.checked_add(d) {
                Some(na) => {
                    acc = na;
                },
                None => {
                    proof {
                        assert(acc as int * 10 + d > u64::MAX);
                        if all_digits(digits) {
                            lemma_decimal_prefix(digits, i - start + 1);
                            assert(decimal_value(digits.take(i - start + 1)) == acc * 10 + d);
                        }
                    }
                    return None;
                },
            },
            None => {
                proof {
                    assert(acc as int * 10 > u64::MAX);
                    if all_digits(digits) {
                        lemma_decimal_prefix(digits, i - start + 1);
                        assert(decimal_value(digits.take(i - start + 1)) == acc * 10 + d);
                        lemma_decimal_nonneg(digits.take(i - start));
                    }
                }
                return None;
            },
        }
        i += 1;
    }
    assert(digits.take(n - start) == digits);
    assert(all_digits(digits));
    if neg {
        if acc <= 9223372036854775807u64 {
            Some(-(acc as i64))
        } else if acc == 9223372036854775808u64 {
            Some(i64::MIN)
        } else {
            None
        }
    } else {
        if acc <= 9223372036854775807u64 {
            Some(acc as i64)
        } else {
            None
        }
    }
}

/// ASCII case-insensitive comparison of `s[start..]` with a lower-case word.
fn rest_eq_ignore_case(s: &Vec<char>, start: usize, word: &Vec<char>) -> (res: bool)
    requires
        start <= s.len(),
    ensures
        res == eq_ignore_case(s@.skip(start as int), word@),
{
    if s.len() - start != word.len() {
        return false;
    }
    let mut i: usize = 0;
    while i < word.len()
        invariant
            start <= s.len(),
            s.len() - start == word.len(),
            i <= word.len(),
            forall|j: int| 0 <= j < i ==> char_eq_ignore_case(#[trigger] s@.skip(start as int)[j], word@[j]),
        decreases word.len() - i,
    {
        let a = s[start + i];
        let b = word[i];
        assert(s@.skip(start as int)[i as int] == a);
        let same = a == b || ('A' <= a && a <= 'Z' && (a as u32) + 32 == (b as u32)) || ('A' <= b
            && b <= 'Z' && (b as u32) + 32 == (a as u32));
        if !same {
            return false;
        }
        i += 1;
    }
    true
}

/// Does `s` read as an `f64` (see [`is_float_text`])?
pub fn float_text(s: &Vec<char>) -> (res: bool)
    ensures
        res == is_float_text(s@),
{
    let start: usize = if s.len() > 0 && (s[0] == '-' || s[0] == '+') {
        1
    } else {
        0
    };
    let ghost body = if s@.len() > 0 && (s@[0] == '-' || s@[0] == '+') {
        s@.drop_first()
    } else {
        s@
    };
    assert(body == s@.skip(start as int));
    let mut inf: Vec<char> = Vec::new();
    inf.push('i');
    inf.push('n');
    inf.push('f');
    let mut infinity: Vec<char> = Vec::new();
    infinity.push('i');
    infinity.push('n');
    infinity.push('f');
    infinity.push('i');
    infinity.push('n');
    infinity.push('i');
    infinity.push('t');
    infinity.push('y');
    let mut nan: Vec<char> = Vec::new();
    nan.push('n');
    nan.push('a');
    nan.push('n');
    assert(inf@ == seq!['i', 'n', 'f']);
    assert(infinity@ == seq!['i', 'n', 'f', 'i', 'n', 'i', 't', 'y']);
    assert(nan@ == seq!['n', 'a', 'n']);
    if rest_eq_ignore_case(s, start, &inf) || rest_eq_ignore_case(s, start, &infinity)
        || rest_eq_ignore_case(s, start, &nan) {
        return true;
    }
    decimal_number(s, start)
}

/// Is `s[start..]` a decimal number (see [`is_decimal_number`])?
fn decimal_number(s: &Vec<char>, start: usize) -> (res: bool)
    requires
        start <= s.len(),
    ensures
        res == is_decimal_number(s@.skip(start as int)),
{
    let ghost b = s@.skip(start as int);
    // the mantissa: digits and points
    let mut e: usize = start;
    let mut points: usize = 0;
    let mut digits: usize = 0;
    while e < s.len() && (('0' <= s[e] && s[e] <= '9') || s[e] == '.')
        invariant
            start <= e <= s.len(),
            b == s@.skip(start as int),
            forall|k: int| 0 <= k < e - start ==> spec_is_digit(#[trigger] b[k]) || b[k] == '.',
            points <= e - start,
            digits <= e - start,
            (points == 0) == (forall|k: int| 0 <= k < e - start ==> #[trigger] b[k] != '.'),
            (points <= 1) == (forall|k: int, l: int|
                #![trigger b[k], b[l]]
                0 <= k < l < e - start && b[k] == '.' ==> b[l] != '.'),
            (digits > 0) == (exists|k: int| 0 <= k < e - start && spec_is_digit(#[trigger] b[k])),
        decreases s.len() - e,
    {
        assert(b[e - start] == s@[e as int]);
        if s[e] == '.' {
            if points == 0 {
                points = 1;
            } else if points == 1 {
                points = 2;
                proof {
                    let k0 = choose|k: int| 0 <= k < e - start && #[trigger] b[k] == '.';
                    assert(!(forall|k: int, l: int|
                        #![trigger b[k], b[l]]
                        0 <= k < l < e - start + 1 && b[k] == '.' ==> b[l] != '.')) by {
                        assert(b[k0] == '.' && b[e - start] == '.');
                    }
                }
            }
        } else {
            if digits == 0 {
                digits = 1;
            }
        }
        e += 1;
    }
    let m = e - start;
    let mantissa_ok = m > 0 && digits > 0 && points <= 1;
    proof {
        let t = b.take(m as int);
        assert forall|k: int| 0 <= k < m implies #[trigger] t[k] == b[k] by {}
        if digits > 0 {
            let k = choose|k: int| 0 <= k < m && spec_is_digit(#[trigger] b[k]);
            assert(spec_is_digit(t[k]));
        }
        if exists|k: int| 0 <= k < t.len() && spec_is_digit(#[trigger] t[k]) {
            let k = choose|k: int| 0 <= k < t.len() && spec_is_digit(#[trigger] t[k]);
            assert(spec_is_digit(b[k]));
        }
        assert forall|k: int| 0 <= k < t.len() implies spec_is_digit(#[trigger] t[k]) || t[k] == '.' by {
            assert(t[k] == b[k]);
        }
        if points <= 1 {
            assert forall|k: int, l: int| #![trigger t[k], t[l]] 0 <= k < l < t.len() && t[k] == '.' implies t[l] != '.' by {
                assert(t[k] == b[k] && t[l] == b[l]);
            }
        } else {
            let (k, l) = choose|k: int, l: int| #![trigger b[k], b[l]] 0 <= k < l < m && b[k] == '.' && b[l] == '.';
            assert(t[k] == b[k] && t[l] == b[l]);
        }
        assert(mantissa_ok == is_mantissa(t));
    }
    let exp_ok = exponent_at(s, e);
    assert(b.skip(m as int) == s@.skip(e as int));
    let res = mantissa_ok && exp_ok;
    proof {
        if res {
            assert(is_mantissa(b.take(m as int)) && is_exponent(b.skip(m as int)));
        } else if is_decimal_number(b) {
            let e2 = choose|e2: int| 0 <= e2 <= b.len() && #[trigger] is_mantissa(b.take(e2)) && is_exponent(b.skip(e2));
            if e2 < m {
                assert(b.skip(e2)[0] == b[e2]);
            } else if e2 > m {
                assert(b.take(e2)[m as int] == b[m as int]);
                assert(m < b.len());
                assert(b[m as int] == s@[e as int]);
            }
        }
    }
    res
}

/// Is `s[e..]` empty or an exponent (see [`is_exponent`])?
#[verifier::loop_isolation(false)]
fn exponent_at(s: &Vec<char>, e: usize) -> (res: bool)
    requires
        e <= s.len(),
    ensures
        res == is_exponent(s@.skip(e as int)),
{
    let ghost x = s@.skip(e as int);
    if e == s.len() {
        return true;
    }
    assert(x[0] == s@[e as int]);
    if s[e] != 'e' && s[e] != 'E' {
        return false;
    }
    let mut j: usize = e + 1;
    if j < s.len() && (s[j] == '+' || s[j] == '-') {
        j += 1;
    }
    let ghost t = x.drop_first();
    let ghost d = if t.len() > 0 && (t[0] == '+' || t[0] == '-') {
        t.drop_first()
    } else {
        t
    };
    assert(d == s@.skip(j as int));
    if j == s.len() {
        return false;
    }
    let mut k: usize = j;
    while k < s.len()
        invariant
            j <= k <= s.len(),
            d == s@.skip(j as int),
            forall|i: int| 0 <= i < k - j ==> spec_is_digit(#[trigger] d[i]),
        decreases s.len() - k,
    {
        assert(d[k - j] == s@[k as int]);
        if !('0' <= s[k] && s[k] <= '9') {
            assert(!all_digits(d));
            return false;
        }
        k += 1;
    }
    true
}

/// Does `s` read as a number (an `i64` or an `f64`)?
pub fn numeric_text(s: &Vec<char>) -> (res: bool)
    ensures
        res == is_numeric_text(s@),
{
    match parse_i64(s) {
        Some(_) => true,
        None => float_text(s),
    }
}

/// The value that a text denotes: an integer if it reads as one, else the text.
pub fn value_from_text(s: &Vec<char>) -> (res: Value)
    ensures
        res@ == spec_value_from_text(s@),
{
    match parse_i64(s) {
        Some(i) => Value::Int(i),
        None => Value::Str(crate::text::string_of(s)),
    }
}

/// The decimal form of a natural number: digits only, read back as the number.
pub proof fn lemma_nat_decimal(n: nat)
    ensures
        nat_to_decimal(n).len() > 0,
        all_digits(nat_to_decimal(n)),
        decimal_value(nat_to_decimal(n)) == n,
    decreases n,
{
    let d = (n % 10) as int;
    assert('0' as u32 == 48);
    let c = crate::text::digit_char(d);
    assert(c as u32 == d + 48);
    assert(crate::text::digit_value(c) == d);
    if n < 10 {
        let s = nat_to_decimal(n);
        assert(s == seq![c]);
        assert(s.drop_last() =~= Seq::<char>::empty());
        assert(decimal_value(s.drop_last()) == 0);
        assert(s.last() == c);
        assert(decimal_value(s) == d);
        assert(spec_is_digit(s[0]));
    } else {
        lemma_nat_decimal(n / 10);
        let p = nat_to_decimal(n / 10);
        let s = nat_to_decimal(n);
        assert(s == p.push(c));
        assert(s.drop_last() =~= p);
        assert(s.last() == c);
        assert((n / 10) * 10 + n % 10 == n);
        assert(decimal_value(s) == decimal_value(p) * 10 + d);
        assert forall|i: int| 0 <= i < s.len() implies spec_is_digit(#[trigger] s[i]) by {
            if i < p.len() {
                assert(s[i] == p[i]);
            }
        }
    }
}

/// What `i64` text gives back: the decimal form of an `i64` reads as that `i64`.
pub proof fn law_int_text_roundtrip(i: int)
    requires
        i64::MIN <= i <= i64::MAX,
    ensures
        spec_parse_i64(crate::text::int_to_decimal(i)) == Some(i),
        spec_value_from_text(crate::text::int_to_decimal(i)) == SValue::Int(i),
{
    if i < 0 {
        let m = (-i) as nat;
        lemma_nat_decimal(m);
        let s = crate::text::int_to_decimal(i);
        assert(s == seq!['-'] + nat_to_decimal(m));
        assert(s.drop_first() =~= nat_to_decimal(m));
    } else {
        lemma_nat_decimal(i as nat);
        let s = crate::text::int_to_decimal(i);
        assert(spec_is_digit(s[0]));
    }
}

/// The number that `s` denotes as Rust reads a `usize` (`usize::from_str`): an
/// optional `+` and at least one digit, in range.
pub open spec fn spec_parse_usize(s: Seq<char>) -> Option<nat> {
    let digits = if s.len() > 0 && s[0] == '+' {
        s.drop_first()
    } else {
        s
    };
    if digits.len() == 0 || !crate::value::all_digits(digits) {
        None
    } else if crate::value::decimal_value(digits) <= usize::MAX {
        Some(crate::value::decimal_value(digits) as nat)
    } else {
        None
    }
}

/// Read a `usize` (see [`spec_parse_usize`]).
pub fn parse_usize(s: &Vec<char>) -> (res: Option<usize>)
    ensures
        match spec_parse_usize(s@) {
            Some(v) => res matches Some(x) && x as nat == v,
            None => res is None,
        },
{
    let start: usize = if s.len() > 0 && s[0] == '+' { 1 } else { 0 };
    let ghost digits = if s@.len() > 0 && s@[0] == '+' { s@.drop_first() } else { s@ };
    assert(digits =~= s@.skip(start as int));
    if start >= s.len() {
        return None;
    }
    let mut v: usize = 0;
    let mut i: usize = start;
    while i < s.len()
        invariant
            start <= i <= s.len(),
            start < s.len(),
            digits == s@.skip(start as int),
            digits == (if s@.len() > 0 && s@[0] == '+' { s@.drop_first() } else { s@ }),
            crate::value::all_digits(s@.subrange(start as int, i as int)),
            v == crate::value::decimal_value(s@.subrange(start as int, i as int)),
        decreases s.len() - i,
    {
        let c = s[i];
        if !('0' <= c && c <= '9') {
            assert(digits[(i - start) as int] == c);
            assert(!crate::text::spec_is_digit(digits[(i - start) as int]));
            return None;
        }
        let d = (c as u32 - '0' as u32) as usize;
        assert(d == crate::text::digit_value(c));
        assert(s@.subrange(start as int, i + 1).drop_last() =~= s@.subrange(start as int, i as int));
        assert(crate::value::all_digits(s@.subrange(start as int, i + 1))) by {
            assert forall|j: int| 0 <= j < i + 1 - start implies crate::text::spec_is_digit(
                #[trigger] s@.subrange(start as int, i + 1)[j],
            ) by {
                if j < i - start {
                    assert(s@.subrange(start as int, i + 1)[j] == s@.subrange(start as int, i as int)[j]);
                }
            }
        }
        let next = match v.checked_mul(10) {
            Some(x) => x.checked_add(d),
            None => None,
        };
        match next {
            Some(x) => {
                v = x;
            },
            None => {
                // too large: more digits only make it larger
                proof {
                    let t = s@.subrange(start as int, i + 1);
                    assert(t.last() == c);
                    assert(t.drop_last() =~= s@.subrange(start as int, i as int));
                    assert(crate::value::decimal_value(t) == crate::value::decimal_value(t.drop_last()) * 10 + d);
                    assert(crate::value::decimal_value(t) > usize::MAX);
                    if crate::value::all_digits(digits) {
                        crate::value::lemma_decimal_prefix(digits, i + 1 - start);
                        assert(digits.take(i + 1 - start) =~= t);
                    }
                }
                return None;
            },
        }
        i += 1;
    }
    assert(s@.subrange(start as int, s.len() as int) =~= digits);
    Some(v)
}

/// What `usize::from_str` reports for a text that is not a `usize`: the text
/// is empty; it has a character other than a digit (after an optional `+`);
/// or the number is too large.
pub open spec fn usize_error(s: Seq<char>) -> Seq<char> {
    let digits = if s.len() > 0 && s[0] == '+' {
        s.drop_first()
    } else {
        s
    };
    if s.len() == 0 {
        "cannot parse integer from empty string"@
    } else if digits.len() > 0 && all_digits(digits) {
        "number too large to fit in target type"@
    } else {
        "invalid digit found in string"@
    }
}

/// Read a count, as `usize::from_str` does, with its error message.
pub fn parse_count(s: &str) -> (res: Result<usize, String>)
    ensures
        match spec_parse_usize(s@) {
            Some(v) => res matches Ok(x) && x as nat == v,
            None => res matches Err(e) && e@ == usize_error(s@),
        },
{
    let t = crate::text::chars_of(s);
    match parse_usize(&t) {
        Some(v) => Ok(v),
        None => {
            if t.len() == 0 {
                return Err(crate::text::to_owned_string("cannot parse integer from empty string"));
            }
            let start: usize = if t[0] == '+' { 1 } else { 0 };
            let ghost digits = if s@.len() > 0 && s@[0] == '+' { s@.drop_first() } else { s@ };
            assert(digits =~= t@.subrange(start as int, t.len() as int));
            let mut i: usize = start;
            while i < t.len()
                invariant
                    start <= i <= t.len(),
                    t@ == s@,
                    t.len() > 0,
                    start == (if t@[0] == '+' { 1int } else { 0int }),
                    digits == (if s@.len() > 0 && s@[0] == '+' { s@.drop_first() } else { s@ }),
                    digits =~= t@.subrange(start as int, t.len() as int),
                    forall|j: int| start <= j < i ==> spec_is_digit(#[trigger] t@[j]),
                decreases t.len() - i,
            {
                if !('0' <= t[i] && t[i] <= '9') {
                    assert(digits[i - start] == t@[i as int]);
                    assert(!spec_is_digit(digits[i - start]));
                    assert(!all_digits(digits));
                    return Err(crate::text::to_owned_string("invalid digit found in string"));
                }
                i += 1;
            }
            if start < t.len() {
                assert forall|j: int| 0 <= j < digits.len() implies spec_is_digit(#[trigger] digits[j]) by {
                    assert(digits[j] == t@[j + start]);
                }
                Err(crate::text::to_owned_string("number too large to fit in target type"))
            } else {
                Err(crate::text::to_owned_string("invalid digit found in string"))
            }
        },
    }
}

} // verus!




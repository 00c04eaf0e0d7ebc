//! Small helpers of the commands: sizes for people, answers to questions,
//! and the interrupt flag.
use vstd::prelude::*;
use crate::text::{digit_char, nat_to_decimal, spec_trim, trim, u64_to_chars, chars_of, string_of};

verus! {

/// `1024` to the power `k`.
pub open spec fn pow1024(k: nat) -> nat
    decreases k,
{
    if k == 0 {
        1
    } else {
        1024 * pow1024((k - 1) as nat)
    }
}

/// The unit for a size: the largest `k <= 8` (starting at `k`) with
/// `1024^k <= size`, dividing as long as the size is at least 1024 units.
pub open spec fn unit_index(size: nat, k: nat) -> nat
    decreases 8 - k,
{
    if k >= 8 || size < pow1024(k + 1) {
        k
    } else {
        unit_index(size, k + 1)
    }
}

/// `size / 1024^k` in tenths, rounded to the nearest (a tie to the even one).
pub open spec fn round_tenths(size: nat, k: nat) -> nat {
    let t = size * 10;
    let d = pow1024(k);
    let q = t / d;
    let r = t % d;
    if 2 * r > d || (2 * r == d && q % 2 == 1) {
        q + 1
    } else {
        q
    }
}

/// The letter of unit `k`: bytes, then kilo- to yottabytes.
pub open spec fn unit_char(k: nat) -> char {
    seq!['B', 'K', 'M', 'G', 'T', 'P', 'E', 'Z', 'Y'][k as int]
}

/// A size for people: the number of blocks; or, human readable, the size in the
/// largest unit (powers of 1024) below it, with one decimal, and the unit.
pub open spec fn spec_format_size(size: nat, block_size: nat, human_readable: bool) -> Seq<char> {
    if !human_readable {
        nat_to_decimal(size / block_size)
    } else {
        let k = unit_index(size, 0);
        let q = round_tenths(size, k);
        nat_to_decimal(q / 10) + seq!['.', digit_char((q % 10) as int), ' ', unit_char(k)]
    }
}

/// `1024^k` grows with `k`, and is `2^80` at 8.
proof fn lemma_pow1024(k: nat)
    requires
        k <= 8,
    ensures
        pow1024(k) >= 1,
        pow1024(k) <= pow1024(8),
        pow1024(8) == 0x1_0000_0000_0000_0000_0000,
    decreases k,
{
    reveal_with_fuel(pow1024, 9);
    if k > 0 {
        lemma_pow1024((k - 1) as nat);
    }
}

/// Format a size (see [`spec_format_size`]).
pub fn format_size(size: u64, block_size: u64, human_readable: bool) -> (res: String)
    requires
        !human_readable ==> block_size > 0,
    ensures
        res@ == spec_format_size(size as nat, block_size as nat, human_readable),
{
    if !human_readable {
        return string_of(&u64_to_chars(size / block_size));
    }
    let mut k: usize = 0;
    let mut d: u128 = 1;
    proof { lemma_pow1024(0); }
    while k < 8 && (size as u128) >= d * 1024
        invariant
            k <= 8,
            d == pow1024(k as nat),
            1 <= d <= 0x1_0000_0000_0000_0000_0000,
            unit_index(size as nat, 0) == unit_index(size as nat, k as nat),
            pow1024(8) == 0x1_0000_0000_0000_0000_0000,
        decreases 8 - k,
    {
        proof { lemma_pow1024((k + 1) as nat); }
        d = d * 1024;
        k = k + 1;
    }
    proof { lemma_pow1024(k as nat); }
    let t: u128 = (size as u128) * 10;
    let q0 = t / d;
    let r = t % d;
    let q = if 2 * r > d || (2 * r == d && q0 % 2 == 1) { q0 + 1 } else { q0 };
    assert(q0 <= t) by (nonlinear_arith)
        requires
            d >= 1,
            q0 == t / d,
    ;
    assert(q / 10 <= size);
    let whole = (q / 10) as u64;
    let tenth = (q % 10) as u64;
    let units = chars_of("BKMGTPEZY");
    proof { reveal_strlit("BKMGTPEZY"); }
    let u = units[k];
    let mut res = u64_to_chars(whole);
    res.push('.');
    res.push(crate::text::digit_to_char(tenth));
    res.push(' ');
    res.push(u);
    assert(res@ == spec_format_size(size as nat, block_size as nat, human_readable));
    string_of(&res)
}

/// An answer to a question.
#[derive(PartialEq, Eq, Structural, Clone, Copy, Debug)]
pub enum Answer {
    No,
    Yes,
    All,
    Quit,
}

/// The ASCII lower case of a character.
pub open spec fn ascii_lower(c: char) -> char {
    if 'A' <= c && c <= 'Z' {
        ((c as u32) + 32) as char
    } else {
        c
    }
}

/// The answer that an input gives: by the first character after white space,
/// in either case: `y` yes; `a` all and `q` quit when one of many; anything
/// else no.
pub open spec fn spec_answer(input: Seq<char>, many: bool) -> Answer {
    let t = spec_trim(input);
    if t.len() == 0 {
        Answer::No
    } else {
        let c = ascii_lower(t[0]);
        if c == 'y' {
            Answer::Yes
        } else if c == 'a' && many {
            Answer::All
        } else if c == 'q' && many {
            Answer::Quit
        } else {
            Answer::No
        }
    }
}

/// The answer that an input gives (see [`spec_answer`]).
pub fn process_answer(input: &str, many: bool) -> (res: Answer)
    ensures
        res == spec_answer(input@, many),
{
    let t = trim(&chars_of(input));
    if t.len() == 0 {
        return Answer::No;
    }
    let c0 = t[0];
    let c = if 'A' <= c0 && c0 <= 'Z' {
        let n: u32 = c0 as u32;
        let l: u8 = (n + 32) as u8;
        l as char
    } else {
        c0
    };
    if c == 'y' {
        Answer::Yes
    } else if c == 'a' && many {
        Answer::All
    } else if c == 'q' && many {
        Answer::Quit
    } else {
        Answer::No
    }
}

/// Whether the user asked to interrupt (Ctrl+C).
pub struct InterruptEvent {
    flag: bool,
}

impl InterruptEvent {
    /// Is the flag set?
    pub closed spec fn view(&self) -> bool {
        self.flag
    }

    /// A flag that is not set.
    pub fn new() -> (res: Self)
        ensures
            !res@,
    {
        InterruptEvent { flag: false }
    }

    /// Clear the flag.
    pub fn clear(&mut self)
        ensures
            !final(self)@,
    {
        self.flag = false;
    }

    /// Is the flag set?
    pub fn is_set(&self) -> (res: bool)
        ensures
            res == self@,
    {
        self.flag
    }

    /// Set the flag.
    pub fn set(&mut self)
        ensures
            final(self)@,
    {
        self.flag = true;
    }
}

/// The unit of a size is the largest power of 1024 not above it (up to the
/// last unit): `1024^k <= size`, and `size < 1024^(k+1)` below the last unit.
pub proof fn law_unit_range(size: nat)
    ensures
        unit_index(size, 0) <= 8,
        unit_index(size, 0) > 0 ==> pow1024(unit_index(size, 0)) <= size,
        unit_index(size, 0) < 8 ==> size < pow1024(unit_index(size, 0) + 1),
{
    lemma_unit_index_from(size, 0);
}

/// [`law_unit_range`], from unit `k` on, for a size of at least `1024^k`.
proof fn lemma_unit_index_from(size: nat, k: nat)
    requires
        k <= 8,
        k > 0 ==> pow1024(k) <= size,
    ensures
        k <= unit_index(size, k) <= 8,
        unit_index(size, k) > 0 ==> pow1024(unit_index(size, k)) <= size,
        unit_index(size, k) < 8 ==> size < pow1024(unit_index(size, k) + 1),
    decreases 8 - k,
{
    if k < 8 && size >= pow1024(k + 1) {
        lemma_unit_index_from(size, k + 1);
    }
}

} // verus!

//! File mode strings of `chmod`: octal (`755`) or symbolic (`u+rwx`, `go-w`, `a=r`).
use vstd::prelude::*;
use crate::flags::{find_long, lemma_insertion_absent, CommandFlags, FlagSpec};
use crate::text::{chars_of, concat, digit_char, digit_to_char, push_char, string_of, to_owned_string, vec_extend};

verus! {

/// Is every character an octal digit?
pub open spec fn all_octal(s: Seq<char>) -> bool {
    forall|i: int| 0 <= i < s.len() ==> '0' <= #[trigger] s[i] && s[i] <= '7'
}

/// The number that a string of octal digits denotes.
pub open spec fn octal_value(s: Seq<char>) -> int
    decreases s.len(),
{
    if s.len() == 0 {
        0
    } else {
        octal_value(s.drop_last()) * 8 + ((s.last() as u32) - ('0' as u32))
    }
}

/// The bits that a `who` letter selects (`u`, `g`, `o`, `a`).
pub open spec fn who_bits(c: char) -> u32 {
    if c == 'u' {
        0o700
    } else if c == 'g' {
        0o070
    } else if c == 'o' {
        0o007
    } else {
        0o777
    }
}

/// The bits that a permission letter adds (`r`, `w`, `x`, `X`, `s`, `t`).
pub open spec fn perm_bits(c: char) -> u32 {
    if c == 'r' {
        0o444
    } else if c == 'w' {
        0o222
    } else if c == 'x' || c == 'X' {
        0o111
    } else if c == 's' {
        0o6000
    } else {
        0o1000
    }
}

/// The mode after applying `action` (`+`, `-` or `=`) with `perm` to the `who` bits;
/// no `who` means every class.
pub open spec fn spec_apply_change(mode: u32, who: u32, action: char, perm: u32) -> Result<u32, Seq<char>> {
    if who == 0 {
        if action == '+' {
            Ok(mode | (perm & 0o7777))
        } else if action == '-' {
            Ok(mode & !(perm & 0o7777))
        } else if action == '=' {
            Ok(perm & 0o7777)
        } else {
            Err("Invalid action: "@.push(action))
        }
    } else {
        if action == '+' {
            Ok(mode | (who & perm))
        } else if action == '-' {
            Ok(mode & !(who & perm))
        } else if action == '=' {
            Ok((mode & !who) | (who & perm))
        } else {
            Err("Invalid action: "@.push(action))
        }
    }
}

/// The symbolic mode `s[i..]`, with the state reached so far: the mode, the
/// `who` bits, the pending action (`' '` if none) and its permission bits.
pub open spec fn symbolic_from(
    s: Seq<char>,
    i: int,
    mode: u32,
    who: u32,
    action: char,
    perm: u32,
) -> Result<u32, Seq<char>>
    decreases s.len() - i,
{
    if i < 0 || i >= s.len() {
        if action != ' ' {
            spec_apply_change(mode, who, action, perm)
        } else {
            Ok(mode)
        }
    } else {
        let c = s[i];
        if c == 'u' || c == 'g' || c == 'o' || c == 'a' {
            symbolic_from(s, i + 1, mode, who | who_bits(c), action, perm)
        } else if c == '+' || c == '-' || c == '=' {
            if action != ' ' {
                match spec_apply_change(mode, who, action, perm) {
                    Ok(m) => symbolic_from(s, i + 1, m, who, c, 0),
                    Err(e) => Err(e),
                }
            } else {
                symbolic_from(s, i + 1, mode, who, c, perm)
            }
        } else if c == 'r' || c == 'w' || c == 'x' || c == 'X' || c == 's' || c == 't' {
            symbolic_from(s, i + 1, mode, who, action, perm | perm_bits(c))
        } else {
            Err("Invalid mode character: "@.push(c))
        }
    }
}

/// The mode that a mode string gives a file whose mode is `current`: an octal
/// mode replaces it; a symbolic one adds (`+`), removes (`-`) or sets (`=`) the
/// bits it names. `Err` holds the message.
pub open spec fn spec_mode_of(current: u32, s: Seq<char>) -> Result<u32, Seq<char>> {
    if all_octal(s) {
        if s.len() == 0 || octal_value(s) > u32::MAX {
            Err("Invalid octal mode: "@ + s)
        } else {
            Ok(octal_value(s) as u32)
        }
    } else {
        symbolic_from(s, 0, current, 0, ' ', 0)
    }
}

/// The mode that a mode string denotes on its own (from no permission bits).
pub open spec fn spec_parse_mode(s: Seq<char>) -> Result<u32, Seq<char>> {
    spec_mode_of(0, s)
}

/// The `chmod` command: its flags.
pub struct Chmod {
    pub flags: CommandFlags,
}

impl Chmod {
    /// The command, with its flags: help, recursive, verbose.
    pub fn new() -> (res: Self)
        ensures
            res.flags.wf(),
            res.flags.spec_flags().len() == 3,
            res.flags.spec_flags().contains(FlagSpec { short: Some('?'), long: "help"@, help: "Display this help message"@, takes_value: false, default_value: None }),
            res.flags.spec_flags().contains(FlagSpec { short: Some('r'), long: "recursive"@, help: "Change permissions recursively"@, takes_value: false, default_value: None }),
            res.flags.spec_flags().contains(FlagSpec { short: Some('v'), long: "verbose"@, help: "Report diagnostic for every file processed"@, takes_value: false, default_value: None }),
    {
        let mut flags = CommandFlags::with_help();
        proof { assert(flags.spec_flags()[0] == FlagSpec { short: Some('?'), long: "help"@, help: "Display this help message"@, takes_value: false, default_value: None }); }
        proof {
            reveal_strlit("help");
            reveal_strlit("recursive");
            reveal_strlit("verbose");
        }
        let ghost f0 = flags.spec_flags();
        assert("help"@.len() == 4);
        assert("recursive"@.len() == 9);
        assert("verbose"@.len() == 7);
        assert(find_long(f0, "recursive"@) is None);
        assert(find_long(f0, "verbose"@) is None);
        let ghost pre_flags_0 = flags.spec_flags();
        flags.add_flag('r', "recursive", "Change permissions recursively");
        proof { crate::flags::lemma_insertion_keeps(pre_flags_0, flags.spec_flags(), FlagSpec { short: Some('r'), long: "recursive"@, help: "Change permissions recursively"@, takes_value: false, default_value: None }); }
        proof {
            let f = FlagSpec {
                short: Some('r'),
                long: "recursive"@,
                help: "Change permissions recursively"@,
                takes_value: false,
                default_value: None,
            };
            lemma_insertion_absent(f0, flags.spec_flags(), f, "verbose"@, 'v');
        }
        let ghost pre_flags_1 = flags.spec_flags();
        flags.add_flag('v', "verbose", "Report diagnostic for every file processed");
        proof { crate::flags::lemma_insertion_keeps(pre_flags_1, flags.spec_flags(), FlagSpec { short: Some('v'), long: "verbose"@, help: "Report diagnostic for every file processed"@, takes_value: false, default_value: None }); }
        Self { flags }
    }

    /// Apply `action` with `perm` to the `who` bits of `mode`.
    pub fn apply_change(mode: &mut u32, who: u32, action: char, perm: u32) -> (res: Result<(), String>)
        ensures
            match spec_apply_change(*old(mode), who, action, perm) {
                Ok(m) => res is Ok && *final(mode) == m,
                Err(e) => res matches Err(msg) && msg@ == e && *final(mode) == *old(mode),
            },
    {
        if action != '+' && action != '-' && action != '=' {
            let mut m = to_owned_string("Invalid action: ");
            push_char(&mut m, action);
            return Err(m);
        }
        if who == 0 {
            *mode = if action == '+' {
                *mode | (perm & 0o7777)
            } else if action == '-' {
                *mode & !(perm & 0o7777)
            } else {
                perm & 0o7777
            };
        } else {
            *mode = if action == '+' {
                *mode | (who & perm)
            } else if action == '-' {
                *mode & !(who & perm)
            } else {
                (*mode & !who) | (who & perm)
            };
        }
        Ok(())
    }

    /// Parse a mode string: octal digits, or symbolic (`[ugoa]*[+-=][rwxXst]*...`).
    pub fn parse_mode(mode_str: &str) -> (res: Result<u32, String>)
        ensures
            match spec_parse_mode(mode_str@) {
                Ok(m) => res == Ok::<u32, String>(m),
                Err(e) => res matches Err(msg) && msg@ == e,
            },
    {
        Self::apply_mode(0, mode_str)
    }

    /// The mode that a mode string gives a file whose mode is `current` (see
    /// [`spec_mode_of`]).
    pub fn apply_mode(current: u32, mode_str: &str) -> (res: Result<u32, String>)
        ensures
            match spec_mode_of(current, mode_str@) {
                Ok(m) => res == Ok::<u32, String>(m),
                Err(e) => res matches Err(msg) && msg@ == e,
            },
    {
        let s = chars_of(mode_str);
        let mut all = true;
        let mut i: usize = 0;
        while i < s.len()
            invariant
                i <= s.len(),
                all == (forall|j: int| 0 <= j < i ==> '0' <= #[trigger] s@[j] && s@[j] <= '7'),
            decreases s.len() - i,
        {
            if !('0' <= s[i] && s[i] <= '7') {
                all = false;
            }
            i += 1;
        }
        if all {
            if s.len() == 0 {
                return Err(concat("Invalid octal mode: ", mode_str));
            }
            let mut v: u32 = 0;
            let mut k: usize = 0;
            while k < s.len()
                invariant
                    k <= s.len(),
                    all_octal(s@),
                    s@ == mode_str@,
                    v as int == octal_value(s@.take(k as int)),
                decreases s.len() - k,
            {
                assert(s@.take(k + 1).drop_last() == s@.take(k as int));
                let d = (s[k] as u32) - ('0' as u32);
                assert(octal_value(s@.take(k + 1)) == v * 8 + d);
                match v.checked_mul(8) {
                    Some(v8) => match v8.checked_add(d) {
                        Some(nv) => {
                            v = nv;
                        },
                        None => {
                            proof {
                                lemma_octal_prefix_grows(s@, k as int + 1);
                            }
                            return Err(concat("Invalid octal mode: ", mode_str));
                        },
                    },
                    None => {
                        proof {
                            assert(v as int * 8 > u32::MAX);
                            assert(octal_value(s@.take(k + 1)) > u32::MAX);
                            lemma_octal_prefix_grows(s@, k as int + 1);
                            assert(octal_value(s@) > u32::MAX);
                        }
                        return Err(concat("Invalid octal mode: ", mode_str));
                    },
                }
                k += 1;
            }
            assert(s@.take(s.len() as int) == s@);
            return Ok(v);
        }
        let mut result: u32 = current;
        let mut who: u32 = 0;
        let mut action = ' ';
        let mut perm: u32 = 0;
        let mut i: usize = 0;
        while i < s.len()
            invariant
                i <= s.len(),
                !all_octal(s@),
                symbolic_from(s@, i as int, result, who, action, perm) == spec_mode_of(current, mode_str@),
                s@ == mode_str@,
            decreases s.len() - i,
        {
            let c = s[i];
            if c == 'u' || c == 'g' || c == 'o' || c == 'a' {
                who = who | (if c == 'u' {
                    0o700
                } else if c == 'g' {
                    0o070
                } else if c == 'o' {
                    0o007
                } else {
                    0o777
                });
            } else if c == '+' || c == '-' || c == '=' {
                if action != ' ' {
                    match Self::apply_change(&mut result, who, action, perm) {
                        Ok(()) => {},
                        Err(e) => {
                            return Err(e);
                        },
                    }
                    perm = 0;
                }
                action = c;
            } else if c == 'r' {
                perm = perm | 0o444;
            } else if c == 'w' {
                perm = perm | 0o222;
            } else if c == 'x' || c == 'X' {
                perm = perm | 0o111;
            } else if c == 's' {
                perm = perm | 0o6000;
            } else if c == 't' {
                perm = perm | 0o1000;
            } else {
                let mut m = to_owned_string("Invalid mode character: ");
                push_char(&mut m, c);
                return Err(m);
            }
            i += 1;
        }
        if action != ' ' {
            match Self::apply_change(&mut result, who, action, perm) {
                Ok(()) => {},
                Err(e) => {
                    return Err(e);
                },
            }
        }
        Ok(result)
    }
}

/// The value of octal digits is not negative.
proof fn lemma_octal_nonneg(s: Seq<char>)
    requires
        all_octal(s),
    ensures
        octal_value(s) >= 0,
    decreases s.len(),
{
    if s.len() > 0 {
        assert(all_octal(s.drop_last()));
        lemma_octal_nonneg(s.drop_last());
        assert('0' <= s[s.len() - 1]);
    }
}

/// A prefix of octal digits is at most the value of a longer prefix.
proof fn lemma_octal_prefix_grows(s: Seq<char>, k: int)
    requires
        all_octal(s),
        0 <= k <= s.len(),
    ensures
        octal_value(s.take(k)) <= octal_value(s),
    decreases s.len() - k,
{
    if k < s.len() {
        lemma_octal_prefix_grows(s, k + 1);
        assert(s.take(k + 1).drop_last() == s.take(k));
        assert(all_octal(s.take(k)));
        lemma_octal_nonneg(s.take(k));
        assert('0' <= s[k]);
    } else {
        assert(s.take(k) == s);
    }
}

/// Octal representation of a natural number (no leading zeros), as `{:o}`.
pub open spec fn nat_to_octal(n: nat) -> Seq<char>
    decreases n,
{
    if n < 8 {
        seq![digit_char(n as int)]
    } else {
        nat_to_octal(n / 8).push(digit_char((n % 8) as int))
    }
}

/// The octal digits of `n`.
fn octal_chars(n: u32) -> (res: Vec<char>)
    ensures
        res@ == nat_to_octal(n as nat),
    decreases n,
{
    if n < 8 {
        let mut v = Vec::new();
        v.push(digit_to_char(n as u64));
        v
    } else {
        let mut v = octal_chars(n / 8);
        v.push(digit_to_char((n % 8) as u64));
        v
    }
}

/// The line that `chmod --verbose` prints before changing `path` to `mode`.
pub fn verbose_line(path: &str, mode: u32) -> (res: String)
    ensures
        res@ == "changing permissions of '"@ + path@ + "' to "@ + nat_to_octal(mode as nat),
{
    let mut t = chars_of("changing permissions of '");
    let p = chars_of(path);
    vec_extend(&mut t, &p);
    let q = chars_of("' to ");
    vec_extend(&mut t, &q);
    let o = octal_chars(mode);
    vec_extend(&mut t, &o);
    string_of(&t)
}

/// The file attributes (Windows) that stand for `mode`, from the current ones:
/// read-only, hidden and system are cleared; read-only is set if no one may
/// write; and the normal attribute alone becomes no attribute.
pub fn windows_attributes(attributes: u32, mode: u32) -> (res: u32)
    ensures
        res == ({
            let cleared = attributes & !7u32;
            let set = if mode & 0o222u32 == 0 { cleared | 1u32 } else { cleared };
            if set == 0x80u32 { 0u32 } else { set }
        }),
{
    let mut a = attributes & !7u32;
    if mode & 0o222u32 == 0 {
        a = a | 1u32;
    }
    if a == 0x80u32 {
        a = 0;
    }
    a
}

/// A symbolic mode that only adds: no `-` and no `=` in it.
pub open spec fn adds_only(s: Seq<char>) -> bool {
    forall|i: int| 0 <= i < s.len() ==> #[trigger] s[i] != '-' && s[i] != '='
}

/// Is every character of `s` from `i` on a permission letter?
pub open spec fn perm_letters_from(s: Seq<char>, i: int) -> bool {
    forall|k: int|
        i <= k < s.len() ==> (#[trigger] s[k] == 'r' || s[k] == 'w' || s[k] == 'x' || s[k] == 'X' || s[k] == 's'
            || s[k] == 't')
}

/// The permission bits that the letters of `s` from `i` on name, together.
pub open spec fn letters_bits(s: Seq<char>, i: int) -> u32
    decreases s.len() - i,
{
    if i < 0 || i >= s.len() {
        0
    } else {
        perm_bits(s[i]) | letters_bits(s, i + 1)
    }
}

proof fn lemma_or_assoc(p: u32, b: u32, l: u32)
    ensures
        ((p | b) | l) == (p | (b | l)),
{
    assert(((p | b) | l) == (p | (b | l))) by (bit_vector);
}

proof fn lemma_or_zero(l: u32)
    ensures
        (0u32 | l) == l,
{
    assert((0u32 | l) == l) by (bit_vector);
}

proof fn lemma_or_keeps(mode: u32, x: u32)
    ensures
        (mode | x) & mode == mode,
        mode & mode == mode,
{
    assert((mode | x) & mode == mode) by (bit_vector);
    assert(mode & mode == mode) by (bit_vector);
}

proof fn lemma_adding_keeps(s: Seq<char>, i: int, mode: u32, who: u32, action: char, perm: u32)
    requires
        0 <= i,
        adds_only(s),
        action == ' ' || action == '+',
    ensures
        symbolic_from(s, i, mode, who, action, perm) matches Ok(m) ==> m & mode == mode,
    decreases s.len() - i,
{
    let sel = if who == 0 { perm & 0o7777 } else { who & perm };
    lemma_or_keeps(mode, sel);
    if i < s.len() {
        let c = s[i];
        if c == 'u' || c == 'g' || c == 'o' || c == 'a' {
            lemma_adding_keeps(s, i + 1, mode, who | who_bits(c), action, perm);
        } else if c == '+' || c == '-' || c == '=' {
            assert(c == '+');
            if action != ' ' {
                let m1 = mode | sel;
                lemma_adding_keeps(s, i + 1, m1, who, c, 0);
                if let Ok(m) = symbolic_from(s, i, mode, who, action, perm) {
                    assert(m & m1 == m1);
                    assert(m & mode == mode) by (bit_vector)
                        requires
                            m & m1 == m1,
                            m1 & mode == mode,
                    ;
                }
            } else {
                lemma_adding_keeps(s, i + 1, mode, who, c, perm);
            }
        } else if c == 'r' || c == 'w' || c == 'x' || c == 'X' || c == 's' || c == 't' {
            lemma_adding_keeps(s, i + 1, mode, who, action, perm | perm_bits(c));
        }
    }
}

/// A symbolic mode that only adds (`+`) never takes a bit away: every bit set
/// in the current mode is still set in the result.
pub proof fn law_adding_keeps_bits(current: u32, s: Seq<char>)
    requires
        !all_octal(s),
        adds_only(s),
    ensures
        spec_mode_of(current, s) matches Ok(m) ==> m & current == current,
{
    lemma_adding_keeps(s, 0, current, 0, ' ', 0);
}

proof fn lemma_action_letters(s: Seq<char>, i: int, mode: u32, action: char, p: u32)
    requires
        1 <= i <= s.len(),
        perm_letters_from(s, i),
        action == '+' || action == '-' || action == '=',
    ensures
        symbolic_from(s, i, mode, 0, action, p) == spec_apply_change(mode, 0, action, p | letters_bits(s, i)),
    decreases s.len() - i,
{
    if i < s.len() {
        let b = perm_bits(s[i]);
        let l = letters_bits(s, i + 1);
        lemma_action_letters(s, i + 1, mode, action, p | b);
        lemma_or_assoc(p, b, l);
    } else {
        lemma_or_zero_right(p);
    }
}

proof fn lemma_or_zero_right(p: u32)
    ensures
        (p | 0u32) == p,
{
    assert((p | 0u32) == p) by (bit_vector);
}

proof fn lemma_plus_letters(s: Seq<char>, i: int, mode: u32, p: u32)
    requires
        1 <= i <= s.len(),
        perm_letters_from(s, i),
    ensures
        symbolic_from(s, i, mode, 0, '+', p) == Ok::<u32, Seq<char>>(mode | ((p | letters_bits(s, i)) & 0o7777)),
{
    lemma_action_letters(s, i, mode, '+', p);
}

/// `+` followed by permission letters, with no class letter, adds the bits
/// that the letters name for every class and keeps all others: the result is
/// the current mode with those bits set.
pub proof fn law_plus_without_class(current: u32, s: Seq<char>)
    requires
        s.len() >= 1,
        s[0] == '+',
        perm_letters_from(s, 1),
    ensures
        spec_mode_of(current, s) == Ok::<u32, Seq<char>>(current | (letters_bits(s, 1) & 0o7777)),
{
    assert(!all_octal(s)) by {
        assert(!('0' <= s[0] && s[0] <= '7'));
    }
    lemma_plus_letters(s, 1, current, 0);
    lemma_or_zero(letters_bits(s, 1));
}

/// A symbolic mode that only removes: no `+` and no `=` in it.
pub open spec fn removes_only(s: Seq<char>) -> bool {
    forall|i: int| 0 <= i < s.len() ==> #[trigger] s[i] != '+' && s[i] != '='
}

proof fn lemma_and_not_within(mode: u32, x: u32)
    ensures
        (mode & !x) & !mode == 0,
        mode & !mode == 0,
{
    assert((mode & !x) & !mode == 0) by (bit_vector);
    assert(mode & !mode == 0) by (bit_vector);
}

proof fn lemma_removing_within(s: Seq<char>, i: int, mode: u32, who: u32, action: char, perm: u32)
    requires
        0 <= i,
        removes_only(s),
        action == ' ' || action == '-',
    ensures
        symbolic_from(s, i, mode, who, action, perm) matches Ok(m) ==> m & !mode == 0,
    decreases s.len() - i,
{
    let sel = if who == 0 { perm & 0o7777 } else { who & perm };
    lemma_and_not_within(mode, sel);
    if i < s.len() {
        let c = s[i];
        if c == 'u' || c == 'g' || c == 'o' || c == 'a' {
            lemma_removing_within(s, i + 1, mode, who | who_bits(c), action, perm);
        } else if c == '+' || c == '-' || c == '=' {
            assert(c == '-');
            if action != ' ' {
                let m1 = mode & !sel;
                lemma_removing_within(s, i + 1, m1, who, c, 0);
                if let Ok(m) = symbolic_from(s, i, mode, who, action, perm) {
                    assert(m & !m1 == 0);
                    assert(m & !mode == 0) by (bit_vector)
                        requires
                            m & !m1 == 0,
                            m1 & !mode == 0,
                    ;
                }
            } else {
                lemma_removing_within(s, i + 1, mode, who, c, perm);
            }
        } else if c == 'r' || c == 'w' || c == 'x' || c == 'X' || c == 's' || c == 't' {
            lemma_removing_within(s, i + 1, mode, who, action, perm | perm_bits(c));
        }
    }
}

/// A symbolic mode that only removes (`-`) never sets a bit: every bit set in
/// the result was set in the current mode.
pub proof fn law_removing_sets_nothing(current: u32, s: Seq<char>)
    requires
        !all_octal(s),
        removes_only(s),
    ensures
        spec_mode_of(current, s) matches Ok(m) ==> m & !current == 0,
{
    lemma_removing_within(s, 0, current, 0, ' ', 0);
}

/// `-` followed by permission letters, with no class letter, clears the bits
/// that the letters name for every class and keeps all others.
pub proof fn law_minus_without_class(current: u32, s: Seq<char>)
    requires
        s.len() >= 1,
        s[0] == '-',
        perm_letters_from(s, 1),
    ensures
        spec_mode_of(current, s) == Ok::<u32, Seq<char>>(current & !(letters_bits(s, 1) & 0o7777)),
{
    assert(!all_octal(s)) by {
        assert(!('0' <= s[0] && s[0] <= '7'));
    }
    lemma_action_letters(s, 1, current, '-', 0);
    lemma_or_zero(letters_bits(s, 1));
}

/// `=` followed by permission letters, with no class letter, gives exactly the
/// bits that the letters name, whatever the current mode.
pub proof fn law_set_without_class(current: u32, s: Seq<char>)
    requires
        s.len() >= 1,
        s[0] == '=',
        perm_letters_from(s, 1),
    ensures
        spec_mode_of(current, s) == Ok::<u32, Seq<char>>(letters_bits(s, 1) & 0o7777),
{
    assert(!all_octal(s)) by {
        assert(!('0' <= s[0] && s[0] <= '7'));
    }
    lemma_action_letters(s, 1, current, '=', 0);
    lemma_or_zero(letters_bits(s, 1));
}

/// An octal mode replaces the current one: it gives the same result whatever
/// mode the file had.
pub proof fn law_octal_ignores_current(a: u32, b: u32, s: Seq<char>)
    requires
        all_octal(s),
    ensures
        spec_mode_of(a, s) == spec_mode_of(b, s),
{
}

} // verus!

//! The arithmetic, comparison and string operators on values.
//!
//! Integer arithmetic wraps around at the bounds of `i64`. A string operand
//! joins by text; a command status takes part in no operation.
use vstd::prelude::*;
use crate::expand::{value_chars, value_text};
use crate::lexer::Op;
use crate::text::{
    concat3, i64_to_chars, int_to_decimal, seq_lt, string_of, to_owned_string, vec_extend, vec_lt, vec_eq,
    chars_of,
};
use crate::value::{SValue, Value};

verus! {

/// Does executable result `res` agree with the result `spec` of an operation?
pub open spec fn agrees(res: Result<Value, String>, spec: Result<SValue, Seq<char>>) -> bool {
    match spec {
        Ok(v) => res matches Ok(x) && x@ == v,
        Err(m) => res matches Err(e) && e@ == m,
    }
}

/// `i + j`, wrapping around at the bounds of `i64`.
pub open spec fn wrap_add(i: int, j: int) -> int {
    vstd::wrapping::i64_specs::wrapping_add(i as i64, j as i64) as int
}

/// `i - j`, wrapping around at the bounds of `i64`.
pub open spec fn wrap_sub(i: int, j: int) -> int {
    vstd::wrapping::i64_specs::wrapping_sub(i as i64, j as i64) as int
}

/// `i * j`, wrapping around at the bounds of `i64`.
pub open spec fn wrap_mul(i: int, j: int) -> int {
    vstd::wrapping::i64_specs::wrapping_mul(i as i64, j as i64) as int
}

/// Addition: of numbers; a number before a string is written out and joined; a
/// string joins the text of anything after it.
pub open spec fn spec_plus(l: SValue, r: SValue) -> Result<SValue, Seq<char>> {
    match l {
        SValue::Int(i) => match r {
            SValue::Int(j) => Ok(SValue::Int(wrap_add(i, j))),
            SValue::Str(s) => Ok(SValue::Str(int_to_decimal(i) + s)),
            SValue::Stat(_) => Err("Cannot add number and command status"@),
        },
        SValue::Str(s) => Ok(SValue::Str(s + value_text(r))),
        SValue::Stat(_) => Err("Cannot add to command status"@),
    }
}

/// Subtraction: of numbers only.
pub open spec fn spec_minus(l: SValue, r: SValue) -> Result<SValue, Seq<char>> {
    match l {
        SValue::Int(i) => match r {
            SValue::Int(j) => Ok(SValue::Int(wrap_sub(i, j))),
            SValue::Str(_) => Err("Cannot subtract string from number"@),
            SValue::Stat(_) => Err("Cannot subtract command status from number"@),
        },
        SValue::Str(s) => match r {
            SValue::Int(_) => Err("Cannot subtract number from string"@),
            SValue::Str(_) => Err("Cannot subtract strings, "@ + s + " is not a recognized command"@),
            SValue::Stat(_) => Err("Cannot subtract command status from string"@),
        },
        SValue::Stat(_) => Err("Cannot subtract from command status"@),
    }
}

/// Multiplication: of numbers only.
pub open spec fn spec_mul(l: SValue, r: SValue) -> Result<SValue, Seq<char>> {
    match l {
        SValue::Int(i) => match r {
            SValue::Int(j) => Ok(SValue::Int(wrap_mul(i, j))),
            SValue::Str(_) => Err("Cannot multiply number by string"@),
            SValue::Stat(_) => Err("Cannot multiply number by command status"@),
        },
        SValue::Str(_) => match r {
            SValue::Int(_) => Err("Cannot multiply string by number"@),
            SValue::Str(_) => Err("Cannot multiply strings"@),
            SValue::Stat(_) => Err("Cannot multiply string by command status"@),
        },
        SValue::Stat(_) => Err("Cannot multiply command statuses"@),
    }
}

/// Division: of numbers, whose quotient is a real number, which this library
/// does not represent; a string on either side joins the texts with `/`.
pub open spec fn spec_div(l: SValue, r: SValue) -> Result<SValue, Seq<char>> {
    match l {
        SValue::Int(i) => match r {
            SValue::Int(j) => if j == 0 {
                Err("Division by zero"@)
            } else {
                Err("Real numbers are not supported"@)
            },
            SValue::Str(s) => Ok(SValue::Str(int_to_decimal(i) + "/"@ + s)),
            SValue::Stat(_) => Err("Cannot divide by command status"@),
        },
        SValue::Str(s) => match r {
            SValue::Stat(_) => Err("Cannot divide by command status"@),
            _ => Ok(SValue::Str(s + "/"@ + value_text(r))),
        },
        SValue::Stat(_) => Err("Cannot divide command status"@),
    }
}

/// The operators whose result is a function of the values of their two sides:
/// arithmetic and comparison.
pub open spec fn is_value_op(op: Op) -> bool {
    match op {
        Op::Plus | Op::Minus | Op::Mul | Op::Div | Op::IntDiv | Op::Mod | Op::Equals | Op::NotEquals | Op::Lt
        | Op::Lte | Op::Gt | Op::Gte => true,
        _ => false,
    }
}

/// The result of value operator `op` on `l` and `r`.
pub open spec fn apply_value_op(op: Op, l: SValue, r: SValue) -> Result<SValue, Seq<char>> {
    match op {
        Op::Plus => spec_plus(l, r),
        Op::Minus => spec_minus(l, r),
        Op::Mul => spec_mul(l, r),
        Op::Div => spec_div(l, r),
        Op::IntDiv => spec_int_div(l, r),
        Op::Mod => spec_mod(l, r),
        _ => spec_comparison(op, l, r),
    }
}

/// The absolute value of `i`.
pub open spec fn abs_int(i: int) -> int {
    if i < 0 {
        -i
    } else {
        i
    }
}

/// The quotient of `i` by `j`, rounded toward zero, wrapping around at the
/// bounds of `i64` (the one quotient out of range, `i64::MIN` by -1, is `i64::MIN`).
pub open spec fn int_quotient(i: int, j: int) -> int {
    let q = abs_int(i) / abs_int(j);
    let t = if (i < 0) != (j < 0) {
        -q
    } else {
        q
    };
    if t > i64::MAX {
        i64::MIN as int
    } else {
        t
    }
}

/// The remainder of `i` by `j`, with the sign of `i`: `i - j * q` for the
/// quotient `q` rounded toward zero.
pub open spec fn int_remainder(i: int, j: int) -> int {
    let r = abs_int(i) % abs_int(j);
    if i < 0 {
        -r
    } else {
        r
    }
}

/// Integer division `//`: of numbers only.
pub open spec fn spec_int_div(l: SValue, r: SValue) -> Result<SValue, Seq<char>> {
    match l {
        SValue::Int(i) => match r {
            SValue::Int(j) => if j == 0 {
                Err("Division by zero"@)
            } else {
                Ok(SValue::Int(int_quotient(i, j)))
            },
            SValue::Str(_) => Err("Integer division requires numbers"@),
            SValue::Stat(_) => Err("Cannot divide by command status"@),
        },
        SValue::Str(_) => match r {
            SValue::Stat(_) => Err("Cannot divide by command status"@),
            _ => Err("Integer division requires numbers"@),
        },
        SValue::Stat(_) => Err("Cannot divide command status"@),
    }
}

/// The remainder `%`: of numbers only.
pub open spec fn spec_mod(l: SValue, r: SValue) -> Result<SValue, Seq<char>> {
    match l {
        SValue::Int(i) => match r {
            SValue::Int(j) => if j == 0 {
                Err("Division by zero"@)
            } else {
                Ok(SValue::Int(int_remainder(i, j)))
            },
            SValue::Str(_) => Err("Modulo requires numbers"@),
            SValue::Stat(_) => Err("Cannot divide by command status"@),
        },
        SValue::Str(_) => match r {
            SValue::Stat(_) => Err("Cannot divide by command status"@),
            _ => Err("Modulo requires numbers"@),
        },
        SValue::Stat(_) => Err("Cannot divide command status"@),
    }
}

/// The sign of the comparison of two values: of numbers by value, of strings
/// in lexicographic order; the error for mixed operands.
pub open spec fn spec_compare(op: Op, l: SValue, r: SValue) -> Result<int, Seq<char>> {
    let status_err = if op == Op::Gt {
        "Command status does not support '>', did you mean redirect '=>' ?"@
    } else {
        "Command status can only be checked as true or false, not compared to other values"@
    };
    match l {
        SValue::Int(i) => match r {
            SValue::Int(j) => Ok(if i < j { -1 } else if i == j { 0 } else { 1 }),
            SValue::Str(_) => Err("Cannot compare number to string"@),
            SValue::Stat(_) => Err(status_err),
        },
        SValue::Str(a) => match r {
            SValue::Int(_) => Err("Cannot compare string to number"@),
            SValue::Str(b) => Ok(if seq_lt(a, b) { -1 } else if a == b { 0 } else { 1 }),
            SValue::Stat(_) => Err(status_err),
        },
        SValue::Stat(_) => Err(status_err),
    }
}

/// Does comparison `op` hold of a comparison whose sign is `sign`?
pub open spec fn holds(op: Op, sign: int) -> bool {
    match op {
        Op::Equals => sign == 0,
        Op::NotEquals => sign != 0,
        Op::Lt => sign < 0,
        Op::Lte => sign <= 0,
        Op::Gt => sign > 0,
        Op::Gte => sign >= 0,
        _ => false,
    }
}

/// A comparison: 1 if it holds, 0 if not.
pub open spec fn spec_comparison(op: Op, l: SValue, r: SValue) -> Result<SValue, Seq<char>> {
    match spec_compare(op, l, r) {
        Ok(sign) => Ok(SValue::Int(if holds(op, sign) { 1 } else { 0 })),
        Err(m) => Err(m),
    }
}

/// Unary minus: of a number, or a string, which gets a leading `-`.
pub open spec fn spec_neg(v: SValue) -> Result<SValue, Seq<char>> {
    match v {
        SValue::Int(i) => Ok(SValue::Int(wrap_sub(0, i))),
        SValue::Str(s) => Ok(SValue::Str("-"@ + s)),
        SValue::Stat(_) => Err("Unary minus not supported for command status"@),
    }
}

/// Is the value true: a number other than zero, a string that is not empty?
pub open spec fn spec_truthy(v: SValue) -> bool {
    match v {
        SValue::Int(i) => i != 0,
        SValue::Str(s) => s.len() > 0,
        SValue::Stat(_) => false,
    }
}

/// An error result.
fn fail(m: &str) -> (res: Result<Value, String>)
    ensures
        res matches Err(e) && e@ == m@,
{
    Err(to_owned_string(m))
}

/// The text of a number followed by `sep` and the text `s`.
fn join_texts(a: &Vec<char>, sep: &str, b: &Vec<char>) -> (res: String)
    ensures
        res@ == a@ + sep@ + b@,
{
    let mut t = a.clone();
    let sv = chars_of(sep);
    vec_extend(&mut t, &sv);
    vec_extend(&mut t, b);
    assert(t@ == a@ + sep@ + b@);
    string_of(&t)
}

/// Addition (see [`spec_plus`]).
pub fn value_plus(l: &Value, r: &Value) -> (res: Result<Value, String>)
    ensures
        agrees(res, spec_plus(l@, r@)),
{
    proof {
        reveal_strlit("Cannot add number and command status");
        reveal_strlit("Cannot add to command status");
        reveal_strlit("");
    }
    match l {
        Value::Int(i) => match r {
            Value::Int(j) => Ok(Value::Int(i.wrapping_add(*j))),
            Value::Str(s) => {
                let a = i64_to_chars(*i);
                let b = chars_of(s.as_str());
                Ok(Value::Str(join_texts(&a, "", &b)))
            },
            Value::Stat(_) => fail("Cannot add number and command status"),
        },
        Value::Str(s) => {
            let a = chars_of(s.as_str());
            let b = value_chars(r);
            Ok(Value::Str(join_texts(&a, "", &b)))
        },
        Value::Stat(_) => fail("Cannot add to command status"),
    }
}

/// Subtraction (see [`spec_minus`]).
pub fn value_minus(l: &Value, r: &Value) -> (res: Result<Value, String>)
    ensures
        agrees(res, spec_minus(l@, r@)),
{
    proof {
        reveal_strlit("Cannot subtract string from number");
        reveal_strlit("Cannot subtract command status from number");
        reveal_strlit("Cannot subtract number from string");
        reveal_strlit("Cannot subtract strings, ");
        reveal_strlit(" is not a recognized command");
        reveal_strlit("Cannot subtract command status from string");
        reveal_strlit("Cannot subtract from command status");
    }
    match l {
        Value::Int(i) => match r {
            Value::Int(j) => Ok(Value::Int(i.wrapping_sub(*j))),
            Value::Str(_) => fail("Cannot subtract string from number"),
            Value::Stat(_) => fail("Cannot subtract command status from number"),
        },
        Value::Str(s) => match r {
            Value::Int(_) => fail("Cannot subtract number from string"),
            Value::Str(_) => Err(concat3("Cannot subtract strings, ", s.as_str(), " is not a recognized command")),
            Value::Stat(_) => fail("Cannot subtract command status from string"),
        },
        Value::Stat(_) => fail("Cannot subtract from command status"),
    }
}

/// Multiplication (see [`spec_mul`]).
pub fn value_mul(l: &Value, r: &Value) -> (res: Result<Value, String>)
    ensures
        agrees(res, spec_mul(l@, r@)),
{
    proof {
        reveal_strlit("Cannot multiply number by string");
        reveal_strlit("Cannot multiply number by command status");
        reveal_strlit("Cannot multiply string by number");
        reveal_strlit("Cannot multiply strings");
        reveal_strlit("Cannot multiply string by command status");
        reveal_strlit("Cannot multiply command statuses");
    }
    match l {
        Value::Int(i) => match r {
            Value::Int(j) => Ok(Value::Int(i.wrapping_mul(*j))),
            Value::Str(_) => fail("Cannot multiply number by string"),
            Value::Stat(_) => fail("Cannot multiply number by command status"),
        },
        Value::Str(_) => match r {
            Value::Int(_) => fail("Cannot multiply string by number"),
            Value::Str(_) => fail("Cannot multiply strings"),
            Value::Stat(_) => fail("Cannot multiply string by command status"),
        },
        Value::Stat(_) => fail("Cannot multiply command statuses"),
    }
}

/// Division (see [`spec_div`]).
pub fn value_div(l: &Value, r: &Value) -> (res: Result<Value, String>)
    ensures
        agrees(res, spec_div(l@, r@)),
{
    proof {
        reveal_strlit("Division by zero");
        reveal_strlit("Real numbers are not supported");
        reveal_strlit("Cannot divide by command status");
        reveal_strlit("Cannot divide command status");
        reveal_strlit("/");
    }
    match l {
        Value::Int(i) => match r {
            Value::Int(j) => {
                if *j == 0 {
                    fail("Division by zero")
                } else {
                    fail("Real numbers are not supported")
                }
            },
            Value::Str(s) => {
                let a = i64_to_chars(*i);
                let b = chars_of(s.as_str());
                Ok(Value::Str(join_texts(&a, "/", &b)))
            },
            Value::Stat(_) => fail("Cannot divide by command status"),
        },
        Value::Str(s) => match r {
            Value::Stat(_) => fail("Cannot divide by command status"),
            _ => {
                let a = chars_of(s.as_str());
                let b = value_chars(r);
                Ok(Value::Str(join_texts(&a, "/", &b)))
            },
        },
        Value::Stat(_) => fail("Cannot divide command status"),
    }
}

/// The magnitude of `i`.
fn magnitude(i: i64) -> (res: u64)
    ensures
        res as int == abs_int(i as int),
{
    if i < 0 {
        (0i128 - (i as i128)) as u64
    } else {
        i as u64
    }
}

/// Quotient and remainder of `i` by `j` (see [`int_quotient`], [`int_remainder`]).
fn quot_rem(i: i64, j: i64) -> (res: (i64, i64))
    requires
        j != 0,
    ensures
        res.0 as int == int_quotient(i as int, j as int),
        res.1 as int == int_remainder(i as int, j as int),
{
    let ua = magnitude(i);
    let ub = magnitude(j);
    let q: u64 = ua / ub;
    let r: u64 = ua % ub;
    assert(q <= ua) by (nonlinear_arith)
        requires
            ub >= 1,
            q == ua / ub,
    ;
    let quot: i64 = if q == 0x8000_0000_0000_0000u64 {
        i64::MIN
    } else if (i < 0) != (j < 0) {
        0 - (q as i64)
    } else {
        q as i64
    };
    let rem: i64 = if i < 0 {
        0 - (r as i64)
    } else {
        r as i64
    };
    (quot, rem)
}

/// Integer division (see [`spec_int_div`]).
pub fn value_int_div(l: &Value, r: &Value) -> (res: Result<Value, String>)
    ensures
        agrees(res, spec_int_div(l@, r@)),
{
    proof {
        reveal_strlit("Division by zero");
        reveal_strlit("Integer division requires numbers");
        reveal_strlit("Cannot divide by command status");
        reveal_strlit("Cannot divide command status");
    }
    match l {
        Value::Int(i) => match r {
            Value::Int(j) => {
                if *j == 0 {
                    fail("Division by zero")
                } else {
                    Ok(Value::Int(quot_rem(*i, *j).0))
                }
            },
            Value::Str(_) => fail("Integer division requires numbers"),
            Value::Stat(_) => fail("Cannot divide by command status"),
        },
        Value::Str(_) => match r {
            Value::Stat(_) => fail("Cannot divide by command status"),
            _ => fail("Integer division requires numbers"),
        },
        Value::Stat(_) => fail("Cannot divide command status"),
    }
}

/// The remainder (see [`spec_mod`]).
pub fn value_mod(l: &Value, r: &Value) -> (res: Result<Value, String>)
    ensures
        agrees(res, spec_mod(l@, r@)),
{
    proof {
        reveal_strlit("Division by zero");
        reveal_strlit("Modulo requires numbers");
        reveal_strlit("Cannot divide by command status");
        reveal_strlit("Cannot divide command status");
    }
    match l {
        Value::Int(i) => match r {
            Value::Int(j) => {
                if *j == 0 {
                    fail("Division by zero")
                } else {
                    Ok(Value::Int(quot_rem(*i, *j).1))
                }
            },
            Value::Str(_) => fail("Modulo requires numbers"),
            Value::Stat(_) => fail("Cannot divide by command status"),
        },
        Value::Str(_) => match r {
            Value::Stat(_) => fail("Cannot divide by command status"),
            _ => fail("Modulo requires numbers"),
        },
        Value::Stat(_) => fail("Cannot divide command status"),
    }
}

/// Integer division and remainder agree: for a non-zero divisor, short of the
/// one quotient that wraps around (`i64::MIN` by -1), the quotient times the
/// divisor plus the remainder is the dividend, and the remainder is smaller
/// than the divisor in size.
pub proof fn law_quotient_remainder(i: int, j: int)
    requires
        i64::MIN <= i <= i64::MAX,
        i64::MIN <= j <= i64::MAX,
        j != 0,
        !(i == i64::MIN && j == -1),
    ensures
        int_quotient(i, j) * j + int_remainder(i, j) == i,
        abs_int(int_remainder(i, j)) < abs_int(j),
{
    let a = abs_int(i);
    let b = abs_int(j);
    let q = a / b;
    let r = a % b;
    vstd::arithmetic::div_mod::lemma_fundamental_div_mod(a, b);
    assert(0 <= r < b);
    assert(q >= 0) by (nonlinear_arith)
        requires
            a >= 0,
            b >= 1,
            q == a / b,
    ;
    assert(q * b <= a) by (nonlinear_arith)
        requires
            a == b * q + r,
            r >= 0,
    ;
    assert(q <= a) by (nonlinear_arith)
        requires
            b >= 1,
            a >= 0,
            q == a / b,
    ;
    if i >= 0 && j > 0 {
        assert(q * j == b * q) by (nonlinear_arith)
            requires
                j == b,
        ;
    } else if i >= 0 && j < 0 {
        assert((-q) * j == b * q) by (nonlinear_arith)
            requires
                j == -b,
        ;
    } else if i < 0 && j > 0 {
        assert((-q) * j == -(b * q)) by (nonlinear_arith)
            requires
                j == b,
        ;
    } else {
        assert(q < 0x8000_0000_0000_0000) by (nonlinear_arith)
            requires
                0 <= a <= 0x8000_0000_0000_0000,
                b >= 1,
                0 <= q,
                q * b <= a,
                q == a / b,
                !(a == 0x8000_0000_0000_0000 && b == 1),
                q <= a,
        {
            if b >= 2 {
                assert(q * 2 <= q * b);
            }
        }
        assert(q * j == -(b * q)) by (nonlinear_arith)
            requires
                j == -b,
        ;
    }
}

/// The sign of a comparison (see [`spec_compare`]).
fn compare(op: Op, l: &Value, r: &Value) -> (res: Result<i64, String>)
    ensures
        match spec_compare(op, l@, r@) {
            Ok(sign) => res matches Ok(x) && x == sign,
            Err(m) => res matches Err(e) && e@ == m,
        },
{
    proof {
        reveal_strlit("Command status does not support '>', did you mean redirect '=>' ?");
        reveal_strlit("Command status can only be checked as true or false, not compared to other values");
        reveal_strlit("Cannot compare number to string");
        reveal_strlit("Cannot compare string to number");
    }
    let status_err = if op == Op::Gt {
        "Command status does not support '>', did you mean redirect '=>' ?"
    } else {
        "Command status can only be checked as true or false, not compared to other values"
    };
    match l {
        Value::Int(i) => match r {
            Value::Int(j) => Ok(if *i < *j { -1 } else if *i == *j { 0 } else { 1 }),
            Value::Str(_) => Err(to_owned_string("Cannot compare number to string")),
            Value::Stat(_) => Err(to_owned_string(status_err)),
        },
        Value::Str(a) => match r {
            Value::Int(_) => Err(to_owned_string("Cannot compare string to number")),
            Value::Str(b) => {
                let x = chars_of(a.as_str());
                let y = chars_of(b.as_str());
                if vec_lt(&x, &y) {
                    Ok(-1)
                } else if vec_eq(&x, &y) {
                    Ok(0)
                } else {
                    Ok(1)
                }
            },
            Value::Stat(_) => Err(to_owned_string(status_err)),
        },
        Value::Stat(_) => Err(to_owned_string(status_err)),
    }
}

/// A comparison (see [`spec_cmp`]); `op` is one of `==`, `!=`, `<`, `<=`, `>`, `>=`.
pub fn value_compare(op: Op, l: &Value, r: &Value) -> (res: Result<Value, String>)
    ensures
        agrees(res, spec_comparison(op, l@, r@)),
{
    match compare(op, l, r) {
        Ok(sign) => {
            let h = match op {
                Op::Equals => sign == 0,
                Op::NotEquals => sign != 0,
                Op::Lt => sign < 0,
                Op::Lte => sign <= 0,
                Op::Gt => sign > 0,
                Op::Gte => sign >= 0,
                _ => false,
            };
            Ok(Value::Int(if h { 1 } else { 0 }))
        },
        Err(m) => Err(m),
    }
}

/// Unary minus (see [`spec_neg`]).
pub fn value_neg(v: &Value) -> (res: Result<Value, String>)
    ensures
        agrees(res, spec_neg(v@)),
{
    proof {
        reveal_strlit("-");
        reveal_strlit("Unary minus not supported for command status");
    }
    match v {
        Value::Int(i) => Ok(Value::Int(0i64.wrapping_sub(*i))),
        Value::Str(s) => {
            let e: Vec<char> = Vec::new();
            let b = chars_of(s.as_str());
            let r = join_texts(&e, "-", &b);
            assert(e@ + "-"@ + b@ == "-"@ + b@);
            Ok(Value::Str(r))
        },
        Value::Stat(_) => fail("Unary minus not supported for command status"),
    }
}

/// Is a value that is not a command status true (see [`spec_truthy`])?
pub fn truthy(v: &Value) -> (res: bool)
    ensures
        res == spec_truthy(v@),
{
    match v {
        Value::Int(i) => *i != 0,
        Value::Str(s) => s.as_str().unicode_len() > 0,
        Value::Stat(_) => false,
    }
}

/// Comparison is antisymmetric: comparing two numbers, or two strings, the
/// other way round gives the opposite sign.
pub proof fn law_compare_antisymmetric(op: Op, l: SValue, r: SValue)
    requires
        (l is Int && r is Int) || (l is Str && r is Str),
    ensures
        spec_compare(op, l, r) matches Ok(a) && spec_compare(op, r, l) matches Ok(b) && a == -b,
{
    match (l, r) {
        (SValue::Str(a), SValue::Str(b)) => {
            crate::text::lemma_seq_lt_total(a, b);
            crate::text::lemma_seq_lt_irreflexive(a);
        },
        _ => {},
    }
}

/// A number or a string equals itself, and is not less than itself.
pub proof fn law_compare_reflexive(v: SValue)
    requires
        !(v is Stat),
    ensures
        spec_comparison(Op::Equals, v, v) == Ok::<SValue, Seq<char>>(SValue::Int(1)),
        spec_comparison(Op::Lt, v, v) == Ok::<SValue, Seq<char>>(SValue::Int(0)),
{
    match v {
        SValue::Str(a) => {
            crate::text::lemma_seq_lt_irreflexive(a);
        },
        _ => {},
    }
}

/// Comparing two numbers is comparing them as integers: each comparison
/// operator gives 1 exactly when the relation it names holds, else 0.
pub proof fn law_compare_numbers(i: int, j: int)
    ensures
        spec_comparison(Op::Equals, SValue::Int(i), SValue::Int(j)) == Ok::<SValue, Seq<char>>(SValue::Int(if i == j { 1 } else { 0 })),
        spec_comparison(Op::NotEquals, SValue::Int(i), SValue::Int(j)) == Ok::<SValue, Seq<char>>(SValue::Int(if i != j { 1 } else { 0 })),
        spec_comparison(Op::Lt, SValue::Int(i), SValue::Int(j)) == Ok::<SValue, Seq<char>>(SValue::Int(if i < j { 1 } else { 0 })),
        spec_comparison(Op::Lte, SValue::Int(i), SValue::Int(j)) == Ok::<SValue, Seq<char>>(SValue::Int(if i <= j { 1 } else { 0 })),
        spec_comparison(Op::Gt, SValue::Int(i), SValue::Int(j)) == Ok::<SValue, Seq<char>>(SValue::Int(if i > j { 1 } else { 0 })),
        spec_comparison(Op::Gte, SValue::Int(i), SValue::Int(j)) == Ok::<SValue, Seq<char>>(SValue::Int(if i >= j { 1 } else { 0 })),
{
}

/// `<=` is `<` or `==`, and `>=` is `>` or `==`: for two numbers or two
/// strings, each gives 1 exactly when one of the two gives 1.
pub proof fn law_weak_order_is_strict_or_equal(l: SValue, r: SValue)
    requires
        (l is Int && r is Int) || (l is Str && r is Str),
    ensures
        (spec_comparison(Op::Lte, l, r) == Ok::<SValue, Seq<char>>(SValue::Int(1))) <==> (spec_comparison(Op::Lt, l, r)
            == Ok::<SValue, Seq<char>>(SValue::Int(1)) || spec_comparison(Op::Equals, l, r) == Ok::<SValue, Seq<char>>(
            SValue::Int(1),
        )),
        (spec_comparison(Op::Gte, l, r) == Ok::<SValue, Seq<char>>(SValue::Int(1))) <==> (spec_comparison(Op::Gt, l, r)
            == Ok::<SValue, Seq<char>>(SValue::Int(1)) || spec_comparison(Op::Equals, l, r) == Ok::<SValue, Seq<char>>(
            SValue::Int(1),
        )),
        spec_comparison(Op::Lte, l, r) is Ok && spec_comparison(Op::Gte, l, r) is Ok,
{
}

/// `<=` and `>=` are reflexive: a number or a string is at most and at least itself.
pub proof fn law_weak_order_reflexive(v: SValue)
    requires
        !(v is Stat),
    ensures
        spec_comparison(Op::Lte, v, v) == Ok::<SValue, Seq<char>>(SValue::Int(1)),
        spec_comparison(Op::Gte, v, v) == Ok::<SValue, Seq<char>>(SValue::Int(1)),
{
    match v {
        SValue::Str(a) => {
            crate::text::lemma_seq_lt_irreflexive(a);
        },
        _ => {},
    }
}

} // verus!

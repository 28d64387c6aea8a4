//! Verified string utilities of the evaluator: decimal rendering of
//! numbers, lexicographic ordering of strings, and the textual form of a
//! value as the `print` statement writes it.
use vstd::prelude::*;
use vstd::string::StringExecFns;
use vstd::string::StrSliceExecFns;
use crate::expr::LiteralValue;
use crate::expr::Val;
use crate::expr::ValueType;
use crate::expr::spec_type_of;

verus! {

/// The character of one decimal digit.
pub open spec fn spec_digit(d: int) -> char {
    if d == 0 {
        '0'
    } else if d == 1 {
        '1'
    } else if d == 2 {
        '2'
    } else if d == 3 {
        '3'
    } else if d == 4 {
        '4'
    } else if d == 5 {
        '5'
    } else if d == 6 {
        '6'
    } else if d == 7 {
        '7'
    } else if d == 8 {
        '8'
    } else {
        '9'
    }
}

/// The decimal numeral of a natural number, most significant digit first.
pub open spec fn spec_dec_nat(n: nat) -> Seq<char>
    decreases n,
{
    if n < 10 {
        seq![spec_digit(n as int)]
    } else {
        spec_dec_nat(n / 10).push(spec_digit((n % 10) as int))
    }
}

/// The decimal numeral of an integer: a minus sign before the numeral of
/// its magnitude when it is negative.
pub open spec fn spec_dec_int(n: int) -> Seq<char> {
    if n < 0 {
        seq!['-'] + spec_dec_nat((-n) as nat)
    } else {
        spec_dec_nat(n as nat)
    }
}

fn digit_str(d: u64) -> (r: &'static str)
    requires
        d < 10,
    ensures
        r@ == seq![spec_digit(d as int)],
{
    proof {
        reveal_strlit("0");
        reveal_strlit("1");
        reveal_strlit("2");
        reveal_strlit("3");
        reveal_strlit("4");
        reveal_strlit("5");
        reveal_strlit("6");
        reveal_strlit("7");
        reveal_strlit("8");
        reveal_strlit("9");
    }
    match d {
        0 => "0",
        1 => "1",
        2 => "2",
        3 => "3",
        4 => "4",
        5 => "5",
        6 => "6",
        7 => "7",
        8 => "8",
        _ => "9",
    }
}

/// Appends the decimal numeral of `n` to `s`.
pub fn push_dec_u64(s: &mut String, n: u64)
    ensures
        final(s)@ == old(s)@ + spec_dec_nat(n as nat),
    decreases n,
{
    if n < 10 {
        s.append(digit_str(n));
        proof {
            assert(final(s)@ =~= old(s)@ + spec_dec_nat(n as nat));
        }
    } else {
        push_dec_u64(s, n / 10);
        s.append(digit_str(n % 10));
        proof {
            assert((n / 10) as nat == (n as nat) / 10);
            assert((n % 10) as nat == (n as nat) % 10);
            assert(final(s)@ =~= old(s)@ + spec_dec_nat(n as nat));
        }
    }
}

/// Appends the decimal numeral of `n` to `s`, sign included.
pub fn push_dec_i64(s: &mut String, n: i64)
    ensures
        final(s)@ == old(s)@ + spec_dec_int(n as int),
{
    if n >= 0 {
        push_dec_u64(s, n as u64);
    } else {
        proof {
            reveal_strlit("-");
        }
        s.append("-");
        let m: i64 = -(n + 1);
        let u: u64 = (m as u64) + 1;
        push_dec_u64(s, u);
        proof {
            assert(u as int == -(n as int));
            assert(final(s)@ =~= old(s)@ + spec_dec_int(n as int));
        }
    }
}

/// The decimal numeral of `n` as a fresh string.
pub fn dec_string_i64(n: i64) -> (r: String)
    ensures
        r@ == spec_dec_int(n as int),
{
    let mut s = String::new();
    push_dec_i64(&mut s, n);
    proof {
        assert(s@ =~= spec_dec_int(n as int));
    }
    s
}

/// Strict lexicographic order on character sequences, by code point.
pub open spec fn spec_lex_lt(a: Seq<char>, b: Seq<char>) -> bool
    decreases a.len(),
{
    if b.len() == 0 {
        false
    } else if a.len() == 0 {
        true
    } else if a[0] != b[0] {
        (a[0] as u32) < (b[0] as u32)
    } else {
        spec_lex_lt(a.skip(1), b.skip(1))
    }
}

proof fn lemma_lex_step(a: Seq<char>, b: Seq<char>, i: int)
    requires
        0 <= i < a.len(),
        i < b.len(),
        a[i] == b[i],
    ensures
        spec_lex_lt(a.skip(i), b.skip(i)) == spec_lex_lt(a.skip(i + 1), b.skip(i + 1)),
{
    assert(a.skip(i)[0] == a[i]);
    assert(b.skip(i)[0] == b[i]);
    assert(a.skip(i).skip(1) =~= a.skip(i + 1));
    assert(b.skip(i).skip(1) =~= b.skip(i + 1));
}

/// Whether `a` comes strictly before `b` in lexicographic order.
pub fn str_lex_lt(a: &str, b: &str) -> (r: bool)
    ensures
        r == spec_lex_lt(a@, b@),
{
    let alen: usize = a.unicode_len();
    let blen: usize = b.unicode_len();
    let mut i: usize = 0;
    proof {
        assert(a@.skip(0) =~= a@);
        assert(b@.skip(0) =~= b@);
    }
    while i < alen && i < blen
        invariant
            i <= alen,
            i <= blen,
            alen == a@.len(),
            blen == b@.len(),
            spec_lex_lt(a@, b@) == spec_lex_lt(a@.skip(i as int), b@.skip(i as int)),
        decreases alen - i,
    {
        let ca = a.get_char(i);
        let cb = b.get_char(i);
        if (ca as u32) != (cb as u32) {
            proof {
                assert(a@.skip(i as int)[0] == a@[i as int]);
                assert(b@.skip(i as int)[0] == b@[i as int]);
            }
            return (ca as u32) < (cb as u32);
        }
        proof {
            lemma_lex_step(a@, b@, i as int);
        }
        i = i + 1;
    }
    if i < blen {
        proof {
            assert(a@.skip(i as int).len() == 0);
            assert(b@.skip(i as int).len() > 0);
        }
        true
    } else {
        proof {
            assert(b@.skip(i as int).len() == 0);
        }
        false
    }
}

/// The label of a type, as it appears in error messages.
pub open spec fn spec_type_label(t: ValueType) -> Seq<char> {
    match t {
        ValueType::Number => "Number"@,
        ValueType::StringValue => "String"@,
        ValueType::True => "true"@,
        ValueType::False => "false"@,
        ValueType::Nil => "nil"@,
        ValueType::Callable => "Callable"@,
    }
}

/// The textual form of a value, as the `print` statement writes it.
pub open spec fn spec_display(v: Val) -> Seq<char> {
    match v {
        Val::Num(n) => spec_dec_int(n as int),
        Val::Str(s) => s,
        Val::True => "true"@,
        Val::False => "false"@,
        Val::Nil => "nil"@,
        Val::Callable { name, arity: _, fun: _ } => "<fn "@ + name + ">"@,
    }
}

impl LiteralValue {
    /// The type label of the value, used in error messages.
    pub fn to_type(&self) -> (r: String)
        ensures
            r@ == spec_type_label(spec_type_of(self@)),
    {
        match self {
            LiteralValue::Number(_) => String::from_str("Number"),
            LiteralValue::StringValue(_) => String::from_str("String"),
            LiteralValue::True => String::from_str("true"),
            LiteralValue::False => String::from_str("false"),
            LiteralValue::Nil => String::from_str("nil"),
            LiteralValue::Callable { .. } => String::from_str("Callable"),
        }
    }

    /// The textual form of the value, as the `print` statement writes it.
    pub fn to_display_string(&self) -> (r: String)
        ensures
            r@ == spec_display(self@),
    {
        match self {
            LiteralValue::Number(n) => dec_string_i64(*n),
            LiteralValue::StringValue(s) => s.clone(),
            LiteralValue::True => String::from_str("true"),
            LiteralValue::False => String::from_str("false"),
            LiteralValue::Nil => String::from_str("nil"),
            LiteralValue::Callable { name, arity: _, fun: _ } => {
                let mut s = String::from_str("<fn ");
                s.append(name.as_str());
                s.append(">");
                proof {
                    assert(s@ =~= "<fn "@ + name@ + ">"@);
                }
                s
            },
        }
    }
}

} // verus!

//! Decimal text of numbers.
use vstd::prelude::*;
use crate::lexer::push_char;

verus! {

/// The decimal digit `d` as a character.
pub open spec fn digit_char(d: int) -> char {
    (d + 48) as char
}

/// The decimal text of `n`.
pub open spec fn decimal(n: nat) -> Seq<char>
    decreases n,
{
    if n < 10 {
        seq![digit_char(n as int)]
    } else {
        decimal(n / 10).push(digit_char((n % 10) as int))
    }
}

/// The decimal text of `i`, with a `-` when it is negative.
pub open spec fn int_text(i: int) -> Seq<char> {
    if i < 0 {
        "-"@ + decimal((-i) as nat)
    } else {
        decimal(i as nat)
    }
}

fn digit(d: u64) -> (c: char)
    requires
        d < 10,
    ensures
        c == digit_char(d as int),
{
    match d {
        0 => '0',
        1 => '1',
        2 => '2',
        3 => '3',
        4 => '4',
        5 => '5',
        6 => '6',
        7 => '7',
        8 => '8',
        _ => '9',
    }
}

/// The decimal text of `n`.
pub fn decimal_u64(n: u64) -> (r: String)
    ensures
        r@ == decimal(n as nat),
    decreases n,
{
    if n < 10 {
        let mut s = String::new();
        push_char(&mut s, digit(n));
        assert(s@ =~= seq![digit_char(n as int)]);
        s
    } else {
        let mut s = decimal_u64(n / 10);
        push_char(&mut s, digit(n % 10));
        s
    }
}

/// The decimal text of `n`.
pub fn decimal_text(n: usize) -> (r: String)
    ensures
        r@ == decimal(n as nat),
{
    decimal_u64(n as u64)
}

/// The decimal text of `i`, with a `-` when it is negative.
pub fn int_to_text(i: i64) -> (r: String)
    ensures
        r@ == int_text(i as int),
{
    if i < 0 {
        let magnitude: u64 = if i == i64::MIN { 9223372036854775808u64 } else { (0 - i) as u64 };
        let digits = decimal_u64(magnitude);
        proof {
            reveal_strlit("-");
        }
        String::from_str("-").concat(digits.as_str())
    } else {
        decimal_u64(i as u64)
    }
}

/// The value of digits does not depend on what follows them.
proof fn lemma_digit_value_prefix(cs: Seq<char>, c: char, j: int)
    requires
        0 <= j <= cs.len(),
    ensures
        crate::lexer::digit_value(cs.push(c), 0, j) == crate::lexer::digit_value(cs, 0, j),
    decreases j,
{
    if j > 0 {
        lemma_digit_value_prefix(cs, c, j - 1);
        assert(cs.push(c)[j - 1] == cs[j - 1]);
    }
}

/// Reading back the decimal text of a number gives the number: the text
/// starts with the most significant digit and the digits are those of `n`.
pub proof fn law_decimal_reads_back(n: nat)
    ensures
        crate::lexer::digit_value(decimal(n), 0, decimal(n).len() as int) == n,
        forall|k: int| 0 <= k < decimal(n).len() ==> crate::lexer::is_digit(#[trigger] decimal(n)[k]),
    decreases n,
{
    if n >= 10 {
        let q = n / 10;
        let d = n % 10;
        law_decimal_reads_back(q);
        let s = decimal(q);
        let c = digit_char(d as int);
        lemma_digit_value_prefix(s, c, s.len() as int);
        assert(decimal(n) == s.push(c));
        assert(s.push(c)[s.len() as int] == c);
        assert((c as int) == d + 48);
        assert(c != '_');
        assert(crate::lexer::digit_value(s.push(c), 0, s.len() as int + 1)
            == crate::lexer::digit_value(s.push(c), 0, s.len() as int) * 10 + (c as int - '0' as int));
        assert(n == q * 10 + d) by (nonlinear_arith)
            requires q == n / 10, d == n % 10;
        assert forall|k: int| 0 <= k < s.push(c).len() implies crate::lexer::is_digit(#[trigger] s.push(c)[k]) by {
            if k < s.len() {
                assert(s.push(c)[k] == s[k]);
            }
        }
    } else {
        let c = digit_char(n as int);
        assert((c as int) == n + 48);
        assert(decimal(n) == seq![c]);
        assert(decimal(n)[0] == c);
        assert(c != '_');
        assert(crate::lexer::digit_value(seq![c], 0, 1) == crate::lexer::digit_value(seq![c], 0, 0) * 10 + (c as int - '0' as int));
    }
}

} // verus!

//! Splitting source text into tokens.
//!
//! Whitespace and `//` comments separate tokens. Identifiers are letters, digits
//! and `_`, not starting with a digit; a few of them are keywords. Numbers are
//! decimal, `_` may separate digits; a number with a fraction or an exponent is a
//! float, kept as its digits. Strings are double-quoted with the escapes
//! `\n \t \r \0 \\ \" \'`. Operators are matched longest first.
use vstd::prelude::*;

verus! {

/// Why source text could not be read as a program.
#[derive(Debug, Clone, PartialEq, Eq)]
pub enum ParseError {
    InconsistentIndentationError(usize),
    /// The text is malformed here: at this character position when no token can be
    /// read there, at this token position when the tokens do not form a program.
    SyntaxError(usize),
    InvalidAssignmentTarget,
}

/// An operator or delimiter.
#[derive(Debug, Copy, Clone, PartialEq, Eq, Structural)]
pub enum Punct {
    Plus,
    Minus,
    Star,
    Slash,
    Percent,
    Amp,
    Pipe,
    Caret,
    Bang,
    Assign,
    Lt,
    Gt,
    Dot,
    Comma,
    Semi,
    LParen,
    RParen,
    LBrace,
    RBrace,
    LBracket,
    RBracket,
    AndAnd,
    OrOr,
    EqEq,
    Ne,
    Le,
    Ge,
    Shl,
    Shr,
    PlusEq,
    MinusEq,
    StarEq,
    SlashEq,
    PercentEq,
    AmpEq,
    PipeEq,
    CaretEq,
    ShlEq,
    ShrEq,
}

/// A reserved word.
#[derive(Debug, Copy, Clone, PartialEq, Eq, Structural)]
pub enum Keyword {
    If,
    Else,
    While,
    Fn,
    Return,
    True,
    False,
    NoneLit,
}

/// A token.
#[derive(Debug, Clone, PartialEq)]
pub enum Token {
    Ident(String),
    Int(i64),
    /// A float literal: its digits, without `_`.
    Float(String),
    Str(String),
    Punct(Punct),
    Keyword(Keyword),
}

/// What a token holds.
pub ghost enum TokenView {
    Ident(Seq<char>),
    Int(i64),
    Float(Seq<char>),
    Str(Seq<char>),
    Punct(Punct),
    Keyword(Keyword),
}

impl View for Token {
    type V = TokenView;

    open spec fn view(&self) -> TokenView {
        match self {
            Token::Ident(s) => TokenView::Ident(s@),
            Token::Int(i) => TokenView::Int(*i),
            Token::Float(s) => TokenView::Float(s@),
            Token::Str(s) => TokenView::Str(s@),
            Token::Punct(p) => TokenView::Punct(*p),
            Token::Keyword(k) => TokenView::Keyword(*k),
        }
    }
}

/// The views of a token list.
pub open spec fn tokens_view(ts: Seq<Token>) -> Seq<TokenView> {
    ts.map_values(|t: Token| t@)
}

pub open spec fn is_space(c: char) -> bool {
    c == ' ' || c == '\t' || c == '\n' || c == '\r'
}

pub open spec fn is_digit(c: char) -> bool {
    '0' <= c && c <= '9'
}

pub open spec fn is_ident_start(c: char) -> bool {
    ('a' <= c && c <= 'z') || ('A' <= c && c <= 'Z') || c == '_'
}

pub open spec fn is_ident_char(c: char) -> bool {
    is_ident_start(c) || is_digit(c)
}

/// The end of the identifier characters from `i`.
pub open spec fn ident_end(cs: Seq<char>, i: int) -> int
    decreases cs.len() - i,
{
    if 0 <= i < cs.len() && is_ident_char(cs[i]) {
        ident_end(cs, i + 1)
    } else {
        i
    }
}

/// The end of the digits and `_` from `i`.
pub open spec fn digits_end(cs: Seq<char>, i: int) -> int
    decreases cs.len() - i,
{
    if 0 <= i < cs.len() && (is_digit(cs[i]) || cs[i] == '_') {
        digits_end(cs, i + 1)
    } else {
        i
    }
}

/// The end of the line that `i` is on (the position of its newline, or the end).
pub open spec fn line_end(cs: Seq<char>, i: int) -> int
    decreases cs.len() - i,
{
    if 0 <= i < cs.len() && cs[i] != '\n' {
        line_end(cs, i + 1)
    } else {
        i
    }
}

/// The value of the digits of `cs[i..j]`, `_` skipped.
pub open spec fn digit_value(cs: Seq<char>, i: int, j: int) -> int
    decreases j - i,
{
    if j <= i {
        0
    } else if cs[j - 1] == '_' {
        digit_value(cs, i, j - 1)
    } else {
        digit_value(cs, i, j - 1) * 10 + (cs[j - 1] as int - '0' as int)
    }
}

/// The end of an exponent `e`, `E`, an optional sign and digits at `k`; `k` when there is none.
pub open spec fn exp_end(cs: Seq<char>, k: int) -> int {
    if 0 <= k < cs.len() && (cs[k] == 'e' || cs[k] == 'E') {
        let s = if k + 1 < cs.len() && (cs[k + 1] == '+' || cs[k + 1] == '-') { k + 2 } else { k + 1 };
        if s < cs.len() && is_digit(cs[s]) {
            digits_end(cs, s)
        } else {
            k
        }
    } else {
        k
    }
}

/// The characters of `cs[i..j]` without `_`.
pub open spec fn without_underscores(cs: Seq<char>, i: int, j: int) -> Seq<char>
    decreases j - i,
{
    if j <= i {
        Seq::empty()
    } else if cs[j - 1] == '_' {
        without_underscores(cs, i, j - 1)
    } else {
        without_underscores(cs, i, j - 1).push(cs[j - 1])
    }
}

/// The number token at `i` (a digit) and where it ends.
pub open spec fn number_at(cs: Seq<char>, i: int) -> Result<(TokenView, int), ParseError> {
    let j = digits_end(cs, i);
    if j + 1 < cs.len() && cs[j] == '.' && is_digit(cs[j + 1]) {
        let e = exp_end(cs, digits_end(cs, j + 1));
        Ok((TokenView::Float(without_underscores(cs, i, e)), e))
    } else if exp_end(cs, j) > j {
        let e = exp_end(cs, j);
        Ok((TokenView::Float(without_underscores(cs, i, e)), e))
    } else if digit_value(cs, i, j) > i64::MAX {
        Err(ParseError::SyntaxError(i as usize))
    } else {
        Ok((TokenView::Int(digit_value(cs, i, j) as i64), j))
    }
}

/// The character an escape `\c` stands for.
pub open spec fn escape_of(c: char) -> Option<char> {
    if c == 'n' {
        Some('\n')
    } else if c == 't' {
        Some('\t')
    } else if c == 'r' {
        Some('\r')
    } else if c == '0' {
        Some('\0')
    } else if c == '\\' {
        Some('\\')
    } else if c == '"' {
        Some('"')
    } else if c == '\'' {
        Some('\'')
    } else {
        None
    }
}

/// An escape is one of `\n`, `\t`, `\r`, `\0`, `\\`, `\"` and `\'`. Each
/// denotes the character Rust gives it: the escape of a letter or digit is the
/// control character with code 10 (newline), 9 (tab), 13 (carriage return) or
/// 0 (nul), never the letter itself; the escape of a quote or backslash is that
/// character.
pub proof fn law_escape_codes(c: char)
    ensures
        escape_of(c) is Some <==> (c == 'n' || c == 't' || c == 'r' || c == '0' || c == '\\' || c == '"' || c == '\''),
        escape_of(c) matches Some(d) ==> (d as u32) == (
            if c == 'n' { 10u32 } else if c == 't' { 9u32 } else if c == 'r' { 13u32 } else if c == '0' { 0u32 } else { c as u32 }
        ),
        escape_of(c) matches Some(d) ==> (('a' <= c <= 'z' || '0' <= c <= '9') <==> (d as u32) < 32),
{
}

/// The rest of a string literal from `j`, after the characters `acc`: its
/// characters and the position after the closing quote.
pub open spec fn string_rest(cs: Seq<char>, start: int, j: int, acc: Seq<char>) -> Result<(Seq<char>, int), ParseError>
    decreases cs.len() - j,
{
    if j < 0 || j >= cs.len() {
        Err(ParseError::SyntaxError(start as usize))
    } else if cs[j] == '"' {
        Ok((acc, j + 1))
    } else if cs[j] == '\\' {
        if j + 1 >= cs.len() {
            Err(ParseError::SyntaxError(start as usize))
        } else {
            match escape_of(cs[j + 1]) {
                Some(c) => string_rest(cs, start, j + 2, acc.push(c)),
                None => Err(ParseError::SyntaxError(j as usize)),
            }
        }
    } else {
        string_rest(cs, start, j + 1, acc.push(cs[j]))
    }
}

/// The keyword a word is, if any.
pub open spec fn keyword_of(w: Seq<char>) -> Option<Keyword> {
    if w.len() == 2 && w[0] == 'i' && w[1] == 'f' {
        Some(Keyword::If)
    } else if w.len() == 2 && w[0] == 'f' && w[1] == 'n' {
        Some(Keyword::Fn)
    } else if w.len() == 4 && w[0] == 'e' && w[1] == 'l' && w[2] == 's' && w[3] == 'e' {
        Some(Keyword::Else)
    } else if w.len() == 4 && w[0] == 't' && w[1] == 'r' && w[2] == 'u' && w[3] == 'e' {
        Some(Keyword::True)
    } else if w.len() == 4 && w[0] == 'N' && w[1] == 'o' && w[2] == 'n' && w[3] == 'e' {
        Some(Keyword::NoneLit)
    } else if w.len() == 5 && w[0] == 'w' && w[1] == 'h' && w[2] == 'i' && w[3] == 'l' && w[4] == 'e' {
        Some(Keyword::While)
    } else if w.len() == 5 && w[0] == 'f' && w[1] == 'a' && w[2] == 'l' && w[3] == 's' && w[4] == 'e' {
        Some(Keyword::False)
    } else if w.len() == 6 && w[0] == 'r' && w[1] == 'e' && w[2] == 't' && w[3] == 'u' && w[4] == 'r' && w[5] == 'n' {
        Some(Keyword::Return)
    } else {
        None
    }
}

/// The token a word is.
pub open spec fn word_token(w: Seq<char>) -> TokenView {
    match keyword_of(w) {
        Some(k) => TokenView::Keyword(k),
        None => TokenView::Ident(w),
    }
}

/// The character at `i`, or a space past the end.
pub open spec fn char_at(cs: Seq<char>, i: int) -> char {
    if 0 <= i < cs.len() {
        cs[i]
    } else {
        ' '
    }
}

/// The operator or delimiter at `i`, longest first, and where it ends.
pub open spec fn punct_at(cs: Seq<char>, i: int) -> Option<(Punct, int)> {
    let c = char_at(cs, i);
    let d = char_at(cs, i + 1);
    let e = char_at(cs, i + 2);
    if c == '<' && d == '<' && e == '=' {
        Some((Punct::ShlEq, i + 3))
    } else if c == '>' && d == '>' && e == '=' {
        Some((Punct::ShrEq, i + 3))
    } else if c == '&' && d == '&' {
        Some((Punct::AndAnd, i + 2))
    } else if c == '|' && d == '|' {
        Some((Punct::OrOr, i + 2))
    } else if c == '=' && d == '=' {
        Some((Punct::EqEq, i + 2))
    } else if c == '!' && d == '=' {
        Some((Punct::Ne, i + 2))
    } else if c == '<' && d == '=' {
        Some((Punct::Le, i + 2))
    } else if c == '>' && d == '=' {
        Some((Punct::Ge, i + 2))
    } else if c == '<' && d == '<' {
        Some((Punct::Shl, i + 2))
    } else if c == '>' && d == '>' {
        Some((Punct::Shr, i + 2))
    } else if c == '+' && d == '=' {
        Some((Punct::PlusEq, i + 2))
    } else if c == '-' && d == '=' {
        Some((Punct::MinusEq, i + 2))
    } else if c == '*' && d == '=' {
        Some((Punct::StarEq, i + 2))
    } else if c == '/' && d == '=' {
        Some((Punct::SlashEq, i + 2))
    } else if c == '%' && d == '=' {
        Some((Punct::PercentEq, i + 2))
    } else if c == '&' && d == '=' {
        Some((Punct::AmpEq, i + 2))
    } else if c == '|' && d == '=' {
        Some((Punct::PipeEq, i + 2))
    } else if c == '^' && d == '=' {
        Some((Punct::CaretEq, i + 2))
    } else {
        match single_punct(c) {
            Some(p) => Some((p, i + 1)),
            None => None,
        }
    }
}

/// The one-character operator or delimiter `c`.
pub open spec fn single_punct(c: char) -> Option<Punct> {
    if c == '+' {
        Some(Punct::Plus)
    } else if c == '-' {
        Some(Punct::Minus)
    } else if c == '*' {
        Some(Punct::Star)
    } else if c == '/' {
        Some(Punct::Slash)
    } else if c == '%' {
        Some(Punct::Percent)
    } else if c == '&' {
        Some(Punct::Amp)
    } else if c == '|' {
        Some(Punct::Pipe)
    } else if c == '^' {
        Some(Punct::Caret)
    } else if c == '!' {
        Some(Punct::Bang)
    } else if c == '=' {
        Some(Punct::Assign)
    } else if c == '<' {
        Some(Punct::Lt)
    } else if c == '>' {
        Some(Punct::Gt)
    } else if c == '.' {
        Some(Punct::Dot)
    } else if c == ',' {
        Some(Punct::Comma)
    } else if c == ';' {
        Some(Punct::Semi)
    } else if c == '(' {
        Some(Punct::LParen)
    } else if c == ')' {
        Some(Punct::RParen)
    } else if c == '{' {
        Some(Punct::LBrace)
    } else if c == '}' {
        Some(Punct::RBrace)
    } else if c == '[' {
        Some(Punct::LBracket)
    } else if c == ']' {
        Some(Punct::RBracket)
    } else {
        None
    }
}

/// The token that starts at `i` (a character that is no space and starts no
/// comment) and where it ends.
pub open spec fn token_at(cs: Seq<char>, i: int) -> Result<(TokenView, int), ParseError> {
    let c = cs[i];
    if is_ident_start(c) {
        let j = ident_end(cs, i);
        Ok((word_token(cs.subrange(i, j)), j))
    } else if is_digit(c) {
        number_at(cs, i)
    } else if c == '"' {
        match string_rest(cs, i, i + 1, Seq::empty()) {
            Ok((s, j)) => Ok((TokenView::Str(s), j)),
            Err(e) => Err(e),
        }
    } else {
        match punct_at(cs, i) {
            Some((p, j)) => Ok((TokenView::Punct(p), j)),
            None => Err(ParseError::SyntaxError(i as usize)),
        }
    }
}

/// The tokens of `cs` from position `i` on.
pub open spec fn lex_from(cs: Seq<char>, i: int) -> Result<Seq<TokenView>, ParseError>
    decreases cs.len() - i,
{
    if i < 0 || i >= cs.len() {
        Ok(Seq::empty())
    } else if is_space(cs[i]) {
        lex_from(cs, i + 1)
    } else if cs[i] == '/' && char_at(cs, i + 1) == '/' {
        if i < line_end(cs, i) <= cs.len() {
            lex_from(cs, line_end(cs, i))
        } else {
            Ok(Seq::empty())
        }
    } else {
        match token_at(cs, i) {
            Err(e) => Err(e),
            Ok((t, j)) => if i < j <= cs.len() {
                match lex_from(cs, j) {
                    Ok(rest) => Ok(seq![t] + rest),
                    Err(e) => Err(e),
                }
            } else {
                Err(ParseError::SyntaxError(i as usize))
            },
        }
    }
}

/// The tokens of a source text.
pub open spec fn lex_spec(cs: Seq<char>) -> Result<Seq<TokenView>, ParseError> {
    lex_from(cs, 0)
}

/// Appends `c` to `s`.
///
/// Trusted: `String::push` appends the character to the end of the string, as its
/// documentation states.
#[verifier::external_body]
pub(crate) fn push_char(s: &mut String, c: char)
    ensures
        final(s)@ == old(s)@.push(c),
{
    s.push(c);
}

/// The characters of `s`.
pub fn chars_of(s: &str) -> (r: Vec<char>)
    ensures
        r@ == s@,
{
    let n = s.unicode_len();
    let mut r: Vec<char> = Vec::new();
    let mut i: usize = 0;
    while i < n
        invariant
            n == s@.len(),
            i <= n,
            r@ == s@.subrange(0, i as int),
        decreases n - i,
    {
        r.push(s.get_char(i));
        i = i + 1;
        assert(r@ =~= s@.subrange(0, i as int));
    }
    assert(s@.subrange(0, n as int) =~= s@);
    r
}

fn space(c: char) -> (r: bool)
    ensures
        r == is_space(c),
{
    c == ' ' || c == '\t' || c == '\n' || c == '\r'
}

fn digit(c: char) -> (r: bool)
    ensures
        r == is_digit(c),
{
    '0' <= c && c <= '9'
}

fn ident_start(c: char) -> (r: bool)
    ensures
        r == is_ident_start(c),
{
    ('a' <= c && c <= 'z') || ('A' <= c && c <= 'Z') || c == '_'
}

fn ident_char(c: char) -> (r: bool)
    ensures
        r == is_ident_char(c),
{
    ident_start(c) || digit(c)
}

fn char_at_exec(cs: &Vec<char>, i: usize) -> (r: char)
    ensures
        r == char_at(cs@, i as int),
{
    if i < cs.len() {
        cs[i]
    } else {
        ' '
    }
}

fn scan_ident(cs: &Vec<char>, i: usize) -> (r: usize)
    requires
        i <= cs@.len(),
    ensures
        r == ident_end(cs@, i as int),
        i <= r <= cs@.len(),
{
    let mut j = i;
    while j < cs.len() && ident_char(cs[j])
        invariant
            i <= j <= cs@.len(),
            ident_end(cs@, i as int) == ident_end(cs@, j as int),
        decreases cs@.len() - j,
    {
        j = j + 1;
    }
    j
}

fn scan_digits(cs: &Vec<char>, i: usize) -> (r: usize)
    requires
        i <= cs@.len(),
    ensures
        r == digits_end(cs@, i as int),
        i <= r <= cs@.len(),
{
    let mut j = i;
    while j < cs.len() && (digit(cs[j]) || cs[j] == '_')
        invariant
            i <= j <= cs@.len(),
            digits_end(cs@, i as int) == digits_end(cs@, j as int),
        decreases cs@.len() - j,
    {
        j = j + 1;
    }
    j
}

fn scan_line(cs: &Vec<char>, i: usize) -> (r: usize)
    requires
        i <= cs@.len(),
    ensures
        r == line_end(cs@, i as int),
        i <= r <= cs@.len(),
{
    let mut j = i;
    while j < cs.len() && cs[j] != '\n'
        invariant
            i <= j <= cs@.len(),
            line_end(cs@, i as int) == line_end(cs@, j as int),
        decreases cs@.len() - j,
    {
        j = j + 1;
    }
    j
}

fn scan_exp(cs: &Vec<char>, k: usize) -> (r: usize)
    requires
        k <= cs@.len(),
    ensures
        r == exp_end(cs@, k as int),
        k <= r <= cs@.len(),
{
    if k < cs.len() && (cs[k] == 'e' || cs[k] == 'E') {
        let s = if k + 1 < cs.len() && (cs[k + 1] == '+' || cs[k + 1] == '-') { k + 2 } else { k + 1 };
        if s < cs.len() && digit(cs[s]) {
            scan_digits(cs, s)
        } else {
            k
        }
    } else {
        k
    }
}

/// The characters of `cs[i..j]` as a string.
fn string_of(cs: &Vec<char>, i: usize, j: usize) -> (r: String)
    requires
        i <= j <= cs@.len(),
    ensures
        r@ == cs@.subrange(i as int, j as int),
{
    let mut r = String::new();
    let mut k = i;
    while k < j
        invariant
            i <= k <= j <= cs@.len(),
            r@ == cs@.subrange(i as int, k as int),
        decreases j - k,
    {
        push_char(&mut r, cs[k]);
        k = k + 1;
        assert(r@ =~= cs@.subrange(i as int, k as int));
    }
    r
}

/// The characters of `cs[i..j]` without `_`, as a string.
fn digits_text(cs: &Vec<char>, i: usize, j: usize) -> (r: String)
    requires
        i <= j <= cs@.len(),
    ensures
        r@ == without_underscores(cs@, i as int, j as int),
{
    let mut r = String::new();
    let mut k = i;
    while k < j
        invariant
            i <= k <= j <= cs@.len(),
            r@ == without_underscores(cs@, i as int, k as int),
        decreases j - k,
    {
        if cs[k] != '_' {
            push_char(&mut r, cs[k]);
        }
        k = k + 1;
    }
    r
}

proof fn lemma_digit_value_grows(cs: Seq<char>, i: int, j: int, k: int)
    requires
        i <= j <= k <= cs.len(),
        forall|t: int| i <= t < k ==> is_digit(cs[t]) || cs[t] == '_',
    ensures
        digit_value(cs, i, j) <= digit_value(cs, i, k),
        digit_value(cs, i, j) >= 0,
    decreases k - i,
{
    if k > i {
        if k > j {
            lemma_digit_value_grows(cs, i, j, k - 1);
        } else {
            lemma_digit_value_grows(cs, i, j - 1, k - 1);
        }
    }
}

/// The number token at `i`.
fn number_token(cs: &Vec<char>, i: usize) -> (r: Result<(Token, usize), ParseError>)
    requires
        i < cs@.len(),
        is_digit(cs@[i as int]),
    ensures
        match r {
            Ok((t, j)) => number_at(cs@, i as int) == Ok::<(TokenView, int), ParseError>((t@, j as int)) && i < j <= cs@.len(),
            Err(e) => number_at(cs@, i as int) == Err::<(TokenView, int), ParseError>(e),
        },
{
    let n = cs.len();
    let j = scan_digits(cs, i);
    proof {
        lemma_digits_run(cs@, i as int);
    }
    if j < n && j + 1 < n && cs[j] == '.' && digit(cs[j + 1]) {
        let k = scan_digits(cs, j + 1);
        let e = scan_exp(cs, k);
        return Ok((Token::Float(digits_text(cs, i, e)), e));
    }
    let e = scan_exp(cs, j);
    if e > j {
        return Ok((Token::Float(digits_text(cs, i, e)), e));
    }
    let mut v: i64 = 0;
    let mut k = i;
    while k < j
        invariant
            i <= k <= j <= cs@.len(),
            i < cs@.len(),
            is_digit(cs@[i as int]),
            j == digits_end(cs@, i as int),
            exp_end(cs@, j as int) == j,
            !(j + 1 < cs@.len() && cs@[j as int] == '.' && is_digit(cs@[j + 1])),
            forall|t: int| i <= t < j ==> is_digit(cs@[t]) || cs@[t] == '_',
            v == digit_value(cs@, i as int, k as int),
            v >= 0,
        decreases j - k,
    {
        let c = cs[k];
        if c != '_' {
            assert(is_digit(c));
            let d = (c as u32 - '0' as u32) as i64;
            assert(0 <= d <= 9);
            assert(d == c as int - '0' as int);
            assert(digit_value(cs@, i as int, k as int + 1) == v * 10 + d);
            if v > (i64::MAX - d) / 10 {
                proof {
                    let q = (i64::MAX - d) / 10;
                    assert(q * 10 + 10 > i64::MAX - d) by (nonlinear_arith)
                        requires q == (i64::MAX - d) / 10, 0 <= d <= 9;
                    assert(v >= q + 1);
                    assert(v * 10 >= q * 10 + 10) by (nonlinear_arith)
                        requires v >= q + 1;
                    assert(v * 10 + d > i64::MAX);
                    lemma_digit_value_grows(cs@, i as int, k as int + 1, j as int);
                    assert(digit_value(cs@, i as int, j as int) > i64::MAX);
                    assert(exp_end(cs@, j as int) == j);
                }
                return Err(ParseError::SyntaxError(i));
            }
            v = v * 10 + d;
        }
        k = k + 1;
    }
    assert(digits_end(cs@, i as int) == digits_end(cs@, i as int + 1));
    proof {
        lemma_digits_run(cs@, i as int + 1);
    }
    assert(!(digit_value(cs@, i as int, j as int) > i64::MAX));
    assert(number_at(cs@, i as int) == Ok::<(TokenView, int), ParseError>((TokenView::Int(v), j as int)));
    Ok((Token::Int(v), j))
}

proof fn lemma_digits_run(cs: Seq<char>, i: int)
    requires
        0 <= i <= cs.len(),
    ensures
        forall|t: int| i <= t < digits_end(cs, i) ==> is_digit(cs[t]) || cs[t] == '_',
        i <= digits_end(cs, i) <= cs.len(),
    decreases cs.len() - i,
{
    if i < cs.len() && (is_digit(cs[i]) || cs[i] == '_') {
        lemma_digits_run(cs, i + 1);
    }
}

/// The character escape `\c` stands for.
fn escape(c: char) -> (r: Option<char>)
    ensures
        r == escape_of(c),
{
    if c == 'n' {
        Some('\n')
    } else if c == 't' {
        Some('\t')
    } else if c == 'r' {
        Some('\r')
    } else if c == '0' {
        Some('\0')
    } else if c == '\\' {
        Some('\\')
    } else if c == '"' {
        Some('"')
    } else if c == '\'' {
        Some('\'')
    } else {
        None
    }
}

/// The string literal whose opening quote is at `i`.
fn string_token(cs: &Vec<char>, i: usize) -> (r: Result<(String, usize), ParseError>)
    requires
        i < cs@.len(),
    ensures
        match r {
            Ok((s, j)) => string_rest(cs@, i as int, i as int + 1, Seq::empty()) == Ok::<(Seq<char>, int), ParseError>((s@, j as int))
                && i < j <= cs@.len(),
            Err(e) => string_rest(cs@, i as int, i as int + 1, Seq::empty()) == Err::<(Seq<char>, int), ParseError>(e),
        },
{
    let n = cs.len();
    let mut acc = String::new();
    let mut j = i + 1;
    while j < cs.len()
        invariant
            i < j <= cs@.len() + 1,
            j <= cs@.len() ==> string_rest(cs@, i as int, i as int + 1, Seq::empty()) == string_rest(cs@, i as int, j as int, acc@),
            j == cs@.len() + 1 ==> string_rest(cs@, i as int, i as int + 1, Seq::empty()) == Err::<(Seq<char>, int), ParseError>(ParseError::SyntaxError(i)),
        decreases cs@.len() + 1 - j,
    {
        let c = cs[j];
        if c == '"' {
            return Ok((acc, j + 1));
        } else if c == '\\' {
            if j + 1 >= cs.len() {
                return Err(ParseError::SyntaxError(i));
            }
            match escape(cs[j + 1]) {
                Some(e) => {
                    push_char(&mut acc, e);
                    j = j + 2;
                    if j > cs.len() {
                        return Err(ParseError::SyntaxError(i));
                    }
                },
                None => {
                    return Err(ParseError::SyntaxError(j));
                },
            }
        } else {
            push_char(&mut acc, c);
            j = j + 1;
        }
    }
    Err(ParseError::SyntaxError(i))
}

/// The keyword the word `cs[i..j]` is, if any.
fn keyword(cs: &Vec<char>, i: usize, j: usize) -> (r: Option<Keyword>)
    requires
        i <= j <= cs@.len(),
    ensures
        r == keyword_of(cs@.subrange(i as int, j as int)),
{
    let n = j - i;
    let ghost w = cs@.subrange(i as int, j as int);
    if n == 2 && cs[i] == 'i' && cs[i + 1] == 'f' {
        Some(Keyword::If)
    } else if n == 2 && cs[i] == 'f' && cs[i + 1] == 'n' {
        Some(Keyword::Fn)
    } else if n == 4 && cs[i] == 'e' && cs[i + 1] == 'l' && cs[i + 2] == 's' && cs[i + 3] == 'e' {
        Some(Keyword::Else)
    } else if n == 4 && cs[i] == 't' && cs[i + 1] == 'r' && cs[i + 2] == 'u' && cs[i + 3] == 'e' {
        Some(Keyword::True)
    } else if n == 4 && cs[i] == 'N' && cs[i + 1] == 'o' && cs[i + 2] == 'n' && cs[i + 3] == 'e' {
        Some(Keyword::NoneLit)
    } else if n == 5 && cs[i] == 'w' && cs[i + 1] == 'h' && cs[i + 2] == 'i' && cs[i + 3] == 'l' && cs[i + 4] == 'e' {
        Some(Keyword::While)
    } else if n == 5 && cs[i] == 'f' && cs[i + 1] == 'a' && cs[i + 2] == 'l' && cs[i + 3] == 's' && cs[i + 4] == 'e' {
        Some(Keyword::False)
    } else if n == 6 && cs[i] == 'r' && cs[i + 1] == 'e' && cs[i + 2] == 't' && cs[i + 3] == 'u' && cs[i + 4] == 'r'
        && cs[i + 5] == 'n' {
        Some(Keyword::Return)
    } else {
        None
    }
}

fn single(c: char) -> (r: Option<Punct>)
    ensures
        r == single_punct(c),
{
    if c == '+' {
        Some(Punct::Plus)
    } else if c == '-' {
        Some(Punct::Minus)
    } else if c == '*' {
        Some(Punct::Star)
    } else if c == '/' {
        Some(Punct::Slash)
    } else if c == '%' {
        Some(Punct::Percent)
    } else if c == '&' {
        Some(Punct::Amp)
    } else if c == '|' {
        Some(Punct::Pipe)
    } else if c == '^' {
        Some(Punct::Caret)
    } else if c == '!' {
        Some(Punct::Bang)
    } else if c == '=' {
        Some(Punct::Assign)
    } else if c == '<' {
        Some(Punct::Lt)
    } else if c == '>' {
        Some(Punct::Gt)
    } else if c == '.' {
        Some(Punct::Dot)
    } else if c == ',' {
        Some(Punct::Comma)
    } else if c == ';' {
        Some(Punct::Semi)
    } else if c == '(' {
        Some(Punct::LParen)
    } else if c == ')' {
        Some(Punct::RParen)
    } else if c == '{' {
        Some(Punct::LBrace)
    } else if c == '}' {
        Some(Punct::RBrace)
    } else if c == '[' {
        Some(Punct::LBracket)
    } else if c == ']' {
        Some(Punct::RBracket)
    } else {
        None
    }
}

fn punct(cs: &Vec<char>, i: usize) -> (r: Option<(Punct, usize)>)
    requires
        i < cs@.len(),
    ensures
        match r {
            Some((p, j)) => punct_at(cs@, i as int) == Some((p, j as int)),
            None => punct_at(cs@, i as int) is None,
        },
{
    let n = cs.len();
    let c = char_at_exec(cs, i);
    let d = if i + 1 < n { cs[i + 1] } else { ' ' };
    let e = if i + 1 < n && i + 2 < n { cs[i + 2] } else { ' ' };
    if c == '<' && d == '<' && e == '=' {
        Some((Punct::ShlEq, i + 3))
    } else if c == '>' && d == '>' && e == '=' {
        Some((Punct::ShrEq, i + 3))
    } else if c == '&' && d == '&' {
        Some((Punct::AndAnd, i + 2))
    } else if c == '|' && d == '|' {
        Some((Punct::OrOr, i + 2))
    } else if c == '=' && d == '=' {
        Some((Punct::EqEq, i + 2))
    } else if c == '!' && d == '=' {
        Some((Punct::Ne, i + 2))
    } else if c == '<' && d == '=' {
        Some((Punct::Le, i + 2))
    } else if c == '>' && d == '=' {
        Some((Punct::Ge, i + 2))
    } else if c == '<' && d == '<' {
        Some((Punct::Shl, i + 2))
    } else if c == '>' && d == '>' {
        Some((Punct::Shr, i + 2))
    } else if c == '+' && d == '=' {
        Some((Punct::PlusEq, i + 2))
    } else if c == '-' && d == '=' {
        Some((Punct::MinusEq, i + 2))
    } else if c == '*' && d == '=' {
        Some((Punct::StarEq, i + 2))
    } else if c == '/' && d == '=' {
        Some((Punct::SlashEq, i + 2))
    } else if c == '%' && d == '=' {
        Some((Punct::PercentEq, i + 2))
    } else if c == '&' && d == '=' {
        Some((Punct::AmpEq, i + 2))
    } else if c == '|' && d == '=' {
        Some((Punct::PipeEq, i + 2))
    } else if c == '^' && d == '=' {
        Some((Punct::CaretEq, i + 2))
    } else {
        match single(c) {
            Some(p) => Some((p, i + 1)),
            None => None,
        }
    }
}

/// The token that starts at `i`.
fn next_token(cs: &Vec<char>, i: usize) -> (r: Result<(Token, usize), ParseError>)
    requires
        i < cs@.len(),
    ensures
        match r {
            Ok((t, j)) => token_at(cs@, i as int) == Ok::<(TokenView, int), ParseError>((t@, j as int)) && j <= cs@.len(),
            Err(e) => token_at(cs@, i as int) == Err::<(TokenView, int), ParseError>(e),
        },
{
    let c = cs[i];
    if ident_start(c) {
        let j = scan_ident(cs, i);
        match keyword(cs, i, j) {
            Some(k) => Ok((Token::Keyword(k), j)),
            None => Ok((Token::Ident(string_of(cs, i, j)), j)),
        }
    } else if digit(c) {
        number_token(cs, i)
    } else if c == '"' {
        match string_token(cs, i) {
            Ok((s, j)) => Ok((Token::Str(s), j)),
            Err(e) => Err(e),
        }
    } else {
        match punct(cs, i) {
            Some((p, j)) => {
                assert(j <= cs@.len()) by {
                    reveal_with_fuel(punct_at, 1);
                }
                Ok((Token::Punct(p), j))
            },
            None => Err(ParseError::SyntaxError(i)),
        }
    }
}

/// Tokens `ts` put before the tokens of a lexing result.
pub open spec fn prepend_tokens(ts: Seq<TokenView>, r: Result<Seq<TokenView>, ParseError>) -> Result<Seq<TokenView>, ParseError> {
    match r {
        Ok(rest) => Ok(ts + rest),
        Err(e) => Err(e),
    }
}

/// The tokens of a source text.
pub fn lex(src: &str) -> (r: Result<Vec<Token>, ParseError>)
    ensures
        match r {
            Ok(ts) => lex_spec(src@) == Ok::<Seq<TokenView>, ParseError>(tokens_view(ts@)),
            Err(e) => lex_spec(src@) == Err::<Seq<TokenView>, ParseError>(e),
        },
{
    let cs = chars_of(src);
    let mut out: Vec<Token> = Vec::new();
    let mut i: usize = 0;
    assert(tokens_view(out@) =~= Seq::<TokenView>::empty());
    while i < cs.len()
        invariant
            i <= cs@.len(),
            cs@ == src@,
            lex_spec(cs@) == prepend_tokens(tokens_view(out@), lex_from(cs@, i as int)),
        decreases cs@.len() - i,
    {
        let c = cs[i];
        if space(c) {
            i = i + 1;
        } else if c == '/' && i + 1 < cs.len() && cs[i + 1] == '/' {
            let j = scan_line(&cs, i + 1);
            assert(line_end(cs@, i as int) == line_end(cs@, i as int + 1));
            i = j;
        } else {
            match next_token(&cs, i) {
                Err(e) => return Err(e),
                Ok((t, j)) => {
                    if j <= i {
                        return Err(ParseError::SyntaxError(i));
                    }
                    assert(j <= cs@.len());
                    let ghost before = tokens_view(out@);
                    let ghost tv = t@;
                    out.push(t);
                    proof {
                        assert(tokens_view(out@) =~= before.push(tv));
                        match lex_from(cs@, j as int) {
                            Ok(rest) => {
                                assert(before + (seq![tv] + rest) =~= before.push(tv) + rest);
                            },
                            Err(_) => {},
                        }
                    }
                    i = j;
                }
            }
        }
    }
    proof {
        assert(tokens_view(out@) + Seq::<TokenView>::empty() =~= tokens_view(out@));
    }
    Ok(out)
}

} // verus!

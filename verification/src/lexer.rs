use vstd::prelude::*;
use crate::text::push_char;
use vstd::std_specs::iter::IteratorSpec;

verus! {

/// The lexical dialect: the language as the classic `cp` front end reads it, or as
/// the `cpc` front end reads it (four more keywords, string literals without
/// their quotes).
#[derive(Debug, Clone, Copy, PartialEq, Eq, Structural)]
pub enum Dialect {
    Classic,
    Cpc,
}

/// A lexical token of the CP language.
#[derive(Debug, Clone, PartialEq)]
pub enum Token {
    // --- Keywords ---
    Let,
    Const,
    Match,
    If,
    Else,
    While,
    Return,
    Spawn,
    Receive,
    Import,
    From,
    As,
    Async,
    Await,
    Fn,
    Class,
    Trait,
    Impl,
    For,
    Enum,
    Interface,
    Implements,
    New,
    ErrorKw,
    Defer,
    ErrDefer,
    Void,
    Export,
    Extends,
    Any,
    // --- Types ---
    I32,
    U32,
    U64,
    F32,
    F64,
    USize,
    Bool,
    String,
    // --- Literals ---
    Ident(std::string::String),
    IntLiteral(i64),
    /// A floating-point literal, kept as its source text.
    FloatLiteral(std::string::String),
    StringLiteral(std::string::String),
    // --- Operators & punctuation ---
    Assign,
    Plus,
    Minus,
    Star,
    Slash,
    Eq,
    NotEq,
    Less,
    Greater,
    LessEq,
    GreaterEq,
    Question,
    Bang,
    DotDot,
    FatArrow,
    Arrow,
    LParen,
    RParen,
    LBrace,
    RBrace,
    LBracket,
    RBracket,
    Comma,
    Colon,
    Semicolon,
    Dot,
    At,
    Ampersand,
    Pipe,
    // --- Zig escape hatch ---
    ZigEscape,
    // --- A slice of input that forms no token ---
    Error,
}

/// What the scanner recognised at a position: a token without payload, or the
/// class of a token whose payload is read from the source text.
pub enum Scan {
    Fixed(Token),
    Ident,
    Int,
    Float,
    Str,
    Error,
}

// ------------------------------------------------------------------
// Character classes
// ------------------------------------------------------------------

pub open spec fn is_alpha(c: char) -> bool {
    ('a' <= c && c <= 'z') || ('A' <= c && c <= 'Z')
}

pub open spec fn is_digit(c: char) -> bool {
    '0' <= c && c <= '9'
}

pub open spec fn is_ident_start(c: char) -> bool {
    is_alpha(c) || c == '_'
}

pub open spec fn is_ident_char(c: char) -> bool {
    is_alpha(c) || is_digit(c) || c == '_'
}

/// The characters the lexer skips between tokens (`\f` is U+000C).
pub open spec fn is_blank(c: char) -> bool {
    c == ' ' || c == '\t' || c == '\n' || c == '\x0c'
}

/// Number of bytes of the UTF-8 encoding of `c`.
pub open spec fn utf8_width(c: char) -> nat {
    if (c as u32) < 0x80 {
        1
    } else if (c as u32) < 0x800 {
        2
    } else if (c as u32) < 0x10000 {
        3
    } else {
        4
    }
}

/// Byte offset of the character at index `i` of `s`.
pub open spec fn byte_offset(s: Seq<char>, i: int) -> nat
    decreases i,
{
    if i <= 0 || s.len() == 0 {
        0
    } else if i > s.len() {
        byte_offset(s, s.len() as int)
    } else {
        byte_offset(s, i - 1) + utf8_width(s[i - 1])
    }
}

// ------------------------------------------------------------------
// Runs
// ------------------------------------------------------------------

/// End of the run of identifier characters that starts at `i`.
pub open spec fn ident_run_end(s: Seq<char>, i: int) -> int
    decreases s.len() - i,
{
    if 0 <= i < s.len() && is_ident_char(s[i]) {
        ident_run_end(s, i + 1)
    } else {
        i
    }
}

/// End of the run of decimal digits that starts at `i`.
pub open spec fn digit_run_end(s: Seq<char>, i: int) -> int
    decreases s.len() - i,
{
    if 0 <= i < s.len() && is_digit(s[i]) {
        digit_run_end(s, i + 1)
    } else {
        i
    }
}

/// First position at or after `i` that is not inside whitespace or a `//` comment.
/// `in_comment` says whether `i` lies inside a comment.
pub open spec fn skip_trivia_from(s: Seq<char>, i: int, in_comment: bool) -> int
    decreases s.len() - i,
{
    if i < 0 || i >= s.len() {
        i
    } else if in_comment {
        if s[i] == '\n' {
            skip_trivia_from(s, i + 1, false)
        } else {
            skip_trivia_from(s, i + 1, true)
        }
    } else if is_blank(s[i]) {
        skip_trivia_from(s, i + 1, false)
    } else if s[i] == '/' && i + 1 < s.len() && s[i + 1] == '/' {
        skip_trivia_from(s, i + 2, true)
    } else {
        i
    }
}

pub open spec fn skip_trivia(s: Seq<char>, i: int) -> int {
    skip_trivia_from(s, i, false)
}

/// Scanning a string literal whose opening quote precedes `j`: `Ok(end)` is the
/// position after the closing quote; `Err(p)` is where the literal broke off
/// (the end of input, or a backslash that escapes a newline or nothing).
pub open spec fn string_scan(s: Seq<char>, j: int) -> Result<int, int>
    decreases s.len() - j,
{
    if j < 0 || j >= s.len() {
        Err(j)
    } else if s[j] == '"' {
        Ok(j + 1)
    } else if s[j] == '\\' {
        if j + 1 < s.len() && s[j + 1] != '\n' {
            string_scan(s, j + 2)
        } else {
            Err(j)
        }
    } else {
        string_scan(s, j + 1)
    }
}

// ------------------------------------------------------------------
// Keywords and punctuation
// ------------------------------------------------------------------

/// The keyword token that the word `w` denotes, if any.
pub open spec fn keyword(w: Seq<char>, d: Dialect) -> Option<Token> {
    if w.len() == 2 { keyword_2(w, d) }
    else if w.len() == 3 { keyword_3(w, d) }
    else if w.len() == 4 { keyword_4(w, d) }
    else if w.len() == 5 { keyword_5(w, d) }
    else if w.len() == 6 { keyword_6(w, d) }
    else if w.len() == 7 { keyword_7(w, d) }
    else if w.len() == 8 { keyword_8(w, d) }
    else if w.len() == 9 { keyword_9(w, d) }
    else if w.len() == 10 { keyword_10(w, d) }
    else { None }
}

pub open spec fn keyword_2(w: Seq<char>, d: Dialect) -> Option<Token> {
    if w =~= seq!['i', 'f'] { Some(Token::If) }
    else if w =~= seq!['a', 's'] { Some(Token::As) }
    else if w =~= seq!['f', 'n'] { Some(Token::Fn) }
    else { None }
}

pub open spec fn keyword_3(w: Seq<char>, d: Dialect) -> Option<Token> {
    if w =~= seq!['l', 'e', 't'] { Some(Token::Let) }
    else if w =~= seq!['f', 'o', 'r'] { Some(Token::For) }
    else if w =~= seq!['n', 'e', 'w'] { Some(Token::New) }
    else if w =~= seq!['i', '3', '2'] { Some(Token::I32) }
    else if w =~= seq!['u', '6', '4'] { Some(Token::U64) }
    else if w =~= seq!['f', '3', '2'] { Some(Token::F32) }
    else if w =~= seq!['f', '6', '4'] { Some(Token::F64) }
    else if d == Dialect::Cpc && w =~= seq!['a', 'n', 'y'] { Some(Token::Any) }
    else if d == Dialect::Cpc && w =~= seq!['u', '3', '2'] { Some(Token::U32) }
    else { None }
}

pub open spec fn keyword_4(w: Seq<char>, d: Dialect) -> Option<Token> {
    if w =~= seq!['e', 'l', 's', 'e'] { Some(Token::Else) }
    else if w =~= seq!['f', 'r', 'o', 'm'] { Some(Token::From) }
    else if w =~= seq!['i', 'm', 'p', 'l'] { Some(Token::Impl) }
    else if w =~= seq!['e', 'n', 'u', 'm'] { Some(Token::Enum) }
    else if w =~= seq!['v', 'o', 'i', 'd'] { Some(Token::Void) }
    else if w =~= seq!['b', 'o', 'o', 'l'] { Some(Token::Bool) }
    else { None }
}

pub open spec fn keyword_5(w: Seq<char>, d: Dialect) -> Option<Token> {
    if w =~= seq!['c', 'o', 'n', 's', 't'] { Some(Token::Const) }
    else if w =~= seq!['m', 'a', 't', 'c', 'h'] { Some(Token::Match) }
    else if w =~= seq!['w', 'h', 'i', 'l', 'e'] { Some(Token::While) }
    else if w =~= seq!['s', 'p', 'a', 'w', 'n'] { Some(Token::Spawn) }
    else if w =~= seq!['a', 's', 'y', 'n', 'c'] { Some(Token::Async) }
    else if w =~= seq!['a', 'w', 'a', 'i', 't'] { Some(Token::Await) }
    else if w =~= seq!['c', 'l', 'a', 's', 's'] { Some(Token::Class) }
    else if w =~= seq!['t', 'r', 'a', 'i', 't'] { Some(Token::Trait) }
    else if w =~= seq!['e', 'r', 'r', 'o', 'r'] { Some(Token::ErrorKw) }
    else if w =~= seq!['d', 'e', 'f', 'e', 'r'] { Some(Token::Defer) }
    else if w =~= seq!['u', 's', 'i', 'z', 'e'] { Some(Token::USize) }
    else { None }
}

pub open spec fn keyword_6(w: Seq<char>, d: Dialect) -> Option<Token> {
    if w =~= seq!['r', 'e', 't', 'u', 'r', 'n'] { Some(Token::Return) }
    else if w =~= seq!['i', 'm', 'p', 'o', 'r', 't'] { Some(Token::Import) }
    else if w =~= seq!['s', 't', 'r', 'i', 'n', 'g'] { Some(Token::String) }
    else if d == Dialect::Cpc && w =~= seq!['e', 'x', 'p', 'o', 'r', 't'] { Some(Token::Export) }
    else { None }
}

pub open spec fn keyword_7(w: Seq<char>, d: Dialect) -> Option<Token> {
    if w =~= seq!['r', 'e', 'c', 'e', 'i', 'v', 'e'] { Some(Token::Receive) }
    else if w =~= seq!['_', '_', 'z', 'i', 'g', '_', '_'] { Some(Token::ZigEscape) }
    else if d == Dialect::Cpc && w =~= seq!['e', 'x', 't', 'e', 'n', 'd', 's'] { Some(Token::Extends) }
    else { None }
}

pub open spec fn keyword_8(w: Seq<char>, d: Dialect) -> Option<Token> {
    if w =~= seq!['e', 'r', 'r', 'd', 'e', 'f', 'e', 'r'] { Some(Token::ErrDefer) }
    else { None }
}

pub open spec fn keyword_9(w: Seq<char>, d: Dialect) -> Option<Token> {
    if w =~= seq!['i', 'n', 't', 'e', 'r', 'f', 'a', 'c', 'e'] { Some(Token::Interface) }
    else { None }
}

pub open spec fn keyword_10(w: Seq<char>, d: Dialect) -> Option<Token> {
    if w =~= seq!['i', 'm', 'p', 'l', 'e', 'm', 'e', 'n', 't', 's'] { Some(Token::Implements) }
    else { None }
}

/// The punctuation token that starts at `i` (longest match), with its end.
pub open spec fn punct(s: Seq<char>, i: int) -> Option<(Token, int)> {
    let c = s[i];
    let next = if i + 1 < s.len() { s[i + 1] } else { '\0' };
    let has_next = i + 1 < s.len();
    if c == '=' {
        if has_next && next == '=' { Some((Token::Eq, i + 2)) }
        else if has_next && next == '>' { Some((Token::FatArrow, i + 2)) }
        else { Some((Token::Assign, i + 1)) }
    } else if c == '!' {
        if has_next && next == '=' { Some((Token::NotEq, i + 2)) } else { Some((Token::Bang, i + 1)) }
    } else if c == '<' {
        if has_next && next == '=' { Some((Token::LessEq, i + 2)) } else { Some((Token::Less, i + 1)) }
    } else if c == '>' {
        if has_next && next == '=' { Some((Token::GreaterEq, i + 2)) } else { Some((Token::Greater, i + 1)) }
    } else if c == '-' {
        if has_next && next == '>' { Some((Token::Arrow, i + 2)) } else { Some((Token::Minus, i + 1)) }
    } else if c == '+' { Some((Token::Plus, i + 1)) }
    else if c == '*' { Some((Token::Star, i + 1)) }
    else if c == '/' { Some((Token::Slash, i + 1)) }
    else if c == '?' { Some((Token::Question, i + 1)) }
    else if c == '(' { Some((Token::LParen, i + 1)) }
    else if c == ')' { Some((Token::RParen, i + 1)) }
    else if c == '{' { Some((Token::LBrace, i + 1)) }
    else if c == '}' { Some((Token::RBrace, i + 1)) }
    else if c == '[' { Some((Token::LBracket, i + 1)) }
    else if c == ']' { Some((Token::RBracket, i + 1)) }
    else if c == ',' { Some((Token::Comma, i + 1)) }
    else if c == ':' { Some((Token::Colon, i + 1)) }
    else if c == ';' { Some((Token::Semicolon, i + 1)) }
    else if c == '@' { Some((Token::At, i + 1)) }
    else if c == '&' { Some((Token::Ampersand, i + 1)) }
    else if c == '|' { Some((Token::Pipe, i + 1)) }
    else { None }
}

/// The longest token that starts at `i` (which holds no trivia), and its end.
pub open spec fn scan(s: Seq<char>, i: int, d: Dialect) -> (Scan, int) {
    let c = s[i];
    if is_ident_start(c) {
        let e = ident_run_end(s, i + 1);
        match keyword(s.subrange(i, e), d) {
            Some(t) => (Scan::Fixed(t), e),
            None => (Scan::Ident, e),
        }
    } else if is_digit(c) {
        let e = digit_run_end(s, i + 1);
        if e + 1 < s.len() && s[e] == '.' && is_digit(s[e + 1]) {
            (Scan::Float, digit_run_end(s, e + 2))
        } else {
            (Scan::Int, e)
        }
    } else if c == '.' {
        if i + 1 < s.len() && is_digit(s[i + 1]) {
            (Scan::Float, digit_run_end(s, i + 2))
        } else if i + 1 < s.len() && s[i + 1] == '.' {
            (Scan::Fixed(Token::DotDot), i + 2)
        } else {
            (Scan::Fixed(Token::Dot), i + 1)
        }
    } else if c == '"' {
        match string_scan(s, i + 1) {
            Ok(e) => (Scan::Str, e),
            Err(e) => (Scan::Error, e),
        }
    } else {
        match punct(s, i) {
            Some((t, e)) => (Scan::Fixed(t), e),
            None => (Scan::Error, i + 1),
        }
    }
}

/// The next token at or after `i`: its class, start and end (character indices).
pub open spec fn next_token(s: Seq<char>, i: int, d: Dialect) -> Option<(Scan, int, int)> {
    let a = skip_trivia(s, i);
    if a >= s.len() {
        None
    } else {
        let (k, b) = scan(s, a, d);
        Some((k, a, b))
    }
}

/// The value of a string of decimal digits.
pub open spec fn decimal_value(w: Seq<char>) -> nat
    decreases w.len(),
{
    if w.len() == 0 {
        0
    } else {
        decimal_value(w.drop_last()) * 10 + ((w.last() as u32) - ('0' as u32)) as nat
    }
}

/// The text a string literal token carries in dialect `d`.
pub open spec fn string_payload(lexeme: Seq<char>, d: Dialect) -> Seq<char> {
    if d == Dialect::Cpc {
        lexeme.subrange(1, lexeme.len() - 1)
    } else {
        lexeme
    }
}

/// `t` is the token that the lexeme `s[a..b)` of class `k` denotes.
pub open spec fn token_denotes(t: Token, s: Seq<char>, k: Scan, a: int, b: int, d: Dialect) -> bool {
    let lexeme = s.subrange(a, b);
    match k {
        Scan::Fixed(f) => t == f,
        Scan::Ident => t is Ident && t->Ident_0@ == lexeme,
        Scan::Int => if decimal_value(lexeme) <= i64::MAX {
            t == Token::IntLiteral(decimal_value(lexeme) as i64)
        } else {
            t == Token::Error
        },
        Scan::Float => t is FloatLiteral && t->FloatLiteral_0@ == lexeme,
        Scan::Str => t is StringLiteral && t->StringLiteral_0@ == string_payload(lexeme, d),
        Scan::Error => t == Token::Error,
    }
}

/// The whole token stream of `s` from character index `i`: `(class, start, end)`.
pub open spec fn spec_tokens_from(s: Seq<char>, i: int, d: Dialect) -> Seq<(Scan, int, int)>
    decreases s.len() - i,
{
    match next_token(s, i, d) {
        None => Seq::empty(),
        Some((k, a, b)) => if i < b && b <= s.len() {
            seq![(k, a, b)] + spec_tokens_from(s, b, d)
        } else {
            Seq::empty()
        },
    }
}

/// The token stream of the whole source `s`.
pub open spec fn spec_tokens(s: Seq<char>, d: Dialect) -> Seq<(Scan, int, int)> {
    spec_tokens_from(s, 0, d)
}

// ------------------------------------------------------------------
// Lemmas
// ------------------------------------------------------------------

pub proof fn lemma_ident_run_end(s: Seq<char>, i: int)
    requires 0 <= i <= s.len(),
    ensures i <= ident_run_end(s, i) <= s.len(),
    decreases s.len() - i,
{
    if i < s.len() && is_ident_char(s[i]) {
        lemma_ident_run_end(s, i + 1);
    }
}

pub proof fn lemma_digit_run_end(s: Seq<char>, i: int)
    requires 0 <= i <= s.len(),
    ensures i <= digit_run_end(s, i) <= s.len(),
        forall|k: int| i <= k < digit_run_end(s, i) ==> is_digit(#[trigger] s[k]),
    decreases s.len() - i,
{
    if i < s.len() && is_digit(s[i]) {
        lemma_digit_run_end(s, i + 1);
    }
}

pub proof fn lemma_skip_trivia(s: Seq<char>, i: int, c: bool)
    requires 0 <= i <= s.len(),
    ensures i <= skip_trivia_from(s, i, c) <= s.len(),
    decreases s.len() - i,
{
    if i < s.len() {
        if c {
            if s[i] == '\n' { lemma_skip_trivia(s, i + 1, false); } else { lemma_skip_trivia(s, i + 1, true); }
        } else if is_blank(s[i]) {
            lemma_skip_trivia(s, i + 1, false);
        } else if s[i] == '/' && i + 1 < s.len() && s[i + 1] == '/' {
            lemma_skip_trivia(s, i + 2, true);
        }
    }
}

pub proof fn lemma_string_scan(s: Seq<char>, j: int)
    requires 1 <= j <= s.len(),
    ensures
        match string_scan(s, j) {
            Ok(e) => j < e <= s.len() && s[e - 1] == '"',
            Err(e) => j <= e <= s.len(),
        },
    decreases s.len() - j,
{
    if j < s.len() && s[j] != '"' {
        if s[j] == '\\' {
            if j + 1 < s.len() && s[j + 1] != '\n' {
                lemma_string_scan(s, j + 2);
            }
        } else {
            lemma_string_scan(s, j + 1);
        }
    }
}

pub proof fn lemma_scan(s: Seq<char>, i: int, d: Dialect)
    requires 0 <= i < s.len(),
    ensures i < scan(s, i, d).1 <= s.len(),
{
    let c = s[i];
    if is_ident_start(c) {
        lemma_ident_run_end(s, i + 1);
    } else if is_digit(c) {
        lemma_digit_run_end(s, i + 1);
        let e = digit_run_end(s, i + 1);
        if e + 1 < s.len() {
            lemma_digit_run_end(s, e + 2);
        }
    } else if c == '.' {
        if i + 1 < s.len() {
            lemma_digit_run_end(s, i + 2);
        }
    } else if c == '"' {
        lemma_string_scan(s, i + 1);
    }
}

pub proof fn lemma_next_token(s: Seq<char>, i: int, d: Dialect)
    requires 0 <= i <= s.len(),
    ensures
        match next_token(s, i, d) {
            None => skip_trivia(s, i) == s.len(),
            Some((k, a, b)) => i <= a < b <= s.len() && a == skip_trivia(s, i) && (k, b) == scan(s, a, d),
        },
{
    lemma_skip_trivia(s, i, false);
    let a = skip_trivia(s, i);
    if a < s.len() {
        lemma_scan(s, a, d);
    }
}

pub proof fn lemma_byte_offset_step(s: Seq<char>, i: int)
    requires 0 <= i < s.len(),
    ensures byte_offset(s, i + 1) == byte_offset(s, i) + utf8_width(s[i]),
{
}

pub proof fn lemma_byte_offset_mono(s: Seq<char>, i: int, j: int)
    requires 0 <= i <= j <= s.len(),
    ensures byte_offset(s, i) <= byte_offset(s, j),
    decreases j - i,
{
    if i < j {
        lemma_byte_offset_mono(s, i, j - 1);
    }
}

pub proof fn lemma_decimal_step(w: Seq<char>, c: char)
    ensures decimal_value(w.push(c)) == decimal_value(w) * 10 + ((c as u32) - ('0' as u32)) as nat,
{
    assert(w.push(c).drop_last() =~= w);
}

pub proof fn lemma_decimal_mono(w: Seq<char>, c: char)
    requires is_digit(c),
    ensures decimal_value(w.push(c)) >= decimal_value(w),
{
    lemma_decimal_step(w, c);
}


// ------------------------------------------------------------------
// Executable lexer
// ------------------------------------------------------------------

/// The characters `s[a..b)` as a `String`.
fn string_of(s: &Vec<char>, a: usize, b: usize) -> (r: std::string::String)
    requires
        a <= b <= s.len(),
    ensures
        r@ == s@.subrange(a as int, b as int),
{
    let mut r = std::string::String::new();
    let mut k: usize = a;
    while k < b
        invariant
            a <= k <= b <= s.len(),
            r@ == s@.subrange(a as int, k as int),
        decreases b - k,
    {
        push_char(&mut r, s[k]);
        assert(s@.subrange(a as int, k + 1) =~= s@.subrange(a as int, k as int).push(s@[k as int]));
        k = k + 1;
    }
    r
}

fn is_alpha_exec(c: char) -> (r: bool)
    ensures r == is_alpha(c),
{
    ('a' <= c && c <= 'z') || ('A' <= c && c <= 'Z')
}

fn is_digit_exec(c: char) -> (r: bool)
    ensures r == is_digit(c),
{
    '0' <= c && c <= '9'
}

fn is_ident_char_exec(c: char) -> (r: bool)
    ensures r == is_ident_char(c),
{
    is_alpha_exec(c) || is_digit_exec(c) || c == '_'
}

fn is_blank_exec(c: char) -> (r: bool)
    ensures r == is_blank(c),
{
    c == ' ' || c == '\t' || c == '\n' || c == '\x0c'
}

/// The number of bytes `c` takes in UTF-8.
pub fn utf8_width_exec(c: char) -> (r: usize)
    ensures r == utf8_width(c),
{
    let v: u32 = c as u32;
    if v < 0x80 {
        1
    } else if v < 0x800 {
        2
    } else if v < 0x10000 {
        3
    } else {
        4
    }
}

fn ident_run_end_exec(s: &Vec<char>, i: usize) -> (r: usize)
    requires i <= s.len(),
    ensures r == ident_run_end(s@, i as int), i <= r <= s.len(),
{
    let mut j: usize = i;
    while j < s.len() && is_ident_char_exec(s[j])
        invariant
            i <= j <= s.len(),
            ident_run_end(s@, i as int) == ident_run_end(s@, j as int),
        decreases s.len() - j,
    {
        j = j + 1;
    }
    j
}

fn digit_run_end_exec(s: &Vec<char>, i: usize) -> (r: usize)
    requires i <= s.len(),
    ensures r == digit_run_end(s@, i as int), i <= r <= s.len(),
{
    let mut j: usize = i;
    while j < s.len() && is_digit_exec(s[j])
        invariant
            i <= j <= s.len(),
            digit_run_end(s@, i as int) == digit_run_end(s@, j as int),
        decreases s.len() - j,
    {
        j = j + 1;
    }
    j
}

fn skip_trivia_exec(s: &Vec<char>, i: usize) -> (r: usize)
    requires i <= s.len(),
    ensures r == skip_trivia(s@, i as int),
{
    let mut j: usize = i;
    let mut in_comment: bool = false;
    while j < s.len()
        invariant
            i <= j <= s.len(),
            skip_trivia_from(s@, i as int, false) == skip_trivia_from(s@, j as int, in_comment),
        decreases s.len() - j,
    {
        let c = s[j];
        if in_comment {
            if c == '\n' {
                in_comment = false;
            }
            j = j + 1;
        } else if is_blank_exec(c) {
            j = j + 1;
        } else if c == '/' && j + 1 < s.len() && s[j + 1] == '/' {
            in_comment = true;
            j = j + 2;
        } else {
            return j;
        }
    }
    j
}

fn string_scan_exec(s: &Vec<char>, j0: usize) -> (r: Result<usize, usize>)
    requires 1 <= j0 <= s.len(),
    ensures
        r matches Ok(e) ==> string_scan(s@, j0 as int) == Ok::<int, int>(e as int),
        r matches Err(e) ==> string_scan(s@, j0 as int) == Err::<int, int>(e as int),
{
    let mut j: usize = j0;
    while j < s.len()
        invariant
            j0 <= j <= s.len(),
            string_scan(s@, j0 as int) == string_scan(s@, j as int),
        decreases s.len() - j,
    {
        let c = s[j];
        if c == '"' {
            return Ok(j + 1);
        } else if c == '\\' {
            if j + 1 < s.len() && s[j + 1] != '\n' {
                j = j + 2;
            } else {
                return Err(j);
            }
        } else {
            j = j + 1;
        }
    }
    Err(j)
}

fn punct_exec(s: &Vec<char>, i: usize) -> (r: Option<(Token, usize)>)
    requires i < s.len(),
    ensures
        match punct(s@, i as int) {
            Some((t, e)) => r == Some((t, e as usize)) && (e == i + 1 || e == i + 2),
            None => r is None,
        },
{
    let c = s[i];
    let has_next = i + 1 < s.len();
    let next = if has_next { s[i + 1] } else { '\0' };
    if c == '=' {
        if has_next && next == '=' { Some((Token::Eq, i + 2)) }
        else if has_next && next == '>' { Some((Token::FatArrow, i + 2)) }
        else { Some((Token::Assign, i + 1)) }
    } else if c == '!' {
        if has_next && next == '=' { Some((Token::NotEq, i + 2)) } else { Some((Token::Bang, i + 1)) }
    } else if c == '<' {
        if has_next && next == '=' { Some((Token::LessEq, i + 2)) } else { Some((Token::Less, i + 1)) }
    } else if c == '>' {
        if has_next && next == '=' { Some((Token::GreaterEq, i + 2)) } else { Some((Token::Greater, i + 1)) }
    } else if c == '-' {
        if has_next && next == '>' { Some((Token::Arrow, i + 2)) } else { Some((Token::Minus, i + 1)) }
    } else if c == '+' { Some((Token::Plus, i + 1)) }
    else if c == '*' { Some((Token::Star, i + 1)) }
    else if c == '/' { Some((Token::Slash, i + 1)) }
    else if c == '?' { Some((Token::Question, i + 1)) }
    else if c == '(' { Some((Token::LParen, i + 1)) }
    else if c == ')' { Some((Token::RParen, i + 1)) }
    else if c == '{' { Some((Token::LBrace, i + 1)) }
    else if c == '}' { Some((Token::RBrace, i + 1)) }
    else if c == '[' { Some((Token::LBracket, i + 1)) }
    else if c == ']' { Some((Token::RBracket, i + 1)) }
    else if c == ',' { Some((Token::Comma, i + 1)) }
    else if c == ':' { Some((Token::Colon, i + 1)) }
    else if c == ';' { Some((Token::Semicolon, i + 1)) }
    else if c == '@' { Some((Token::At, i + 1)) }
    else if c == '&' { Some((Token::Ampersand, i + 1)) }
    else if c == '|' { Some((Token::Pipe, i + 1)) }
    else { None }
}

proof fn lemma_decimal_prefix_mono(s: Seq<char>, a: int, k: int, b: int)
    requires
        0 <= a <= k <= b <= s.len(),
        forall|m: int| a <= m < b ==> is_digit(#[trigger] s[m]),
    ensures
        decimal_value(s.subrange(a, k)) <= decimal_value(s.subrange(a, b)),
    decreases b - k,
{
    if k < b {
        lemma_decimal_prefix_mono(s, a, k + 1, b);
        assert(s.subrange(a, k + 1) =~= s.subrange(a, k).push(s[k]));
        lemma_decimal_mono(s.subrange(a, k), s[k]);
    }
}

/// The value of the decimal digits `s[a..b)`, or `None` when it exceeds `i64::MAX`.
fn parse_decimal(s: &Vec<char>, a: usize, b: usize) -> (r: Option<i64>)
    requires
        a <= b <= s.len(),
        forall|m: int| a <= m < b ==> is_digit(#[trigger] s@[m]),
    ensures
        match r {
            Some(v) => decimal_value(s@.subrange(a as int, b as int)) <= i64::MAX
                && v == decimal_value(s@.subrange(a as int, b as int)),
            None => decimal_value(s@.subrange(a as int, b as int)) > i64::MAX,
        },
{
    let mut acc: i64 = 0;
    let mut k: usize = a;
    assert(s@.subrange(a as int, a as int) =~= Seq::<char>::empty());
    while k < b
        invariant
            a <= k <= b <= s.len(),
            forall|m: int| a <= m < b ==> is_digit(#[trigger] s@[m]),
            0 <= acc,
            acc == decimal_value(s@.subrange(a as int, k as int)),
        decreases b - k,
    {
        let c = s[k];
        assert(is_digit(s@[k as int]));
        let dg: i64 = ((c as u32) - ('0' as u32)) as i64;
        proof {
            assert(s@.subrange(a as int, k + 1) =~= s@.subrange(a as int, k as int).push(c));
            lemma_decimal_step(s@.subrange(a as int, k as int), c);
        }
        if acc > (i64::MAX - dg) / 10 {
            proof {
                assert(acc * 10 + dg > i64::MAX) by (nonlinear_arith)
                    requires acc > (i64::MAX - dg) / 10, 0 <= dg <= 9;
                lemma_decimal_prefix_mono(s@, a as int, k + 1, b as int);
            }
            return None;
        }
        assert(acc * 10 + dg <= i64::MAX) by (nonlinear_arith)
            requires acc <= (i64::MAX - dg) / 10, 0 <= dg <= 9, 0 <= acc;
        acc = acc * 10 + dg;
        k = k + 1;
    }
    Some(acc)
}

/// The keyword token that `w` spells, if any.
fn keyword_exec(w: &Vec<char>, d: Dialect) -> (r: Option<Token>)
    ensures r == keyword(w@, d),
{
    let n: usize = w.len();
    if n == 2 {
        return keyword_exec_2(w, d);
    }
    if n == 3 {
        return keyword_exec_3(w, d);
    }
    if n == 4 {
        return keyword_exec_4(w, d);
    }
    if n == 5 {
        return keyword_exec_5(w, d);
    }
    if n == 6 {
        return keyword_exec_6(w, d);
    }
    if n == 7 {
        return keyword_exec_7(w, d);
    }
    if n == 8 {
        return keyword_exec_8(w, d);
    }
    if n == 9 {
        return keyword_exec_9(w, d);
    }
    if n == 10 {
        return keyword_exec_10(w, d);
    }
    None
}

fn keyword_exec_2(w: &Vec<char>, d: Dialect) -> (r: Option<Token>)
    requires w.len() == 2,
    ensures r == keyword_2(w@, d),
{
    if w[0] == 'i' && w[1] == 'f' {
        assert(w@ =~= seq!['i', 'f']);
        return Some(Token::If);
    }
    if w[0] == 'a' && w[1] == 's' {
        assert(w@ =~= seq!['a', 's']);
        return Some(Token::As);
    }
    if w[0] == 'f' && w[1] == 'n' {
        assert(w@ =~= seq!['f', 'n']);
        return Some(Token::Fn);
    }
    None
}

fn keyword_exec_3(w: &Vec<char>, d: Dialect) -> (r: Option<Token>)
    requires w.len() == 3,
    ensures r == keyword_3(w@, d),
{
    if w[0] == 'l' && w[1] == 'e' && w[2] == 't' {
        assert(w@ =~= seq!['l', 'e', 't']);
        return Some(Token::Let);
    }
    if w[0] == 'f' && w[1] == 'o' && w[2] == 'r' {
        assert(w@ =~= seq!['f', 'o', 'r']);
        return Some(Token::For);
    }
    if w[0] == 'n' && w[1] == 'e' && w[2] == 'w' {
        assert(w@ =~= seq!['n', 'e', 'w']);
        return Some(Token::New);
    }
    if w[0] == 'i' && w[1] == '3' && w[2] == '2' {
        assert(w@ =~= seq!['i', '3', '2']);
        return Some(Token::I32);
    }
    if w[0] == 'u' && w[1] == '6' && w[2] == '4' {
        assert(w@ =~= seq!['u', '6', '4']);
        return Some(Token::U64);
    }
    if w[0] == 'f' && w[1] == '3' && w[2] == '2' {
        assert(w@ =~= seq!['f', '3', '2']);
        return Some(Token::F32);
    }
    if w[0] == 'f' && w[1] == '6' && w[2] == '4' {
        assert(w@ =~= seq!['f', '6', '4']);
        return Some(Token::F64);
    }
    if d == Dialect::Cpc && w[0] == 'a' && w[1] == 'n' && w[2] == 'y' {
        assert(w@ =~= seq!['a', 'n', 'y']);
        return Some(Token::Any);
    }
    if d == Dialect::Cpc && w[0] == 'u' && w[1] == '3' && w[2] == '2' {
        assert(w@ =~= seq!['u', '3', '2']);
        return Some(Token::U32);
    }
    None
}

fn keyword_exec_4(w: &Vec<char>, d: Dialect) -> (r: Option<Token>)
    requires w.len() == 4,
    ensures r == keyword_4(w@, d),
{
    if w[0] == 'e' && w[1] == 'l' && w[2] == 's' && w[3] == 'e' {
        assert(w@ =~= seq!['e', 'l', 's', 'e']);
        return Some(Token::Else);
    }
    if w[0] == 'f' && w[1] == 'r' && w[2] == 'o' && w[3] == 'm' {
        assert(w@ =~= seq!['f', 'r', 'o', 'm']);
        return Some(Token::From);
    }
    if w[0] == 'i' && w[1] == 'm' && w[2] == 'p' && w[3] == 'l' {
        assert(w@ =~= seq!['i', 'm', 'p', 'l']);
        return Some(Token::Impl);
    }
    if w[0] == 'e' && w[1] == 'n' && w[2] == 'u' && w[3] == 'm' {
        assert(w@ =~= seq!['e', 'n', 'u', 'm']);
        return Some(Token::Enum);
    }
    if w[0] == 'v' && w[1] == 'o' && w[2] == 'i' && w[3] == 'd' {
        assert(w@ =~= seq!['v', 'o', 'i', 'd']);
        return Some(Token::Void);
    }
    if w[0] == 'b' && w[1] == 'o' && w[2] == 'o' && w[3] == 'l' {
        assert(w@ =~= seq!['b', 'o', 'o', 'l']);
        return Some(Token::Bool);
    }
    None
}

fn keyword_exec_5(w: &Vec<char>, d: Dialect) -> (r: Option<Token>)
    requires w.len() == 5,
    ensures r == keyword_5(w@, d),
{
    if w[0] == 'c' && w[1] == 'o' && w[2] == 'n' && w[3] == 's' && w[4] == 't' {
        assert(w@ =~= seq!['c', 'o', 'n', 's', 't']);
        return Some(Token::Const);
    }
    if w[0] == 'm' && w[1] == 'a' && w[2] == 't' && w[3] == 'c' && w[4] == 'h' {
        assert(w@ =~= seq!['m', 'a', 't', 'c', 'h']);
        return Some(Token::Match);
    }
    if w[0] == 'w' && w[1] == 'h' && w[2] == 'i' && w[3] == 'l' && w[4] == 'e' {
        assert(w@ =~= seq!['w', 'h', 'i', 'l', 'e']);
        return Some(Token::While);
    }
    if w[0] == 's' && w[1] == 'p' && w[2] == 'a' && w[3] == 'w' && w[4] == 'n' {
        assert(w@ =~= seq!['s', 'p', 'a', 'w', 'n']);
        return Some(Token::Spawn);
    }
    if w[0] == 'a' && w[1] == 's' && w[2] == 'y' && w[3] == 'n' && w[4] == 'c' {
        assert(w@ =~= seq!['a', 's', 'y', 'n', 'c']);
        return Some(Token::Async);
    }
    if w[0] == 'a' && w[1] == 'w' && w[2] == 'a' && w[3] == 'i' && w[4] == 't' {
        assert(w@ =~= seq!['a', 'w', 'a', 'i', 't']);
        return Some(Token::Await);
    }
    if w[0] == 'c' && w[1] == 'l' && w[2] == 'a' && w[3] == 's' && w[4] == 's' {
        assert(w@ =~= seq!['c', 'l', 'a', 's', 's']);
        return Some(Token::Class);
    }
    if w[0] == 't' && w[1] == 'r' && w[2] == 'a' && w[3] == 'i' && w[4] == 't' {
        assert(w@ =~= seq!['t', 'r', 'a', 'i', 't']);
        return Some(Token::Trait);
    }
    if w[0] == 'e' && w[1] == 'r' && w[2] == 'r' && w[3] == 'o' && w[4] == 'r' {
        assert(w@ =~= seq!['e', 'r', 'r', 'o', 'r']);
        return Some(Token::ErrorKw);
    }
    if w[0] == 'd' && w[1] == 'e' && w[2] == 'f' && w[3] == 'e' && w[4] == 'r' {
        assert(w@ =~= seq!['d', 'e', 'f', 'e', 'r']);
        return Some(Token::Defer);
    }
    if w[0] == 'u' && w[1] == 's' && w[2] == 'i' && w[3] == 'z' && w[4] == 'e' {
        assert(w@ =~= seq!['u', 's', 'i', 'z', 'e']);
        return Some(Token::USize);
    }
    None
}

fn keyword_exec_6(w: &Vec<char>, d: Dialect) -> (r: Option<Token>)
    requires w.len() == 6,
    ensures r == keyword_6(w@, d),
{
    if w[0] == 'r' && w[1] == 'e' && w[2] == 't' && w[3] == 'u' && w[4] == 'r' && w[5] == 'n' {
        assert(w@ =~= seq!['r', 'e', 't', 'u', 'r', 'n']);
        return Some(Token::Return);
    }
    if w[0] == 'i' && w[1] == 'm' && w[2] == 'p' && w[3] == 'o' && w[4] == 'r' && w[5] == 't' {
        assert(w@ =~= seq!['i', 'm', 'p', 'o', 'r', 't']);
        return Some(Token::Import);
    }
    if w[0] == 's' && w[1] == 't' && w[2] == 'r' && w[3] == 'i' && w[4] == 'n' && w[5] == 'g' {
        assert(w@ =~= seq!['s', 't', 'r', 'i', 'n', 'g']);
        return Some(Token::String);
    }
    if d == Dialect::Cpc && w[0] == 'e' && w[1] == 'x' && w[2] == 'p' && w[3] == 'o' && w[4] == 'r' && w[5] == 't' {
        assert(w@ =~= seq!['e', 'x', 'p', 'o', 'r', 't']);
        return Some(Token::Export);
    }
    None
}

fn keyword_exec_7(w: &Vec<char>, d: Dialect) -> (r: Option<Token>)
    requires w.len() == 7,
    ensures r == keyword_7(w@, d),
{
    if w[0] == 'r' && w[1] == 'e' && w[2] == 'c' && w[3] == 'e' && w[4] == 'i' && w[5] == 'v' && w[6] == 'e' {
        assert(w@ =~= seq!['r', 'e', 'c', 'e', 'i', 'v', 'e']);
        return Some(Token::Receive);
    }
    if w[0] == '_' && w[1] == '_' && w[2] == 'z' && w[3] == 'i' && w[4] == 'g' && w[5] == '_' && w[6] == '_' {
        assert(w@ =~= seq!['_', '_', 'z', 'i', 'g', '_', '_']);
        return Some(Token::ZigEscape);
    }
    if d == Dialect::Cpc && w[0] == 'e' && w[1] == 'x' && w[2] == 't' && w[3] == 'e' && w[4] == 'n' && w[5] == 'd' && w[6] == 's' {
        assert(w@ =~= seq!['e', 'x', 't', 'e', 'n', 'd', 's']);
        return Some(Token::Extends);
    }
    None
}

fn keyword_exec_8(w: &Vec<char>, d: Dialect) -> (r: Option<Token>)
    requires w.len() == 8,
    ensures r == keyword_8(w@, d),
{
    if w[0] == 'e' && w[1] == 'r' && w[2] == 'r' && w[3] == 'd' && w[4] == 'e' && w[5] == 'f' && w[6] == 'e' && w[7] == 'r' {
        assert(w@ =~= seq!['e', 'r', 'r', 'd', 'e', 'f', 'e', 'r']);
        return Some(Token::ErrDefer);
    }
    None
}

fn keyword_exec_9(w: &Vec<char>, d: Dialect) -> (r: Option<Token>)
    requires w.len() == 9,
    ensures r == keyword_9(w@, d),
{
    if w[0] == 'i' && w[1] == 'n' && w[2] == 't' && w[3] == 'e' && w[4] == 'r' && w[5] == 'f' && w[6] == 'a' && w[7] == 'c' && w[8] == 'e' {
        assert(w@ =~= seq!['i', 'n', 't', 'e', 'r', 'f', 'a', 'c', 'e']);
        return Some(Token::Interface);
    }
    None
}

fn keyword_exec_10(w: &Vec<char>, d: Dialect) -> (r: Option<Token>)
    requires w.len() == 10,
    ensures r == keyword_10(w@, d),
{
    if w[0] == 'i' && w[1] == 'm' && w[2] == 'p' && w[3] == 'l' && w[4] == 'e' && w[5] == 'm' && w[6] == 'e' && w[7] == 'n' && w[8] == 't' && w[9] == 's' {
        assert(w@ =~= seq!['i', 'm', 'p', 'l', 'e', 'm', 'e', 'n', 't', 's']);
        return Some(Token::Implements);
    }
    None
}

/// The token that starts at `i` (which holds no trivia), and its end.
fn scan_exec(s: &Vec<char>, i: usize, d: Dialect) -> (r: (Token, usize))
    requires i < s.len(),
    ensures
        r.1 == scan(s@, i as int, d).1,
        token_denotes(r.0, s@, scan(s@, i as int, d).0, i as int, r.1 as int, d),
{
    proof { lemma_scan(s@, i as int, d); }
    let c = s[i];
    if is_alpha_exec(c) || c == '_' {
        let e = ident_run_end_exec(s, i + 1);
        let w = string_of(s, i, e);
        let mut chars: Vec<char> = Vec::new();
        let mut k: usize = i;
        while k < e
            invariant
                i <= k <= e <= s.len(),
                chars@ == s@.subrange(i as int, k as int),
            decreases e - k,
        {
            chars.push(s[k]);
            assert(s@.subrange(i as int, k + 1) =~= s@.subrange(i as int, k as int).push(s@[k as int]));
            k = k + 1;
        }
        match keyword_exec(&chars, d) {
            Some(t) => (t, e),
            None => (Token::Ident(w), e),
        }
    } else if is_digit_exec(c) {
        let e = digit_run_end_exec(s, i + 1);
        proof { lemma_digit_run_end(s@, i + 1); }
        assert(forall|m: int| i <= m < e ==> is_digit(#[trigger] s@[m]));
        if s.len() - e > 1 && s[e] == '.' && is_digit_exec(s[e + 1]) {
            let f = digit_run_end_exec(s, e + 2);
            (Token::FloatLiteral(string_of(s, i, f)), f)
        } else {
            match parse_decimal(s, i, e) {
                Some(v) => (Token::IntLiteral(v), e),
                None => (Token::Error, e),
            }
        }
    } else if c == '.' {
        if i + 1 < s.len() && is_digit_exec(s[i + 1]) {
            let f = digit_run_end_exec(s, i + 2);
            (Token::FloatLiteral(string_of(s, i, f)), f)
        } else if i + 1 < s.len() && s[i + 1] == '.' {
            (Token::DotDot, i + 2)
        } else {
            (Token::Dot, i + 1)
        }
    } else if c == '"' {
        proof { lemma_string_scan(s@, i + 1); }
        match string_scan_exec(s, i + 1) {
            Ok(e) => {
                let text = match d {
                    Dialect::Cpc => string_of(s, i + 1, e - 1),
                    Dialect::Classic => string_of(s, i, e),
                };
                proof {
                    assert(s@.subrange(i as int, e as int).subrange(1, (e - i) - 1)
                        =~= s@.subrange(i + 1, e - 1));
                }
                (Token::StringLiteral(text), e)
            },
            Err(e) => (Token::Error, e),
        }
    } else {
        match punct_exec(s, i) {
            Some((t, e)) => (t, e),
            None => (Token::Error, i + 1),
        }
    }
}

/// Byte offset of character index `j`, given the byte offset `bi` of index `i`.
fn byte_offset_exec(s: &Vec<char>, i: usize, j: usize, bi: usize) -> (r: usize)
    requires
        i <= j <= s.len(),
        bi == byte_offset(s@, i as int),
        byte_offset(s@, s@.len() as int) <= usize::MAX,
    ensures
        r == byte_offset(s@, j as int),
{
    let mut k: usize = i;
    let mut acc: usize = bi;
    while k < j
        invariant
            i <= k <= j <= s.len(),
            acc == byte_offset(s@, k as int),
            byte_offset(s@, s@.len() as int) <= usize::MAX,
        decreases j - k,
    {
        proof {
            lemma_byte_offset_step(s@, k as int);
            lemma_byte_offset_mono(s@, k + 1, s@.len() as int);
        }
        acc = acc + utf8_width_exec(s[k]);
        k = k + 1;
    }
    acc
}

/// The characters of `input`.
pub fn source_chars(input: &str) -> (r: Vec<char>)
    ensures
        r@ == input@,
{
        let mut chars: Vec<char> = Vec::new();
        let mut it = input.chars();
        proof {
            broadcast use vstd::string::axiom_spec_iter;
        }
        loop
            invariant
                it.obeys_prophetic_iter_laws(),
                chars@ + it.remaining() == input@,
            ensures
                chars@ == input@,
            decreases input@.len() - chars@.len(),
        {
            let ghost before = it.remaining();
            match it.next() {
                Some(c) => {
                    proof { broadcast use vstd::string::next_postcondition; }
                    assert(before =~= seq![c] + it.remaining());
                    chars.push(c);
                    assert(chars@ + it.remaining() =~= input@);
                },
                None => {
                    proof { broadcast use vstd::string::next_postcondition; }
                    assert(chars@ =~= input@);
                    break;
                },
            }
        }
        chars
}

/// A lexer over a source text: yields its tokens one by one, with their byte ranges.
pub struct Lexer {
    chars: Vec<char>,
    pos: usize,
    byte_pos: usize,
    dialect: Dialect,
}

impl Lexer {
    /// The characters of the source text.
    pub closed spec fn source(&self) -> Seq<char> {
        self.chars@
    }

    /// Character index where the next token is looked for.
    pub closed spec fn position(&self) -> int {
        self.pos as int
    }

    pub closed spec fn dialect(&self) -> Dialect {
        self.dialect
    }

    pub closed spec fn wf(&self) -> bool {
        &&& self.pos <= self.chars.len()
        &&& self.byte_pos == byte_offset(self.chars@, self.pos as int)
        &&& byte_offset(self.chars@, self.chars@.len() as int) <= usize::MAX
    }

    /// A lexer for `input` in the classic dialect.
    pub fn new(input: &str) -> (r: Self)
        requires
            byte_offset(input@, input@.len() as int) <= usize::MAX,
        ensures
            r.wf(),
            r.source() == input@,
            r.position() == 0,
            r.dialect() == Dialect::Classic,
    {
        Self::with_dialect(input, Dialect::Classic)
    }

    /// A lexer for `input` in dialect `d`.
    pub fn with_dialect(input: &str, d: Dialect) -> (r: Self)
        requires
            byte_offset(input@, input@.len() as int) <= usize::MAX,
        ensures
            r.wf(),
            r.source() == input@,
            r.position() == 0,
            r.dialect() == d,
    {
        let chars = source_chars(input);
        Lexer { chars, pos: 0, byte_pos: 0, dialect: d }
    }

    /// The next token, with its byte range and first character, or `None` at the end of input.
    pub fn next_tok(&mut self) -> (res: Option<Tok>)
        requires
            old(self).wf(),
        ensures
            final(self).wf(),
            final(self).source() == old(self).source(),
            final(self).dialect() == old(self).dialect(),
            match next_token(old(self).source(), old(self).position(), old(self).dialect()) {
                None => res is None && final(self).position() == old(self).source().len(),
                Some((k, a, b)) => res matches Some(t)
                    && token_denotes(t.token, old(self).source(), k, a, b, old(self).dialect())
                    && t.span.start == byte_offset(old(self).source(), a)
                    && t.span.end == byte_offset(old(self).source(), b)
                    && t.char_start == a
                    && final(self).position() == b,
            },
    {
        proof { lemma_next_token(self.chars@, self.pos as int, self.dialect); }
        let a = skip_trivia_exec(&self.chars, self.pos);
        let ab = byte_offset_exec(&self.chars, self.pos, a, self.byte_pos);
        if a >= self.chars.len() {
            self.pos = a;
            self.byte_pos = ab;
            return None;
        }
        let (tok, b) = scan_exec(&self.chars, a, self.dialect);
        let bb = byte_offset_exec(&self.chars, a, b, ab);
        self.pos = b;
        self.byte_pos = bb;
        Some(Tok { token: tok, span: crate::Span { start: ab, end: bb }, char_start: a })
    }

    /// The next token and its byte range, or `None` at the end of input.
    pub fn next(&mut self) -> (res: Option<(Token, std::ops::Range<usize>)>)
        requires
            old(self).wf(),
        ensures
            final(self).wf(),
            final(self).source() == old(self).source(),
            final(self).dialect() == old(self).dialect(),
            match next_token(old(self).source(), old(self).position(), old(self).dialect()) {
                None => res is None && final(self).position() == old(self).source().len(),
                Some((k, a, b)) => res matches Some((t, r))
                    && token_denotes(t, old(self).source(), k, a, b, old(self).dialect())
                    && r.start == byte_offset(old(self).source(), a)
                    && r.end == byte_offset(old(self).source(), b)
                    && final(self).position() == b,
            },
    {
        match self.next_tok() {
            Some(t) => Some((t.token, std::ops::Range { start: t.span.start, end: t.span.end })),
            None => None,
        }
    }
}

/// A token with its byte range and the character index where it starts.
#[derive(Debug)]
pub struct Tok {
    pub token: Token,
    pub span: crate::Span,
    pub char_start: usize,
}

/// `tk` is the token that the scanner entry `e` (class, start, end) of source `s` gives.
pub open spec fn tok_matches(s: Seq<char>, d: Dialect, tk: Tok, e: (Scan, int, int)) -> bool {
    &&& token_denotes(tk.token, s, e.0, e.1, e.2, d)
    &&& tk.span.start == byte_offset(s, e.1)
    &&& tk.span.end == byte_offset(s, e.2)
    &&& tk.char_start == e.1
}

/// `toks` is the token stream of source `s` in dialect `d`: one entry per token,
/// each with the token its lexeme denotes, its byte range and its first character.
pub open spec fn lexes_to(s: Seq<char>, d: Dialect, toks: Seq<Tok>) -> bool {
    &&& toks.len() == spec_tokens(s, d).len()
    &&& forall|i: int| 0 <= i < toks.len() ==> tok_matches(s, d, #[trigger] toks[i], spec_tokens(s, d)[i])
}

pub proof fn lemma_tokens_step(s: Seq<char>, i: int, d: Dialect)
    requires 0 <= i <= s.len(),
    ensures
        match next_token(s, i, d) {
            None => spec_tokens_from(s, i, d) == Seq::<(Scan, int, int)>::empty(),
            Some((k, a, b)) => spec_tokens_from(s, i, d) == seq![(k, a, b)] + spec_tokens_from(s, b, d),
        },
{
    lemma_next_token(s, i, d);
}

/// The whole token stream of `input`.
pub fn tokenize(input: &str, d: Dialect) -> (r: Vec<Tok>)
    requires
        byte_offset(input@, input@.len() as int) <= usize::MAX,
    ensures
        lexes_to(input@, d, r@),
{
    let mut lx = Lexer::with_dialect(input, d);
    let mut r: Vec<Tok> = Vec::new();
    let ghost s = input@;
    loop
        invariant
            s == input@,
            lx.wf(),
            lx.source() == s,
            lx.dialect() == d,
            0 <= lx.position() <= s.len(),
            spec_tokens(s, d) == spec_tokens(s, d).subrange(0, r@.len() as int) + spec_tokens_from(s, lx.position(), d),
            r@.len() <= spec_tokens(s, d).len(),
            forall|i: int| 0 <= i < r@.len() ==> tok_matches(s, d, #[trigger] r@[i], spec_tokens(s, d)[i]),
        decreases s.len() - lx.position(),
    {
        let ghost i = lx.position();
        proof {
            lemma_tokens_step(s, i, d);
            lemma_next_token(s, i, d);
        }
        let ghost before = spec_tokens_from(s, i, d);
        match lx.next_tok() {
            None => {
                assert(spec_tokens_from(s, i, d) =~= Seq::<(Scan, int, int)>::empty());
                assert(spec_tokens(s, d) =~= spec_tokens(s, d).subrange(0, r@.len() as int));
                assert(spec_tokens(s, d).len() == r@.len());
                assert(lexes_to(s, d, r@));
                return r;
            },
            Some(tok) => {
                let ghost old_r = r@;
                r.push(tok);
                proof {
                    let sp = spec_tokens(s, d);
                    assert(sp.subrange(0, r@.len() as int) =~= sp.subrange(0, old_r.len() as int).push(sp[old_r.len() as int]));
                    assert(forall|j: int| 0 <= j < old_r.len() ==> r@[j] == old_r[j]);
                }
            },
        }
    }
}

/// The token has no payload.
pub open spec fn is_unit(k: Token) -> bool {
    !(k is Ident || k is IntLiteral || k is FloatLiteral || k is StringLiteral)
}

/// `a` is the payload-free token `k`.
pub fn token_is(a: &Token, k: &Token) -> (r: bool)
    requires
        is_unit(*k),
    ensures
        r == (*a == *k),
{
    match k {
        Token::Let => matches!(a, Token::Let),
        Token::Const => matches!(a, Token::Const),
        Token::Match => matches!(a, Token::Match),
        Token::If => matches!(a, Token::If),
        Token::Else => matches!(a, Token::Else),
        Token::While => matches!(a, Token::While),
        Token::Return => matches!(a, Token::Return),
        Token::Spawn => matches!(a, Token::Spawn),
        Token::Receive => matches!(a, Token::Receive),
        Token::Import => matches!(a, Token::Import),
        Token::From => matches!(a, Token::From),
        Token::As => matches!(a, Token::As),
        Token::Async => matches!(a, Token::Async),
        Token::Await => matches!(a, Token::Await),
        Token::Fn => matches!(a, Token::Fn),
        Token::Class => matches!(a, Token::Class),
        Token::Trait => matches!(a, Token::Trait),
        Token::Impl => matches!(a, Token::Impl),
        Token::For => matches!(a, Token::For),
        Token::Enum => matches!(a, Token::Enum),
        Token::Interface => matches!(a, Token::Interface),
        Token::Implements => matches!(a, Token::Implements),
        Token::New => matches!(a, Token::New),
        Token::ErrorKw => matches!(a, Token::ErrorKw),
        Token::Defer => matches!(a, Token::Defer),
        Token::ErrDefer => matches!(a, Token::ErrDefer),
        Token::Void => matches!(a, Token::Void),
        Token::Export => matches!(a, Token::Export),
        Token::Extends => matches!(a, Token::Extends),
        Token::Any => matches!(a, Token::Any),
        Token::I32 => matches!(a, Token::I32),
        Token::U32 => matches!(a, Token::U32),
        Token::U64 => matches!(a, Token::U64),
        Token::F32 => matches!(a, Token::F32),
        Token::F64 => matches!(a, Token::F64),
        Token::USize => matches!(a, Token::USize),
        Token::Bool => matches!(a, Token::Bool),
        Token::String => matches!(a, Token::String),
        Token::Assign => matches!(a, Token::Assign),
        Token::Plus => matches!(a, Token::Plus),
        Token::Minus => matches!(a, Token::Minus),
        Token::Star => matches!(a, Token::Star),
        Token::Slash => matches!(a, Token::Slash),
        Token::Eq => matches!(a, Token::Eq),
        Token::NotEq => matches!(a, Token::NotEq),
        Token::Less => matches!(a, Token::Less),
        Token::Greater => matches!(a, Token::Greater),
        Token::LessEq => matches!(a, Token::LessEq),
        Token::GreaterEq => matches!(a, Token::GreaterEq),
        Token::Question => matches!(a, Token::Question),
        Token::Bang => matches!(a, Token::Bang),
        Token::DotDot => matches!(a, Token::DotDot),
        Token::FatArrow => matches!(a, Token::FatArrow),
        Token::Arrow => matches!(a, Token::Arrow),
        Token::LParen => matches!(a, Token::LParen),
        Token::RParen => matches!(a, Token::RParen),
        Token::LBrace => matches!(a, Token::LBrace),
        Token::RBrace => matches!(a, Token::RBrace),
        Token::LBracket => matches!(a, Token::LBracket),
        Token::RBracket => matches!(a, Token::RBracket),
        Token::Comma => matches!(a, Token::Comma),
        Token::Colon => matches!(a, Token::Colon),
        Token::Semicolon => matches!(a, Token::Semicolon),
        Token::Dot => matches!(a, Token::Dot),
        Token::At => matches!(a, Token::At),
        Token::Ampersand => matches!(a, Token::Ampersand),
        Token::Pipe => matches!(a, Token::Pipe),
        Token::ZigEscape => matches!(a, Token::ZigEscape),
        Token::Error => matches!(a, Token::Error),
        _ => false,
    }
}

/// A copy of the token.
pub fn clone_token(a: &Token) -> (r: Token)
    ensures
        r == *a,
{
    match a {
        Token::Let => Token::Let,
        Token::Const => Token::Const,
        Token::Match => Token::Match,
        Token::If => Token::If,
        Token::Else => Token::Else,
        Token::While => Token::While,
        Token::Return => Token::Return,
        Token::Spawn => Token::Spawn,
        Token::Receive => Token::Receive,
        Token::Import => Token::Import,
        Token::From => Token::From,
        Token::As => Token::As,
        Token::Async => Token::Async,
        Token::Await => Token::Await,
        Token::Fn => Token::Fn,
        Token::Class => Token::Class,
        Token::Trait => Token::Trait,
        Token::Impl => Token::Impl,
        Token::For => Token::For,
        Token::Enum => Token::Enum,
        Token::Interface => Token::Interface,
        Token::Implements => Token::Implements,
        Token::New => Token::New,
        Token::ErrorKw => Token::ErrorKw,
        Token::Defer => Token::Defer,
        Token::ErrDefer => Token::ErrDefer,
        Token::Void => Token::Void,
        Token::Export => Token::Export,
        Token::Extends => Token::Extends,
        Token::Any => Token::Any,
        Token::I32 => Token::I32,
        Token::U32 => Token::U32,
        Token::U64 => Token::U64,
        Token::F32 => Token::F32,
        Token::F64 => Token::F64,
        Token::USize => Token::USize,
        Token::Bool => Token::Bool,
        Token::String => Token::String,
        Token::Assign => Token::Assign,
        Token::Plus => Token::Plus,
        Token::Minus => Token::Minus,
        Token::Star => Token::Star,
        Token::Slash => Token::Slash,
        Token::Eq => Token::Eq,
        Token::NotEq => Token::NotEq,
        Token::Less => Token::Less,
        Token::Greater => Token::Greater,
        Token::LessEq => Token::LessEq,
        Token::GreaterEq => Token::GreaterEq,
        Token::Question => Token::Question,
        Token::Bang => Token::Bang,
        Token::DotDot => Token::DotDot,
        Token::FatArrow => Token::FatArrow,
        Token::Arrow => Token::Arrow,
        Token::LParen => Token::LParen,
        Token::RParen => Token::RParen,
        Token::LBrace => Token::LBrace,
        Token::RBrace => Token::RBrace,
        Token::LBracket => Token::LBracket,
        Token::RBracket => Token::RBracket,
        Token::Comma => Token::Comma,
        Token::Colon => Token::Colon,
        Token::Semicolon => Token::Semicolon,
        Token::Dot => Token::Dot,
        Token::At => Token::At,
        Token::Ampersand => Token::Ampersand,
        Token::Pipe => Token::Pipe,
        Token::ZigEscape => Token::ZigEscape,
        Token::Error => Token::Error,
        Token::Ident(x) => Token::Ident(x.clone()),
        Token::IntLiteral(x) => Token::IntLiteral(*x),
        Token::FloatLiteral(x) => Token::FloatLiteral(x.clone()),
        Token::StringLiteral(x) => Token::StringLiteral(x.clone()),
    }
}


/// The tokens start in order, and inside a source of `n` characters.
pub open spec fn tokens_ordered(toks: Seq<Tok>, n: int) -> bool {
    &&& forall|i: int, j: int| 0 <= i <= j < toks.len() ==> #[trigger] toks[i].char_start <= #[trigger] toks[j].char_start
    &&& forall|i: int| 0 <= i < toks.len() ==> #[trigger] toks[i].char_start <= n
}

pub proof fn lemma_spec_tokens_from_ordered(s: Seq<char>, i: int, d: Dialect)
    requires 0 <= i <= s.len(),
    ensures
        forall|j: int| 0 <= j < spec_tokens_from(s, i, d).len() ==>
            i <= (#[trigger] spec_tokens_from(s, i, d)[j]).1 < spec_tokens_from(s, i, d)[j].2 <= s.len(),
        forall|j: int, k: int| 0 <= j <= k < spec_tokens_from(s, i, d).len() ==>
            (#[trigger] spec_tokens_from(s, i, d)[j]).1 <= (#[trigger] spec_tokens_from(s, i, d)[k]).1,
    decreases s.len() - i,
{
    lemma_tokens_step(s, i, d);
    lemma_next_token(s, i, d);
    match next_token(s, i, d) {
        None => {},
        Some((k, a, b)) => {
            lemma_spec_tokens_from_ordered(s, b, d);
            let rest = spec_tokens_from(s, b, d);
            let all = spec_tokens_from(s, i, d);
            assert(all =~= seq![(k, a, b)] + rest);
            assert forall|j: int| 0 <= j < all.len() implies i <= (#[trigger] all[j]).1 < all[j].2 <= s.len() by {
                if j > 0 {
                    assert(all[j] == rest[j - 1]);
                }
            }
            assert forall|j: int, m: int| 0 <= j <= m < all.len() implies (#[trigger] all[j]).1 <= (#[trigger] all[m]).1 by {
                if j > 0 {
                    assert(all[j] == rest[j - 1]);
                    assert(all[m] == rest[m - 1]);
                } else if m > 0 {
                    assert(all[m] == rest[m - 1]);
                }
            }
        },
    }
}

pub proof fn lemma_lexes_to_ordered(s: Seq<char>, d: Dialect, toks: Seq<Tok>)
    requires lexes_to(s, d, toks),
    ensures tokens_ordered(toks, s.len() as int),
{
    lemma_spec_tokens_from_ordered(s, 0, d);
    let sp = spec_tokens(s, d);
    assert forall|i: int, j: int| 0 <= i <= j < toks.len() implies #[trigger] toks[i].char_start <= #[trigger] toks[j].char_start by {
        assert(toks[i].char_start == sp[i].1);
        assert(toks[j].char_start == sp[j].1);
    }
    assert forall|i: int| 0 <= i < toks.len() implies #[trigger] toks[i].char_start <= s.len() by {
        assert(toks[i].char_start == sp[i].1);
    }
}

/// Each character takes at least one byte, so byte offsets grow strictly with
/// character positions.
pub proof fn lemma_byte_offset_strict(s: Seq<char>, i: int, j: int)
    requires
        0 <= i < j <= s.len(),
    ensures
        byte_offset(s, i) < byte_offset(s, j),
    decreases j - i,
{
    if i < j - 1 {
        lemma_byte_offset_strict(s, i, j - 1);
    }
}

/// A scanned token ends where the next one can start at the earliest.
pub proof fn lemma_spec_tokens_from_disjoint(s: Seq<char>, i: int, d: Dialect)
    requires
        0 <= i <= s.len(),
    ensures
        forall|j: int, k: int| 0 <= j < k < spec_tokens_from(s, i, d).len() ==>
            (#[trigger] spec_tokens_from(s, i, d)[j]).2 <= (#[trigger] spec_tokens_from(s, i, d)[k]).1,
    decreases s.len() - i,
{
    lemma_tokens_step(s, i, d);
    lemma_next_token(s, i, d);
    match next_token(s, i, d) {
        None => {},
        Some((k, a, b)) => {
            lemma_spec_tokens_from_disjoint(s, b, d);
            lemma_spec_tokens_from_ordered(s, b, d);
            let rest = spec_tokens_from(s, b, d);
            let all = spec_tokens_from(s, i, d);
            assert(all =~= seq![(k, a, b)] + rest);
            assert forall|j: int, m: int| 0 <= j < m < all.len() implies (#[trigger] all[j]).2 <= (#[trigger] all[m]).1 by {
                assert(all[m] == rest[m - 1]);
                if j > 0 {
                    assert(all[j] == rest[j - 1]);
                }
            }
        },
    }
}

/// The tokens of a text cover non-empty byte ranges of it, in order and
/// without overlapping.
pub proof fn law_token_spans(s: Seq<char>, d: Dialect, toks: Seq<Tok>)
    requires
        lexes_to(s, d, toks),
    ensures
        forall|i: int| 0 <= i < toks.len() ==>
            (#[trigger] toks[i]).span.start < toks[i].span.end <= byte_offset(s, s.len() as int),
        forall|i: int, j: int| 0 <= i < j < toks.len() ==>
            (#[trigger] toks[i]).span.end <= (#[trigger] toks[j]).span.start,
{
    lemma_spec_tokens_from_ordered(s, 0, d);
    lemma_spec_tokens_from_disjoint(s, 0, d);
    let sp = spec_tokens(s, d);
    assert forall|i: int| 0 <= i < toks.len() implies
        (#[trigger] toks[i]).span.start < toks[i].span.end <= byte_offset(s, s.len() as int) by {
        assert(tok_matches(s, d, toks[i], sp[i]));
        lemma_byte_offset_strict(s, sp[i].1, sp[i].2);
        lemma_byte_offset_mono(s, sp[i].2, s.len() as int);
    }
    assert forall|i: int, j: int| 0 <= i < j < toks.len() implies
        (#[trigger] toks[i]).span.end <= (#[trigger] toks[j]).span.start by {
        assert(tok_matches(s, d, toks[i], sp[i]));
        assert(tok_matches(s, d, toks[j], sp[j]));
        lemma_byte_offset_mono(s, sp[i].2, sp[j].1);
    }
}

/// Character `k` of `s` lies in a `//` comment: a `//` starts at or before it,
/// with no newline from there up to `k`.
pub open spec fn in_line_comment(s: Seq<char>, k: int) -> bool {
    exists|c: int| 0 <= c <= k && c + 1 < s.len() && #[trigger] s[c] == '/' && s[c + 1] == '/'
        && (forall|m: int| c <= m <= k ==> s[m] != '\n')
}

/// Some token of `ts` (class, start, end) covers character `k`.
pub open spec fn covered(ts: Seq<(Scan, int, int)>, k: int) -> bool {
    exists|j: int| 0 <= j < ts.len() && (#[trigger] ts[j]).1 <= k < ts[j].2
}

proof fn lemma_skip_trivia_gap(s: Seq<char>, i: int, c: bool, cs: int)
    requires
        0 <= i <= s.len(),
        c ==> 0 <= cs < i && cs + 1 < s.len() && s[cs] == '/' && s[cs + 1] == '/'
            && (forall|m: int| cs <= m < i ==> s[m] != '\n'),
    ensures
        forall|k: int| i <= k < skip_trivia_from(s, i, c) ==> is_blank(#[trigger] s[k]) || in_line_comment(s, k),
    decreases s.len() - i,
{
    lemma_skip_trivia(s, i, c);
    if i < s.len() {
        if c {
            if s[i] == '\n' {
                lemma_skip_trivia_gap(s, i + 1, false, cs);
            } else {
                assert(in_line_comment(s, i)) by {
                    assert(s[cs] == '/');
                }
                lemma_skip_trivia_gap(s, i + 1, true, cs);
            }
        } else if is_blank(s[i]) {
            lemma_skip_trivia_gap(s, i + 1, false, cs);
        } else if s[i] == '/' && i + 1 < s.len() && s[i + 1] == '/' {
            assert(in_line_comment(s, i)) by {
                assert(s[i] == '/');
            }
            assert(in_line_comment(s, i + 1)) by {
                assert(s[i] == '/');
            }
            lemma_skip_trivia_gap(s, i + 2, true, i);
        }
    }
}

proof fn lemma_tokens_cover_from(s: Seq<char>, i: int, d: Dialect)
    requires
        0 <= i <= s.len(),
    ensures
        forall|k: int| i <= k < s.len() ==>
            covered(spec_tokens_from(s, i, d), k) || is_blank(#[trigger] s[k]) || in_line_comment(s, k),
    decreases s.len() - i,
{
    lemma_tokens_step(s, i, d);
    lemma_next_token(s, i, d);
    lemma_skip_trivia_gap(s, i, false, 0);
    match next_token(s, i, d) {
        None => {},
        Some((kk, a, b)) => {
            lemma_tokens_cover_from(s, b, d);
            let rest = spec_tokens_from(s, b, d);
            let all = spec_tokens_from(s, i, d);
            assert(all =~= seq![(kk, a, b)] + rest);
            assert forall|k: int| i <= k < s.len() implies
                covered(all, k) || is_blank(#[trigger] s[k]) || in_line_comment(s, k) by {
                if a <= k < b {
                    assert(all[0] == (kk, a, b));
                } else if b <= k {
                    if covered(rest, k) {
                        let j = choose|j: int| 0 <= j < rest.len() && (#[trigger] rest[j]).1 <= k < rest[j].2;
                        assert(all[j + 1] == rest[j]);
                    }
                }
            }
        },
    }
}

/// The tokens of a text account for all of it: their character ranges are
/// non-empty, lie inside the text and rise without overlapping, and every
/// character that no token covers is a blank (space, tab, newline, form feed)
/// or lies in a `//` comment.
pub proof fn law_tokens_cover_text(s: Seq<char>, d: Dialect)
    ensures
        forall|k: int| 0 <= k < s.len() ==>
            covered(spec_tokens(s, d), k) || is_blank(#[trigger] s[k]) || in_line_comment(s, k),
        forall|j: int| 0 <= j < spec_tokens(s, d).len() ==>
            0 <= (#[trigger] spec_tokens(s, d)[j]).1 < spec_tokens(s, d)[j].2 <= s.len(),
        forall|j: int, k: int| 0 <= j < k < spec_tokens(s, d).len() ==>
            (#[trigger] spec_tokens(s, d)[j]).2 <= (#[trigger] spec_tokens(s, d)[k]).1,
{
    lemma_tokens_cover_from(s, 0, d);
    lemma_spec_tokens_from_ordered(s, 0, d);
    lemma_spec_tokens_from_disjoint(s, 0, d);
}

proof fn lemma_tokens_from_count(s: Seq<char>, i: int, d: Dialect)
    requires
        0 <= i <= s.len(),
    ensures
        spec_tokens_from(s, i, d).len() <= s.len() - i,
    decreases s.len() - i,
{
    lemma_tokens_step(s, i, d);
    lemma_next_token(s, i, d);
    match next_token(s, i, d) {
        None => {},
        Some((k, a, b)) => {
            lemma_tokens_from_count(s, b, d);
        },
    }
}

proof fn lemma_byte_offset_at_least(s: Seq<char>, i: int)
    requires
        0 <= i <= s.len(),
    ensures
        byte_offset(s, i) >= i,
    decreases i,
{
    if i > 0 {
        lemma_byte_offset_at_least(s, i - 1);
        lemma_byte_offset_step(s, i - 1);
    }
}

/// A text has at most as many tokens as characters, and so at most as many as bytes.
pub proof fn law_token_count(s: Seq<char>, d: Dialect)
    ensures
        spec_tokens(s, d).len() <= s.len(),
        spec_tokens(s, d).len() <= byte_offset(s, s.len() as int),
{
    lemma_tokens_from_count(s, 0, d);
    lemma_byte_offset_at_least(s, s.len() as int);
}

/// Where the lexer stands after returning the first `j` tokens of `s`: the end of the
/// `j`-th token, or the start of the text.
pub open spec fn position_after(s: Seq<char>, d: Dialect, j: int) -> int {
    if j <= 0 { 0 } else { spec_tokens(s, d)[j - 1].2 }
}

proof fn lemma_tokens_after(s: Seq<char>, d: Dialect, j: int)
    requires
        0 <= j <= spec_tokens(s, d).len(),
    ensures
        0 <= position_after(s, d, j) <= s.len(),
        spec_tokens_from(s, position_after(s, d, j), d) == spec_tokens(s, d).subrange(j, spec_tokens(s, d).len() as int),
    decreases j,
{
    let ts = spec_tokens(s, d);
    if j == 0 {
        assert(ts.subrange(0, ts.len() as int) =~= ts);
    } else {
        lemma_tokens_after(s, d, j - 1);
        let p = position_after(s, d, j - 1);
        lemma_tokens_step(s, p, d);
        lemma_next_token(s, p, d);
        let rest = ts.subrange(j - 1, ts.len() as int);
        assert(rest.len() > 0);
        assert(rest[0] == ts[j - 1]);
        match next_token(s, p, d) {
            None => {
                assert(spec_tokens_from(s, p, d).len() == 0);
            },
            Some((k, a, b)) => {
                assert(spec_tokens_from(s, p, d)[0] == (k, a, b));
                assert(ts[j - 1] == (k, a, b));
                assert(spec_tokens_from(s, b, d) =~= rest.subrange(1, rest.len() as int));
                assert(rest.subrange(1, rest.len() as int) =~= ts.subrange(j, ts.len() as int));
            },
        }
    }
}

/// Successive calls of `next` on a lexer made for `s` walk its token stream: from
/// where the lexer stands after `j` tokens, the next token is the `(j+1)`-th of the
/// stream, and after the last one there is none. With `law_token_spans`,
/// `law_tokens_cover_text` and `law_token_count`, this gives the ranges `next`
/// returns: non-empty, rising, inside the text, at most one per character, and
/// separated only by blanks and comments.
pub proof fn law_next_walks_the_tokens(s: Seq<char>, d: Dialect, j: int)
    requires
        0 <= j <= spec_tokens(s, d).len(),
    ensures
        next_token(s, position_after(s, d, j), d) == if j < spec_tokens(s, d).len() {
            Some(spec_tokens(s, d)[j])
        } else {
            None
        },
{
    lemma_tokens_after(s, d, j);
    let p = position_after(s, d, j);
    lemma_tokens_step(s, p, d);
    lemma_next_token(s, p, d);
    let ts = spec_tokens(s, d);
    match next_token(s, p, d) {
        None => {
            assert(ts.subrange(j, ts.len() as int).len() == 0);
        },
        Some((k, a, b)) => {
            assert(spec_tokens_from(s, p, d) == seq![(k, a, b)] + spec_tokens_from(s, b, d));
            assert(spec_tokens_from(s, p, d).len() > 0);
            assert(ts.subrange(j, ts.len() as int).len() == ts.len() - j);
            assert(j < ts.len());
            assert(spec_tokens_from(s, p, d)[0] == (k, a, b));
            assert(ts.subrange(j, ts.len() as int)[0] == ts[j]);
        },
    }
}

proof fn lemma_reserved_words_2(d: Dialect)
    ensures
        keyword(seq!['i', 'f'], d) == Some(Token::If),
        keyword(seq!['a', 's'], d) == Some(Token::As),
        keyword(seq!['f', 'n'], d) == Some(Token::Fn),
{
}

proof fn lemma_reserved_words_3(d: Dialect)
    ensures
        keyword(seq!['l', 'e', 't'], d) == Some(Token::Let),
        keyword(seq!['f', 'o', 'r'], d) == Some(Token::For),
        keyword(seq!['n', 'e', 'w'], d) == Some(Token::New),
        keyword(seq!['i', '3', '2'], d) == Some(Token::I32),
        keyword(seq!['u', '6', '4'], d) == Some(Token::U64),
        keyword(seq!['f', '3', '2'], d) == Some(Token::F32),
        keyword(seq!['f', '6', '4'], d) == Some(Token::F64),
        d == Dialect::Cpc ==> keyword(seq!['a', 'n', 'y'], d) == Some(Token::Any),
        d == Dialect::Classic ==> keyword(seq!['a', 'n', 'y'], d) is None,
        d == Dialect::Cpc ==> keyword(seq!['u', '3', '2'], d) == Some(Token::U32),
        d == Dialect::Classic ==> keyword(seq!['u', '3', '2'], d) is None,
{
}

proof fn lemma_reserved_words_4(d: Dialect)
    ensures
        keyword(seq!['e', 'l', 's', 'e'], d) == Some(Token::Else),
        keyword(seq!['f', 'r', 'o', 'm'], d) == Some(Token::From),
        keyword(seq!['i', 'm', 'p', 'l'], d) == Some(Token::Impl),
        keyword(seq!['e', 'n', 'u', 'm'], d) == Some(Token::Enum),
        keyword(seq!['v', 'o', 'i', 'd'], d) == Some(Token::Void),
        keyword(seq!['b', 'o', 'o', 'l'], d) == Some(Token::Bool),
{
}

proof fn lemma_reserved_words_5(d: Dialect)
    ensures
        keyword(seq!['c', 'o', 'n', 's', 't'], d) == Some(Token::Const),
        keyword(seq!['m', 'a', 't', 'c', 'h'], d) == Some(Token::Match),
        keyword(seq!['w', 'h', 'i', 'l', 'e'], d) == Some(Token::While),
        keyword(seq!['s', 'p', 'a', 'w', 'n'], d) == Some(Token::Spawn),
        keyword(seq!['a', 's', 'y', 'n', 'c'], d) == Some(Token::Async),
        keyword(seq!['a', 'w', 'a', 'i', 't'], d) == Some(Token::Await),
        keyword(seq!['c', 'l', 'a', 's', 's'], d) == Some(Token::Class),
        keyword(seq!['t', 'r', 'a', 'i', 't'], d) == Some(Token::Trait),
        keyword(seq!['e', 'r', 'r', 'o', 'r'], d) == Some(Token::ErrorKw),
        keyword(seq!['d', 'e', 'f', 'e', 'r'], d) == Some(Token::Defer),
        keyword(seq!['u', 's', 'i', 'z', 'e'], d) == Some(Token::USize),
{
}

proof fn lemma_reserved_words_6(d: Dialect)
    ensures
        keyword(seq!['r', 'e', 't', 'u', 'r', 'n'], d) == Some(Token::Return),
        keyword(seq!['i', 'm', 'p', 'o', 'r', 't'], d) == Some(Token::Import),
        keyword(seq!['s', 't', 'r', 'i', 'n', 'g'], d) == Some(Token::String),
        d == Dialect::Cpc ==> keyword(seq!['e', 'x', 'p', 'o', 'r', 't'], d) == Some(Token::Export),
        d == Dialect::Classic ==> keyword(seq!['e', 'x', 'p', 'o', 'r', 't'], d) is None,
{
}

proof fn lemma_reserved_words_7(d: Dialect)
    ensures
        keyword(seq!['r', 'e', 'c', 'e', 'i', 'v', 'e'], d) == Some(Token::Receive),
        keyword(seq!['_', '_', 'z', 'i', 'g', '_', '_'], d) == Some(Token::ZigEscape),
        d == Dialect::Cpc ==> keyword(seq!['e', 'x', 't', 'e', 'n', 'd', 's'], d) == Some(Token::Extends),
        d == Dialect::Classic ==> keyword(seq!['e', 'x', 't', 'e', 'n', 'd', 's'], d) is None,
{
}

proof fn lemma_reserved_words_8(d: Dialect)
    ensures
        keyword(seq!['e', 'r', 'r', 'd', 'e', 'f', 'e', 'r'], d) == Some(Token::ErrDefer),
{
}

proof fn lemma_reserved_words_9(d: Dialect)
    ensures
        keyword(seq!['i', 'n', 't', 'e', 'r', 'f', 'a', 'c', 'e'], d) == Some(Token::Interface),
{
}

proof fn lemma_reserved_words_10(d: Dialect)
    ensures
        keyword(seq!['i', 'm', 'p', 'l', 'e', 'm', 'e', 'n', 't', 's'], d) == Some(Token::Implements),
{
}

/// Every reserved word of the language is its keyword, in both dialects; the `cpc`
/// dialect reserves `any`, `u32`, `export` and `extends` as well, which the classic
/// dialect reads as names.
pub proof fn law_reserved_words(d: Dialect)
    ensures
        keyword(seq!['l', 'e', 't'], d) == Some(Token::Let),
        keyword(seq!['c', 'o', 'n', 's', 't'], d) == Some(Token::Const),
        keyword(seq!['m', 'a', 't', 'c', 'h'], d) == Some(Token::Match),
        keyword(seq!['i', 'f'], d) == Some(Token::If),
        keyword(seq!['e', 'l', 's', 'e'], d) == Some(Token::Else),
        keyword(seq!['w', 'h', 'i', 'l', 'e'], d) == Some(Token::While),
        keyword(seq!['r', 'e', 't', 'u', 'r', 'n'], d) == Some(Token::Return),
        keyword(seq!['s', 'p', 'a', 'w', 'n'], d) == Some(Token::Spawn),
        keyword(seq!['r', 'e', 'c', 'e', 'i', 'v', 'e'], d) == Some(Token::Receive),
        keyword(seq!['i', 'm', 'p', 'o', 'r', 't'], d) == Some(Token::Import),
        keyword(seq!['f', 'r', 'o', 'm'], d) == Some(Token::From),
        keyword(seq!['a', 's'], d) == Some(Token::As),
        keyword(seq!['a', 's', 'y', 'n', 'c'], d) == Some(Token::Async),
        keyword(seq!['a', 'w', 'a', 'i', 't'], d) == Some(Token::Await),
        keyword(seq!['f', 'n'], d) == Some(Token::Fn),
        keyword(seq!['c', 'l', 'a', 's', 's'], d) == Some(Token::Class),
        keyword(seq!['t', 'r', 'a', 'i', 't'], d) == Some(Token::Trait),
        keyword(seq!['i', 'm', 'p', 'l'], d) == Some(Token::Impl),
        keyword(seq!['f', 'o', 'r'], d) == Some(Token::For),
        keyword(seq!['e', 'n', 'u', 'm'], d) == Some(Token::Enum),
        keyword(seq!['i', 'n', 't', 'e', 'r', 'f', 'a', 'c', 'e'], d) == Some(Token::Interface),
        keyword(seq!['i', 'm', 'p', 'l', 'e', 'm', 'e', 'n', 't', 's'], d) == Some(Token::Implements),
        keyword(seq!['n', 'e', 'w'], d) == Some(Token::New),
        keyword(seq!['e', 'r', 'r', 'o', 'r'], d) == Some(Token::ErrorKw),
        keyword(seq!['d', 'e', 'f', 'e', 'r'], d) == Some(Token::Defer),
        keyword(seq!['e', 'r', 'r', 'd', 'e', 'f', 'e', 'r'], d) == Some(Token::ErrDefer),
        keyword(seq!['v', 'o', 'i', 'd'], d) == Some(Token::Void),
        keyword(seq!['i', '3', '2'], d) == Some(Token::I32),
        keyword(seq!['u', '6', '4'], d) == Some(Token::U64),
        keyword(seq!['f', '3', '2'], d) == Some(Token::F32),
        keyword(seq!['f', '6', '4'], d) == Some(Token::F64),
        keyword(seq!['u', 's', 'i', 'z', 'e'], d) == Some(Token::USize),
        keyword(seq!['b', 'o', 'o', 'l'], d) == Some(Token::Bool),
        keyword(seq!['s', 't', 'r', 'i', 'n', 'g'], d) == Some(Token::String),
        keyword(seq!['_', '_', 'z', 'i', 'g', '_', '_'], d) == Some(Token::ZigEscape),
        d == Dialect::Cpc ==> keyword(seq!['a', 'n', 'y'], d) == Some(Token::Any),
        d == Dialect::Classic ==> keyword(seq!['a', 'n', 'y'], d) is None,
        d == Dialect::Cpc ==> keyword(seq!['u', '3', '2'], d) == Some(Token::U32),
        d == Dialect::Classic ==> keyword(seq!['u', '3', '2'], d) is None,
        d == Dialect::Cpc ==> keyword(seq!['e', 'x', 'p', 'o', 'r', 't'], d) == Some(Token::Export),
        d == Dialect::Classic ==> keyword(seq!['e', 'x', 'p', 'o', 'r', 't'], d) is None,
        d == Dialect::Cpc ==> keyword(seq!['e', 'x', 't', 'e', 'n', 'd', 's'], d) == Some(Token::Extends),
        d == Dialect::Classic ==> keyword(seq!['e', 'x', 't', 'e', 'n', 'd', 's'], d) is None,
{
    lemma_reserved_words_2(d);
    lemma_reserved_words_3(d);
    lemma_reserved_words_4(d);
    lemma_reserved_words_5(d);
    lemma_reserved_words_6(d);
    lemma_reserved_words_7(d);
    lemma_reserved_words_8(d);
    lemma_reserved_words_9(d);
    lemma_reserved_words_10(d);
}

proof fn lemma_word_run_end(s: Seq<char>, k: int, e: int)
    requires
        0 <= k <= e <= s.len(),
        forall|x: int| k <= x < e ==> is_ident_char(#[trigger] s[x]),
        e == s.len() || !is_ident_char(s[e]),
    ensures
        ident_run_end(s, k) == e,
    decreases e - k,
{
    if k < e {
        lemma_word_run_end(s, k + 1, e);
    }
}

/// A word that stands at `i`, with no trivia before it and no word character after
/// it, is lexed whole: as its keyword when it is one (never as a name), and as a
/// name otherwise.
pub proof fn law_word_token(s: Seq<char>, i: int, e: int, d: Dialect)
    requires
        0 <= i < e <= s.len(),
        skip_trivia(s, i) == i,
        is_ident_start(s[i]),
        forall|x: int| i < x < e ==> is_ident_char(#[trigger] s[x]),
        e == s.len() || !is_ident_char(s[e]),
    ensures
        next_token(s, i, d) == Some((
            match keyword(s.subrange(i, e), d) {
                Some(k) => Scan::Fixed(k),
                None => Scan::Ident,
            },
            i,
            e,
        )),
{
    lemma_word_run_end(s, i + 1, e);
}

/// How a keyword token is spelled.
pub open spec fn spelling(k: Token) -> Seq<char> {
    match k {
        Token::Let => seq!['l', 'e', 't'],
        Token::Const => seq!['c', 'o', 'n', 's', 't'],
        Token::Match => seq!['m', 'a', 't', 'c', 'h'],
        Token::If => seq!['i', 'f'],
        Token::Else => seq!['e', 'l', 's', 'e'],
        Token::While => seq!['w', 'h', 'i', 'l', 'e'],
        Token::Return => seq!['r', 'e', 't', 'u', 'r', 'n'],
        Token::Spawn => seq!['s', 'p', 'a', 'w', 'n'],
        Token::Receive => seq!['r', 'e', 'c', 'e', 'i', 'v', 'e'],
        Token::Import => seq!['i', 'm', 'p', 'o', 'r', 't'],
        Token::From => seq!['f', 'r', 'o', 'm'],
        Token::As => seq!['a', 's'],
        Token::Async => seq!['a', 's', 'y', 'n', 'c'],
        Token::Await => seq!['a', 'w', 'a', 'i', 't'],
        Token::Fn => seq!['f', 'n'],
        Token::Class => seq!['c', 'l', 'a', 's', 's'],
        Token::Trait => seq!['t', 'r', 'a', 'i', 't'],
        Token::Impl => seq!['i', 'm', 'p', 'l'],
        Token::For => seq!['f', 'o', 'r'],
        Token::Enum => seq!['e', 'n', 'u', 'm'],
        Token::Interface => seq!['i', 'n', 't', 'e', 'r', 'f', 'a', 'c', 'e'],
        Token::Implements => seq!['i', 'm', 'p', 'l', 'e', 'm', 'e', 'n', 't', 's'],
        Token::New => seq!['n', 'e', 'w'],
        Token::ErrorKw => seq!['e', 'r', 'r', 'o', 'r'],
        Token::Defer => seq!['d', 'e', 'f', 'e', 'r'],
        Token::ErrDefer => seq!['e', 'r', 'r', 'd', 'e', 'f', 'e', 'r'],
        Token::Void => seq!['v', 'o', 'i', 'd'],
        Token::I32 => seq!['i', '3', '2'],
        Token::U64 => seq!['u', '6', '4'],
        Token::F32 => seq!['f', '3', '2'],
        Token::F64 => seq!['f', '6', '4'],
        Token::USize => seq!['u', 's', 'i', 'z', 'e'],
        Token::Bool => seq!['b', 'o', 'o', 'l'],
        Token::String => seq!['s', 't', 'r', 'i', 'n', 'g'],
        Token::ZigEscape => seq!['_', '_', 'z', 'i', 'g', '_', '_'],
        Token::Any => seq!['a', 'n', 'y'],
        Token::U32 => seq!['u', '3', '2'],
        Token::Export => seq!['e', 'x', 'p', 'o', 'r', 't'],
        Token::Extends => seq!['e', 'x', 't', 'e', 'n', 'd', 's'],
        _ => Seq::empty(),
    }
}

proof fn lemma_keyword_spelled_2(w: Seq<char>, d: Dialect)
    requires
        w.len() == 2,
    ensures
        keyword(w, d) matches Some(k) ==> w == spelling(k),
{
}

proof fn lemma_keyword_spelled_3(w: Seq<char>, d: Dialect)
    requires
        w.len() == 3,
    ensures
        keyword(w, d) matches Some(k) ==> w == spelling(k),
{
}

proof fn lemma_keyword_spelled_4(w: Seq<char>, d: Dialect)
    requires
        w.len() == 4,
    ensures
        keyword(w, d) matches Some(k) ==> w == spelling(k),
{
}

proof fn lemma_keyword_spelled_5(w: Seq<char>, d: Dialect)
    requires
        w.len() == 5,
    ensures
        keyword(w, d) matches Some(k) ==> w == spelling(k),
{
}

proof fn lemma_keyword_spelled_6(w: Seq<char>, d: Dialect)
    requires
        w.len() == 6,
    ensures
        keyword(w, d) matches Some(k) ==> w == spelling(k),
{
}

proof fn lemma_keyword_spelled_7(w: Seq<char>, d: Dialect)
    requires
        w.len() == 7,
    ensures
        keyword(w, d) matches Some(k) ==> w == spelling(k),
{
}

proof fn lemma_keyword_spelled_8(w: Seq<char>, d: Dialect)
    requires
        w.len() == 8,
    ensures
        keyword(w, d) matches Some(k) ==> w == spelling(k),
{
}

proof fn lemma_keyword_spelled_9(w: Seq<char>, d: Dialect)
    requires
        w.len() == 9,
    ensures
        keyword(w, d) matches Some(k) ==> w == spelling(k),
{
}

proof fn lemma_keyword_spelled_10(w: Seq<char>, d: Dialect)
    requires
        w.len() == 10,
    ensures
        keyword(w, d) matches Some(k) ==> w == spelling(k),
{
}

/// Only the reserved words are keywords: a word the lexer reads as a keyword is
/// spelled exactly as that keyword.
pub proof fn law_only_reserved_words_are_keywords(w: Seq<char>, d: Dialect)
    ensures
        keyword(w, d) matches Some(k) ==> w == spelling(k),
{
    if w.len() == 2 { lemma_keyword_spelled_2(w, d); }
    if w.len() == 3 { lemma_keyword_spelled_3(w, d); }
    if w.len() == 4 { lemma_keyword_spelled_4(w, d); }
    if w.len() == 5 { lemma_keyword_spelled_5(w, d); }
    if w.len() == 6 { lemma_keyword_spelled_6(w, d); }
    if w.len() == 7 { lemma_keyword_spelled_7(w, d); }
    if w.len() == 8 { lemma_keyword_spelled_8(w, d); }
    if w.len() == 9 { lemma_keyword_spelled_9(w, d); }
    if w.len() == 10 { lemma_keyword_spelled_10(w, d); }
}

/// The punctuation of the language, longest match first: `==`, `=>`, `!=`, `<=`,
/// `>=` and `->` are single tokens, and each other mark is a token of its own.
pub proof fn law_punctuation(s: Seq<char>, i: int)
    requires
        0 <= i < s.len(),
    ensures
        ({
            let c = s[i];
            let n = if i + 1 < s.len() { s[i + 1] } else { '\0' };
            &&& c == '=' && n == '=' ==> punct(s, i) == Some((Token::Eq, i + 2))
            &&& c == '=' && n == '>' ==> punct(s, i) == Some((Token::FatArrow, i + 2))
            &&& c == '=' && n != '=' && n != '>' ==> punct(s, i) == Some((Token::Assign, i + 1))
            &&& c == '!' && n == '=' ==> punct(s, i) == Some((Token::NotEq, i + 2))
            &&& c == '!' && n != '=' ==> punct(s, i) == Some((Token::Bang, i + 1))
            &&& c == '<' && n == '=' ==> punct(s, i) == Some((Token::LessEq, i + 2))
            &&& c == '<' && n != '=' ==> punct(s, i) == Some((Token::Less, i + 1))
            &&& c == '>' && n == '=' ==> punct(s, i) == Some((Token::GreaterEq, i + 2))
            &&& c == '>' && n != '=' ==> punct(s, i) == Some((Token::Greater, i + 1))
            &&& c == '-' && n == '>' ==> punct(s, i) == Some((Token::Arrow, i + 2))
            &&& c == '-' && n != '>' ==> punct(s, i) == Some((Token::Minus, i + 1))
            &&& c == '+' ==> punct(s, i) == Some((Token::Plus, i + 1))
            &&& c == '*' ==> punct(s, i) == Some((Token::Star, i + 1))
            &&& c == '/' ==> punct(s, i) == Some((Token::Slash, i + 1))
            &&& c == '?' ==> punct(s, i) == Some((Token::Question, i + 1))
            &&& c == '(' ==> punct(s, i) == Some((Token::LParen, i + 1))
            &&& c == ')' ==> punct(s, i) == Some((Token::RParen, i + 1))
            &&& c == '{' ==> punct(s, i) == Some((Token::LBrace, i + 1))
            &&& c == '}' ==> punct(s, i) == Some((Token::RBrace, i + 1))
            &&& c == '[' ==> punct(s, i) == Some((Token::LBracket, i + 1))
            &&& c == ']' ==> punct(s, i) == Some((Token::RBracket, i + 1))
            &&& c == ',' ==> punct(s, i) == Some((Token::Comma, i + 1))
            &&& c == ':' ==> punct(s, i) == Some((Token::Colon, i + 1))
            &&& c == ';' ==> punct(s, i) == Some((Token::Semicolon, i + 1))
            &&& c == '@' ==> punct(s, i) == Some((Token::At, i + 1))
            &&& c == '&' ==> punct(s, i) == Some((Token::Ampersand, i + 1))
            &&& c == '|' ==> punct(s, i) == Some((Token::Pipe, i + 1))
        }),
{
}

} // verus!

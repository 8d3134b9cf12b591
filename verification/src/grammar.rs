//! The grammar of the `cpc` language as spec functions over a token stream.
//! Each function takes the token stream `t`, the source characters `s` and a
//! token position `p`, and gives what the parser builds from there and the
//! position after it, or the error it reports.
use vstd::prelude::*;
use crate::Span;
use crate::lexer::{Token, Tok};
use crate::ast::{SClass, SDecl, SEnumDecl, SEnumVariant, SErrorSetDecl, SFunction, SImplDecl, SImportStmt, SMethodSig, SModule, SModuleItem, SParam, STraitDecl, BinaryOp, VarDeclKind, SArrowBody, SArrowExpr, SBinExpr, SBlockStmt, SBuiltinCall, SCallExpr, SEnumInitExpr, SEnumInitField, SEnumPattern, SExpr, SField, SIdent, SIfStmt, SLit, SMatchArm, SMatchExpr, SMemberExpr, SObjectField, SObjectPatProp, SPattern, SReturnStmt, SSliceExpr, SSpawnExpr, SStmt, SType, SVarDecl, SWhileStmt, SZigEscapeExpr};

verus! {

/// The spec form of a parse error.
pub enum SParseError {
    UnexpectedToken(Token, Span),
    ExpectedToken(Expected, Token, Span),
    EndOfInput,
}

/// The token a parse error says was expected.
pub enum Expected {
    Tok(Token),
    /// An identifier (reported as `Ident("Ident")`).
    AnIdent,
    /// A string literal (reported as `StringLiteral("source")`).
    AStringLiteral,
}

/// Spec result of a parsing function: the value and the position after it.
pub type SR<T> = Result<(T, int), SParseError>;

// ------------------------------------------------------------------
// Token access
// ------------------------------------------------------------------

pub open spec fn peek(t: Seq<Tok>, p: int) -> Option<Token> {
    if 0 <= p < t.len() { Some(t[p].token) } else { None }
}

/// The token at `p` is `k` (`k` has no payload).
pub open spec fn is_at(t: Seq<Tok>, p: int, k: Token) -> bool {
    0 <= p < t.len() && t[p].token == k
}

pub open spec fn peek_span(t: Seq<Tok>, p: int) -> Span {
    if 0 <= p < t.len() { t[p].span } else { Span { start: 0, end: 0 } }
}

pub open spec fn skip_if(t: Seq<Tok>, p: int, k: Token) -> int {
    if is_at(t, p, k) { p + 1 } else { p }
}

/// `q` is not a position after `p` inside the stream (never the case for the
/// positions the grammar produces; the check keeps the definitions well founded).
pub open spec fn bad(t: Seq<Tok>, p: int, q: int) -> bool {
    !(p < q && q <= t.len())
}

pub open spec fn g_expect(t: Seq<Tok>, p: int, k: Token) -> SR<Span> {
    if !(0 <= p < t.len()) {
        Err(SParseError::EndOfInput)
    } else if t[p].token == k {
        Ok((t[p].span, p + 1))
    } else {
        Err(SParseError::ExpectedToken(Expected::Tok(k), t[p].token, t[p].span))
    }
}

/// The name a keyword stands for when it is used as an identifier.
pub open spec fn keyword_as_name(k: Token) -> Option<Seq<char>> {
    match k {
        Token::Spawn => Some("spawn"@),
        Token::Receive => Some("receive"@),
        Token::Await => Some("await"@),
        Token::Async => Some("async"@),
        Token::If => Some("if"@),
        Token::While => Some("while"@),
        Token::For => Some("for"@),
        Token::Return => Some("return"@),
        Token::Class => Some("class"@),
        Token::Trait => Some("trait"@),
        Token::Enum => Some("enum"@),
        Token::Impl => Some("impl"@),
        Token::Interface => Some("interface"@),
        Token::Extends => Some("extends"@),
        Token::Any => Some("any"@),
        Token::Void => Some("void"@),
        _ => None,
    }
}

pub open spec fn g_ident(t: Seq<Tok>, p: int) -> SR<SIdent> {
    if !(0 <= p < t.len()) {
        Err(SParseError::EndOfInput)
    } else {
        match t[p].token {
            Token::Ident(x) => Ok((SIdent { span: t[p].span, sym: x@ }, p + 1)),
            _ => match keyword_as_name(t[p].token) {
                Some(n) => Ok((SIdent { span: t[p].span, sym: n }, p + 1)),
                None => Err(SParseError::ExpectedToken(Expected::AnIdent, t[p].token, t[p].span)),
            },
        }
    }
}

// ------------------------------------------------------------------
// Types
// ------------------------------------------------------------------

/// The type a single type token names.
pub open spec fn base_type(k: Token, span: Span) -> Option<SType> {
    match k {
        Token::I32 => Some(SType::I32),
        Token::U32 => Some(SType::U32),
        Token::U64 => Some(SType::U64),
        Token::F32 => Some(SType::F32),
        Token::USize => Some(SType::USize),
        Token::String => Some(SType::String),
        Token::Void => Some(SType::Void),
        Token::Any => Some(SType::Any),
        Token::Bool => Some(SType::Bool),
        Token::Ident(x) => if x@ == "pid"@ {
            Some(SType::PID)
        } else {
            Some(SType::Ref(SIdent { span, sym: x@ }))
        },
        _ => None,
    }
}

pub open spec fn g_type(t: Seq<Tok>, p: int) -> SR<SType>
    decreases t.len() - p, 1nat,
{
    if !(0 <= p <= t.len()) {
        Err(SParseError::EndOfInput)
    } else if is_at(t, p, Token::LBracket) {
        match g_type_elems(t, p + 1) {
            Err(e) => Err(e),
            Ok((elems, q)) => match g_expect(t, q, Token::RBracket) {
                Err(e) => Err(e),
                Ok((_, q2)) => Ok((SType::Tuple(elems), q2)),
            },
        }
    } else if is_at(t, p, Token::LBrace) {
        match g_type_fields(t, p + 1) {
            Err(e) => Err(e),
            Ok((fields, q)) => match g_expect(t, q, Token::RBrace) {
                Err(e) => Err(e),
                Ok((_, q2)) => Ok((SType::Object(fields), q2)),
            },
        }
    } else {
        let error_union = is_at(t, p, Token::Question);
        let p1 = skip_if(t, p, Token::Question);
        if p1 >= t.len() {
            Err(SParseError::EndOfInput)
        } else {
            match base_type(t[p1].token, t[p1].span) {
                None => Err(SParseError::UnexpectedToken(t[p1].token, t[p1].span)),
                Some(ty) => {
                    let opt = is_at(t, p1 + 1, Token::Question);
                    let ty1 = if opt { SType::Optional(Box::new(ty)) } else { ty };
                    let ty2 = if error_union { SType::ErrorUnion(Box::new(ty1)) } else { ty1 };
                    Ok((ty2, skip_if(t, p1 + 1, Token::Question)))
                },
            }
        }
    }
}

/// Types up to `]`, each optionally followed by `,`.
pub open spec fn g_type_elems(t: Seq<Tok>, p: int) -> SR<Seq<SType>>
    decreases t.len() - p, 2nat,
{
    if !(0 <= p <= t.len()) || is_at(t, p, Token::RBracket) {
        Ok((Seq::empty(), p))
    } else {
        match g_type(t, p) {
            Err(e) => Err(e),
            Ok((x, q)) => if bad(t, p, q) {
                Err(SParseError::EndOfInput)
            } else {
                match g_type_elems(t, skip_if(t, q, Token::Comma)) {
                    Err(e) => Err(e),
                    Ok((rest, q2)) => Ok((seq![x] + rest, q2)),
                }
            },
        }
    }
}

/// `name: type` fields up to `}`, each optionally followed by `,`.
pub open spec fn g_type_fields(t: Seq<Tok>, p: int) -> SR<Seq<SField>>
    decreases t.len() - p, 2nat,
{
    if !(0 <= p <= t.len()) || is_at(t, p, Token::RBrace) {
        Ok((Seq::empty(), p))
    } else {
        match g_type_field(t, p) {
            Err(e) => Err(e),
            Ok((x, q)) => if bad(t, p, q) {
                Err(SParseError::EndOfInput)
            } else {
                match g_type_fields(t, skip_if(t, q, Token::Comma)) {
                    Err(e) => Err(e),
                    Ok((rest, q2)) => Ok((seq![x] + rest, q2)),
                }
            },
        }
    }
}

// ------------------------------------------------------------------
// Patterns
// ------------------------------------------------------------------

pub open spec fn g_pattern(t: Seq<Tok>, p: int) -> SR<SPattern>
    decreases t.len() - p, 1nat,
{
    if !(0 <= p <= t.len()) {
        Err(SParseError::EndOfInput)
    } else if is_at(t, p, Token::LBracket) {
        match g_pattern_elems(t, p + 1) {
            Err(e) => Err(e),
            Ok((elems, q)) => match g_expect(t, q, Token::RBracket) {
                Err(e) => Err(e),
                Ok((_, q2)) => Ok((SPattern::Tuple(elems), q2)),
            },
        }
    } else if is_at(t, p, Token::LBrace) {
        match g_pattern_props(t, p + 1) {
            Err(e) => Err(e),
            Ok((props, q)) => match g_expect(t, q, Token::RBrace) {
                Err(e) => Err(e),
                Ok((_, q2)) => Ok((SPattern::Object(props), q2)),
            },
        }
    } else if is_at(t, p, Token::Dot) {
        match g_ident(t, p + 1) {
            Err(e) => Err(e),
            Ok((variant, q)) => {
                let none = Span { start: 0, end: 0 };
                let mk = |fields: Option<Seq<SObjectPatProp>>| SPattern::Enum(SEnumPattern {
                    span: none,
                    enum_name: SIdent { span: none, sym: Seq::empty() },
                    variant_name: variant,
                    fields,
                });
                if is_at(t, q, Token::FatArrow) {
                    Ok((mk(None), q))
                } else if is_at(t, q, Token::Pipe) {
                    match g_ident(t, q + 1) {
                        Err(e) => Err(e),
                        Ok((key, q2)) => match g_expect(t, q2, Token::Pipe) {
                            Err(e) => Err(e),
                            Ok((_, q3)) => Ok((mk(Some(seq![SObjectPatProp { key, val: None }])), q3)),
                        },
                    }
                } else {
                    Ok((mk(None), q))
                }
            },
        }
    } else if is_at(t, p, Token::Bang) {
        Ok((SPattern::Wildcard, p + 1))
    } else {
        match g_ident(t, p) {
            Err(e) => Err(e),
            Ok((id, q)) => Ok((SPattern::Ident(id), q)),
        }
    }
}

/// Patterns up to `]`, each optionally followed by `,`.
pub open spec fn g_pattern_elems(t: Seq<Tok>, p: int) -> SR<Seq<SPattern>>
    decreases t.len() - p, 2nat,
{
    if !(0 <= p <= t.len()) || is_at(t, p, Token::RBracket) {
        Ok((Seq::empty(), p))
    } else {
        match g_pattern(t, p) {
            Err(e) => Err(e),
            Ok((x, q)) => if bad(t, p, q) {
                Err(SParseError::EndOfInput)
            } else {
                match g_pattern_elems(t, skip_if(t, q, Token::Comma)) {
                    Err(e) => Err(e),
                    Ok((rest, q2)) => Ok((seq![x] + rest, q2)),
                }
            },
        }
    }
}

/// Object-pattern entries up to `}`, each optionally followed by `,`.
pub open spec fn g_pattern_props(t: Seq<Tok>, p: int) -> SR<Seq<SObjectPatProp>>
    decreases t.len() - p, 2nat,
{
    if !(0 <= p <= t.len()) || is_at(t, p, Token::RBrace) {
        Ok((Seq::empty(), p))
    } else {
        match g_pattern_prop(t, p) {
            Err(e) => Err(e),
            Ok((x, q)) => if bad(t, p, q) {
                Err(SParseError::EndOfInput)
            } else {
                match g_pattern_props(t, skip_if(t, q, Token::Comma)) {
                    Err(e) => Err(e),
                    Ok((rest, q2)) => Ok((seq![x] + rest, q2)),
                }
            },
        }
    }
}

// ------------------------------------------------------------------
// Expressions
// ------------------------------------------------------------------

/// The span an expression reports as its start.
pub open spec fn s_left_span(e: SExpr) -> Span
    decreases e,
{
    let none = Span { start: 0, end: 0 };
    match e {
        SExpr::Ident(i) => i.span,
        SExpr::Lit(_) => none,
        SExpr::Bin(b) => b.span,
        SExpr::Call(c) => c.span,
        SExpr::New(c) => c.span,
        SExpr::Member(m) => m.span,
        SExpr::Slice(x) => x.span,
        SExpr::Match(m) => m.span,
        SExpr::Spawn(x) => x.span,
        SExpr::Receive(_) => none,
        SExpr::Zig(z) => z.span,
        SExpr::Question(inner) => s_left_span(*inner),
        SExpr::Array(_) => none,
        SExpr::Object(_) => none,
        SExpr::Arrow(a) => a.span,
        SExpr::EnumInit(x) => x.span,
        SExpr::Template(x) => x.span,
        SExpr::Await(inner) => s_left_span(*inner),
        SExpr::Builtin(b) => b.span,
    }
}

/// The span an expression reports as its end.
pub open spec fn s_right_span(e: SExpr) -> Span
    decreases e,
{
    let none = Span { start: 0, end: 0 };
    match e {
        SExpr::Ident(i) => i.span,
        SExpr::Lit(_) => none,
        SExpr::Bin(b) => s_right_span(*b.right),
        SExpr::Call(c) => Span { start: 0, end: c.span.end },
        SExpr::New(c) => Span { start: 0, end: c.span.end },
        SExpr::Member(m) => m.span,
        SExpr::Slice(x) => x.span,
        SExpr::Match(m) => m.span,
        SExpr::Spawn(x) => x.span,
        SExpr::Receive(_) => none,
        SExpr::Zig(z) => z.span,
        SExpr::Question(inner) => s_right_span(*inner),
        SExpr::Array(_) => none,
        SExpr::Object(_) => none,
        SExpr::Arrow(a) => a.span,
        SExpr::EnumInit(x) => x.span,
        SExpr::Template(x) => x.span,
        SExpr::Await(inner) => s_right_span(*inner),
        SExpr::Builtin(b) => b.span,
    }
}

/// The binary operator a token stands for.
pub open spec fn op_of(k: Token) -> Option<BinaryOp> {
    match k {
        Token::Plus => Some(BinaryOp::Add),
        Token::Minus => Some(BinaryOp::Sub),
        Token::Star => Some(BinaryOp::Mul),
        Token::Slash => Some(BinaryOp::Div),
        Token::Assign => Some(BinaryOp::Eq),
        Token::Less => Some(BinaryOp::Lt),
        _ => None,
    }
}

/// Binding strength of a binary operator (higher binds tighter).
pub open spec fn precedence(op: BinaryOp) -> nat {
    match op {
        BinaryOp::Eq => 1,
        BinaryOp::Lt => 2,
        BinaryOp::Add | BinaryOp::Sub => 3,
        BinaryOp::Mul | BinaryOp::Div => 4,
        _ => 0,
    }
}

/// The parameters an arrow function takes when its left side is `left`.
pub open spec fn arrow_params_of(left: SExpr) -> Seq<SPattern> {
    match left {
        SExpr::Ident(id) => seq![SPattern::Ident(id)],
        SExpr::Array(elems) => Seq::new(elems.len(), |i: int| match elems[i] {
            SExpr::Ident(id) => SPattern::Ident(id),
            _ => SPattern::Wildcard,
        }),
        _ => Seq::empty(),
    }
}

/// Arrow-function parameters up to `)` or the end of input.
pub open spec fn g_arrow_param_list(t: Seq<Tok>, p: int) -> SR<Seq<SPattern>>
    decreases t.len() - p,
{
    if !(0 <= p < t.len()) || is_at(t, p, Token::RParen) {
        Ok((Seq::empty(), p))
    } else {
        match g_arrow_param(t, p) {
            Err(e) => Err(e),
            Ok((x, q)) => if bad(t, p, q) {
                Err(SParseError::EndOfInput)
            } else {
                match g_arrow_param_list(t, skip_if(t, q, Token::Comma)) {
                    Err(e) => Err(e),
                    Ok((rest, q2)) => Ok((seq![x] + rest, q2)),
                }
            },
        }
    }
}

pub open spec fn g_arrow_params(t: Seq<Tok>, p: int) -> SR<Seq<SPattern>> {
    match g_arrow_param_list(t, p) {
        Err(e) => Err(e),
        Ok((params, q)) => match g_expect(t, q, Token::RParen) {
            Err(e) => Err(e),
            Ok((_, q2)) => Ok((params, q2)),
        },
    }
}

/// Whitespace in the sense of Unicode's `White_Space` property.
pub open spec fn is_whitespace(c: char) -> bool {
    let v = c as u32;
    (0x9 <= v && v <= 0xd) || v == 0x20 || v == 0x85 || v == 0xa0 || v == 0x1680
        || (0x2000 <= v && v <= 0x200a) || v == 0x2028 || v == 0x2029 || v == 0x202f
        || v == 0x205f || v == 0x3000
}

pub open spec fn trim_start(x: Seq<char>) -> Seq<char>
    decreases x.len(),
{
    if x.len() > 0 && is_whitespace(x[0]) { trim_start(x.drop_first()) } else { x }
}

pub open spec fn trim_end(x: Seq<char>) -> Seq<char>
    decreases x.len(),
{
    if x.len() > 0 && is_whitespace(x.last()) { trim_end(x.drop_last()) } else { x }
}

/// `x` without leading and trailing whitespace.
pub open spec fn trim(x: Seq<char>) -> Seq<char> {
    trim_end(trim_start(x))
}

/// Scanning the raw code of a `__zig__ { ... }` block from position `q` at brace
/// depth `depth`: the position after the closing brace (or the end of input) and
/// the character index where the raw code ends.
pub open spec fn zig_scan(t: Seq<Tok>, q: int, depth: int, code_end: int) -> (int, int)
    decreases t.len() - q,
{
    if depth <= 0 || !(0 <= q < t.len()) {
        (q, code_end)
    } else {
        let d2 = if t[q].token == Token::LBrace {
            depth + 1
        } else if t[q].token == Token::RBrace {
            depth - 1
        } else {
            depth
        };
        let ce = if d2 == 0 { t[q].char_start as int } else { code_end };
        zig_scan(t, q + 1, d2, ce)
    }
}

/// `__zig__ { raw code }` at `p`: the raw code, trimmed, as an expression statement.
pub open spec fn g_zig(t: Seq<Tok>, s: Seq<char>, p: int) -> SR<SStmt> {
    if !(0 <= p < t.len()) {
        Err(SParseError::EndOfInput)
    } else {
        let start = t[p].span.start;
        match g_expect(t, p + 1, Token::LBrace) {
            Err(e) => Err(e),
            Ok((_, q)) => {
                let cs: int = if q < t.len() { t[q].char_start as int } else { 0 };
                let (q2, ce) = zig_scan(t, q, 1, cs);
                let end = peek_span(t, q2).end;
                Ok((SStmt::Expr(SExpr::Zig(SZigEscapeExpr {
                    span: Span { start, end },
                    code: trim(s.subrange(cs, ce)),
                })), q2))
            },
        }
    }
}

// ------------------------------------------------------------------
// Statements and expressions (one mutually recursive family)
// ------------------------------------------------------------------

pub open spec fn g_stmt(t: Seq<Tok>, s: Seq<char>, p: int) -> SR<SStmt>
    decreases t.len() - p, 4nat,
{
    if !(0 <= p <= t.len()) {
        Err(SParseError::EndOfInput)
    } else if is_at(t, p, Token::Let) || is_at(t, p, Token::Const) {
        match g_var_decl(t, s, p) {
            Err(e) => Err(e),
            Ok((v, q)) => Ok((SStmt::Var(v), q)),
        }
    } else if is_at(t, p, Token::While) {
        match g_while(t, s, p) {
            Err(e) => Err(e),
            Ok((w, q)) => Ok((SStmt::While(w), q)),
        }
    } else if is_at(t, p, Token::If) {
        match g_if(t, s, p) {
            Err(e) => Err(e),
            Ok((i, q)) => Ok((SStmt::If(i), q)),
        }
    } else if is_at(t, p, Token::Return) {
        match g_return(t, s, p) {
            Err(e) => Err(e),
            Ok((r, q)) => Ok((SStmt::Return(r), q)),
        }
    } else if is_at(t, p, Token::Defer) {
        match g_stmt(t, s, p + 1) {
            Err(e) => Err(e),
            Ok((st, q)) => Ok((SStmt::Defer(Box::new(st)), q)),
        }
    } else if is_at(t, p, Token::ErrDefer) {
        match g_stmt(t, s, p + 1) {
            Err(e) => Err(e),
            Ok((st, q)) => Ok((SStmt::ErrDefer(Box::new(st)), q)),
        }
    } else if is_at(t, p, Token::Bang) {
        match g_expr(t, s, p) {
            Err(e) => Err(e),
            Ok((x, q)) => Ok((SStmt::Expr(x), q)),
        }
    } else if is_at(t, p, Token::LBrace) {
        match g_block(t, s, p) {
            Err(e) => Err(e),
            Ok((b, q)) => Ok((SStmt::Block(b), q)),
        }
    } else if is_at(t, p, Token::ZigEscape) {
        g_zig(t, s, p)
    } else {
        match g_expr(t, s, p) {
            Err(e) => Err(e),
            Ok((x, q)) => Ok((SStmt::Expr(x), skip_if(t, q, Token::Semicolon))),
        }
    }
}

/// Statements up to `}` or the end of input.
pub open spec fn g_stmts(t: Seq<Tok>, s: Seq<char>, p: int) -> SR<Seq<SStmt>>
    decreases t.len() - p, 5nat,
{
    if !(0 <= p < t.len()) || is_at(t, p, Token::RBrace) {
        Ok((Seq::empty(), p))
    } else {
        match g_stmt(t, s, p) {
            Err(e) => Err(e),
            Ok((x, q)) => if bad(t, p, q) {
                Err(SParseError::EndOfInput)
            } else {
                match g_stmts(t, s, q) {
                    Err(e) => Err(e),
                    Ok((rest, q2)) => Ok((seq![x] + rest, q2)),
                }
            },
        }
    }
}

pub open spec fn g_block(t: Seq<Tok>, s: Seq<char>, p: int) -> SR<SBlockStmt>
    decreases t.len() - p, 1nat,
{
    match g_expect(t, p, Token::LBrace) {
        Err(e) => Err(e),
        Ok((sp, q)) => match g_stmts(t, s, q) {
            Err(e) => Err(e),
            Ok((body, q2)) => match g_expect(t, q2, Token::RBrace) {
                Err(e) => Err(e),
                Ok((esp, q3)) => Ok((SBlockStmt { span: Span { start: sp.start, end: esp.end }, body }, q3)),
            },
        },
    }
}

/// `let`/`const` pattern (`: type`)? `=` expr `;`
pub open spec fn g_var_decl(t: Seq<Tok>, s: Seq<char>, p: int) -> SR<SVarDecl>
    decreases t.len() - p, 1nat,
{
    if !(0 <= p < t.len()) {
        Err(SParseError::EndOfInput)
    } else {
        let start = t[p].span.start;
        let kind = if t[p].token == Token::Let { VarDeclKind::Let } else { VarDeclKind::Const };
        match g_pattern(t, p + 1) {
            Err(e) => Err(e),
            Ok((pat, q)) => {
                let ty: SR<Option<SType>> = if is_at(t, q, Token::Colon) {
                    match g_type(t, q + 1) {
                        Err(e) => Err(e),
                        Ok((ty, q1)) => Ok((Some(ty), q1)),
                    }
                } else {
                    Ok((None, q))
                };
                match ty {
                    Err(e) => Err(e),
                    Ok((ty, q1)) => match g_expect(t, q1, Token::Assign) {
                        Err(e) => Err(e),
                        Ok((_, q2)) => if bad(t, p, q2) {
                            Err(SParseError::EndOfInput)
                        } else {
                            match g_expr(t, s, q2) {
                                Err(e) => Err(e),
                                Ok((init, q3)) => match g_expect(t, q3, Token::Semicolon) {
                                    Err(e) => Err(e),
                                    Ok((_, q4)) => Ok((SVarDecl {
                                        span: Span { start, end: peek_span(t, q4).end },
                                        kind,
                                        pat,
                                        ty,
                                        init: Some(init),
                                    }, q4)),
                                },
                            }
                        },
                    },
                }
            },
        }
    }
}

/// `while (test) body`
pub open spec fn g_while(t: Seq<Tok>, s: Seq<char>, p: int) -> SR<SWhileStmt>
    decreases t.len() - p, 1nat,
{
    match g_expect(t, p, Token::While) {
        Err(e) => Err(e),
        Ok((sp, q)) => match g_expect(t, q, Token::LParen) {
            Err(e) => Err(e),
            Ok((_, q1)) => match g_expr(t, s, q1) {
                Err(e) => Err(e),
                Ok((test, q2)) => match g_expect(t, q2, Token::RParen) {
                    Err(e) => Err(e),
                    Ok((_, q3)) => if bad(t, p, q3) {
                        Err(SParseError::EndOfInput)
                    } else {
                        match g_stmt(t, s, q3) {
                            Err(e) => Err(e),
                            Ok((body, q4)) => Ok((SWhileStmt {
                                span: Span { start: sp.start, end: 0 },
                                test,
                                body: Box::new(body),
                            }, q4)),
                        }
                    },
                },
            },
        },
    }
}

/// `if (test) cons` (`else alt`)?
pub open spec fn g_if(t: Seq<Tok>, s: Seq<char>, p: int) -> SR<SIfStmt>
    decreases t.len() - p, 1nat,
{
    match g_expect(t, p, Token::If) {
        Err(e) => Err(e),
        Ok((sp, q)) => match g_expect(t, q, Token::LParen) {
            Err(e) => Err(e),
            Ok((_, q1)) => match g_expr(t, s, q1) {
                Err(e) => Err(e),
                Ok((test, q2)) => match g_expect(t, q2, Token::RParen) {
                    Err(e) => Err(e),
                    Ok((_, q3)) => if bad(t, p, q3) {
                        Err(SParseError::EndOfInput)
                    } else {
                        match g_stmt(t, s, q3) {
                            Err(e) => Err(e),
                            Ok((cons, q4)) => if is_at(t, q4, Token::Else) && !bad(t, p, q4) {
                                match g_stmt(t, s, q4 + 1) {
                                    Err(e) => Err(e),
                                    Ok((alt, q5)) => Ok((SIfStmt {
                                        span: Span { start: sp.start, end: 0 },
                                        test,
                                        cons: Box::new(cons),
                                        alt: Some(Box::new(alt)),
                                    }, q5)),
                                }
                            } else if is_at(t, q4, Token::Else) {
                                Err(SParseError::EndOfInput)
                            } else {
                                Ok((SIfStmt {
                                    span: Span { start: sp.start, end: 0 },
                                    test,
                                    cons: Box::new(cons),
                                    alt: None,
                                }, q4))
                            },
                        }
                    },
                },
            },
        },
    }
}

/// `return` expr? `;`
pub open spec fn g_return(t: Seq<Tok>, s: Seq<char>, p: int) -> SR<SReturnStmt>
    decreases t.len() - p, 1nat,
{
    match g_expect(t, p, Token::Return) {
        Err(e) => Err(e),
        Ok((sp, q)) => {
            let arg: SR<Option<SExpr>> = if !is_at(t, q, Token::Semicolon) {
                match g_expr(t, s, q) {
                    Err(e) => Err(e),
                    Ok((x, q1)) => Ok((Some(x), q1)),
                }
            } else {
                Ok((None, q))
            };
            match arg {
                Err(e) => Err(e),
                Ok((arg, q1)) => match g_expect(t, q1, Token::Semicolon) {
                    Err(e) => Err(e),
                    Ok((esp, q2)) => Ok((SReturnStmt { span: Span { start: sp.start, end: esp.end }, arg }, q2)),
                },
            }
        },
    }
}

pub open spec fn g_expr(t: Seq<Tok>, s: Seq<char>, p: int) -> SR<SExpr>
    decreases t.len() - p, 3nat,
{
    g_bin(t, s, p, 0)
}

/// An expression whose binary operators bind at least as tight as `min_prec`.
pub open spec fn g_bin(t: Seq<Tok>, s: Seq<char>, p: int, min_prec: nat) -> SR<SExpr>
    decreases t.len() - p, 2nat,
{
    match g_primary(t, s, p) {
        Err(e) => Err(e),
        Ok((left, q)) => if bad(t, p, q) {
            Err(SParseError::EndOfInput)
        } else {
            g_postfix(t, s, left, q, min_prec)
        },
    }
}

/// Calls, member accesses, `?`, indexing and arrow bodies after `left`, then
/// the binary operators.
pub open spec fn g_postfix(t: Seq<Tok>, s: Seq<char>, left: SExpr, p: int, min_prec: nat) -> SR<SExpr>
    decreases t.len() - p, 2nat,
{
    if !(0 <= p <= t.len()) {
        Err(SParseError::EndOfInput)
    } else if is_at(t, p, Token::LParen) {
        match g_args(t, s, p + 1) {
            Err(e) => Err(e),
            Ok((args, q)) => match g_expect(t, q, Token::RParen) {
                Err(e) => Err(e),
                Ok((esp, q2)) => if bad(t, p, q2) {
                    Err(SParseError::EndOfInput)
                } else {
                    g_postfix(t, s, SExpr::Call(SCallExpr {
                        span: Span { start: s_left_span(left).start, end: esp.end },
                        callee: Box::new(left),
                        args,
                        is_comptime: false,
                    }), q2, min_prec)
                },
            },
        }
    } else if is_at(t, p, Token::Dot) {
        match g_ident(t, p + 1) {
            Err(e) => Err(e),
            Ok((prop, q)) => if is_at(t, q, Token::LBrace) {
                match g_enum_init_fields(t, s, q + 1) {
                    Err(e) => Err(e),
                    Ok((fields, q2)) => match g_expect(t, q2, Token::RBrace) {
                        Err(e) => Err(e),
                        Ok((esp, q3)) => if bad(t, p, q3) {
                            Err(SParseError::EndOfInput)
                        } else {
                            let enum_name = match left {
                                SExpr::Ident(id) => id,
                                _ => SIdent { span: Span { start: 0, end: 0 }, sym: "Unknown"@ },
                            };
                            g_postfix(t, s, SExpr::EnumInit(SEnumInitExpr {
                                span: Span { start: s_left_span(left).start, end: esp.end },
                                enum_name,
                                variant_name: prop,
                                fields: Some(fields),
                            }), q3, min_prec)
                        },
                    },
                }
            } else {
                g_postfix(t, s, SExpr::Member(SMemberExpr {
                    span: Span { start: s_left_span(left).start, end: prop.span.end },
                    obj: Box::new(left),
                    prop,
                }), q, min_prec)
            },
        }
    } else if is_at(t, p, Token::Question) {
        g_postfix(t, s, SExpr::Question(Box::new(left)), p + 1, min_prec)
    } else if is_at(t, p, Token::LBracket) {
        match g_index(t, s, left, p) {
            Err(e) => Err(e),
            Ok((x, q)) => if bad(t, p, q) {
                Err(SParseError::EndOfInput)
            } else {
                g_postfix(t, s, x, q, min_prec)
            },
        }
    } else if is_at(t, p, Token::FatArrow) {
        match g_arrow_body(t, s, p + 1) {
            Err(e) => Err(e),
            Ok((body, q)) => if bad(t, p, q) {
                Err(SParseError::EndOfInput)
            } else {
                g_postfix(t, s, SExpr::Arrow(Box::new(SArrowExpr {
                    span: Span { start: s_left_span(left).start, end: peek_span(t, q).end },
                    params: arrow_params_of(left),
                    body: Box::new(body),
                })), q, min_prec)
            },
        }
    } else {
        g_binops(t, s, left, p, min_prec)
    }
}

/// `left[i]`, `left[a..b]`, `left[..b]`, `left[a..]` at the `[`.
pub open spec fn g_index(t: Seq<Tok>, s: Seq<char>, left: SExpr, p: int) -> SR<SExpr>
    decreases t.len() - p, 1nat,
{
    if !(0 <= p < t.len()) {
        Err(SParseError::EndOfInput)
    } else {
        let start_span = t[p].span;
        let parts: SR<(bool, Option<SExpr>, Option<SExpr>)> = if is_at(t, p + 1, Token::DotDot) {
            if is_at(t, p + 2, Token::RBracket) {
                Ok(((true, None, None), p + 2))
            } else {
                match g_expr(t, s, p + 2) {
                    Err(e) => Err(e),
                    Ok((x, q)) => Ok(((true, None, Some(x)), q)),
                }
            }
        } else {
            match g_expr(t, s, p + 1) {
                Err(e) => Err(e),
                Ok((idx, q)) => if is_at(t, q, Token::DotDot) && !bad(t, p, q) {
                    if is_at(t, q + 1, Token::RBracket) {
                        Ok(((true, Some(idx), None), q + 1))
                    } else {
                        match g_expr(t, s, q + 1) {
                            Err(e) => Err(e),
                            Ok((x, q2)) => Ok(((true, Some(idx), Some(x)), q2)),
                        }
                    }
                } else if is_at(t, q, Token::DotDot) {
                    Err(SParseError::EndOfInput)
                } else {
                    Ok(((false, Some(idx), None), q))
                },
            }
        };
        match parts {
            Err(e) => Err(e),
            Ok(((is_slice, start, end), q)) => match g_expect(t, q, Token::RBracket) {
                Err(e) => Err(e),
                Ok((esp, q2)) => {
                    let span = Span { start: s_left_span(left).start, end: esp.end };
                    if is_slice {
                        Ok((SExpr::Slice(SSliceExpr {
                            span,
                            obj: Box::new(left),
                            start: match start { Some(x) => Some(Box::new(x)), None => None },
                            end: match end { Some(x) => Some(Box::new(x)), None => None },
                        }), q2))
                    } else {
                        Ok((SExpr::Member(SMemberExpr {
                            span,
                            obj: Box::new(left),
                            prop: SIdent { span: start_span, sym: "at"@ },
                        }), q2))
                    }
                },
            },
        }
    }
}

/// The binary operators after `left` whose precedence is at least `min_prec`.
pub open spec fn g_binops(t: Seq<Tok>, s: Seq<char>, left: SExpr, p: int, min_prec: nat) -> SR<SExpr>
    decreases t.len() - p, 1nat,
{
    if !(0 <= p < t.len()) {
        Ok((left, p))
    } else {
        match op_of(t[p].token) {
            None => Ok((left, p)),
            Some(op) => if precedence(op) < min_prec {
                Ok((left, p))
            } else {
                match g_bin(t, s, p + 1, precedence(op) + 1) {
                    Err(e) => Err(e),
                    Ok((right, q)) => if bad(t, p, q) {
                        Err(SParseError::EndOfInput)
                    } else {
                        g_binops(t, s, SExpr::Bin(SBinExpr {
                            span: Span { start: s_left_span(left).start, end: s_right_span(right).end },
                            op,
                            left: Box::new(left),
                            right: Box::new(right),
                        }), q, min_prec)
                    },
                }
            },
        }
    }
}

/// The body of an arrow function: a block or an expression.
pub open spec fn g_arrow_body(t: Seq<Tok>, s: Seq<char>, p: int) -> SR<SArrowBody>
    decreases t.len() - p, 4nat,
{
    if is_at(t, p, Token::LBrace) {
        match g_block(t, s, p) {
            Err(e) => Err(e),
            Ok((b, q)) => Ok((SArrowBody::Block(b), q)),
        }
    } else {
        match g_expr(t, s, p) {
            Err(e) => Err(e),
            Ok((x, q)) => Ok((SArrowBody::Expr(x), q)),
        }
    }
}

/// Expressions up to `)`, each optionally followed by `,`.
pub open spec fn g_args(t: Seq<Tok>, s: Seq<char>, p: int) -> SR<Seq<SExpr>>
    decreases t.len() - p, 4nat,
{
    if !(0 <= p <= t.len()) || is_at(t, p, Token::RParen) {
        Ok((Seq::empty(), p))
    } else {
        match g_expr(t, s, p) {
            Err(e) => Err(e),
            Ok((x, q)) => if bad(t, p, q) {
                Err(SParseError::EndOfInput)
            } else {
                match g_args(t, s, skip_if(t, q, Token::Comma)) {
                    Err(e) => Err(e),
                    Ok((rest, q2)) => Ok((seq![x] + rest, q2)),
                }
            },
        }
    }
}

/// Arguments of a builtin call, up to `)` or the end of input.
pub open spec fn g_builtin_args(t: Seq<Tok>, s: Seq<char>, p: int) -> SR<Seq<SExpr>>
    decreases t.len() - p, 3nat,
{
    if !(0 <= p < t.len()) || is_at(t, p, Token::RParen) {
        Ok((Seq::empty(), p))
    } else {
        match g_bin(t, s, p, 0) {
            Err(e) => Err(e),
            Ok((x, q)) => if bad(t, p, q) {
                Err(SParseError::EndOfInput)
            } else {
                match g_builtin_args(t, s, skip_if(t, q, Token::Comma)) {
                    Err(e) => Err(e),
                    Ok((rest, q2)) => Ok((seq![x] + rest, q2)),
                }
            },
        }
    }
}

/// Expressions up to `]`, each optionally followed by `,`.
pub open spec fn g_array_elems(t: Seq<Tok>, s: Seq<char>, p: int) -> SR<Seq<SExpr>>
    decreases t.len() - p, 4nat,
{
    if !(0 <= p <= t.len()) || is_at(t, p, Token::RBracket) {
        Ok((Seq::empty(), p))
    } else {
        match g_expr(t, s, p) {
            Err(e) => Err(e),
            Ok((x, q)) => if bad(t, p, q) {
                Err(SParseError::EndOfInput)
            } else {
                match g_array_elems(t, s, skip_if(t, q, Token::Comma)) {
                    Err(e) => Err(e),
                    Ok((rest, q2)) => Ok((seq![x] + rest, q2)),
                }
            },
        }
    }
}

/// `key: expr` entries of an object literal up to `}`.
pub open spec fn g_object_fields(t: Seq<Tok>, s: Seq<char>, p: int) -> SR<Seq<SObjectField>>
    decreases t.len() - p, 2nat,
{
    if !(0 <= p <= t.len()) || is_at(t, p, Token::RBrace) {
        Ok((Seq::empty(), p))
    } else {
        match g_object_field(t, s, p) {
            Err(e) => Err(e),
            Ok((x, q)) => if bad(t, p, q) {
                Err(SParseError::EndOfInput)
            } else {
                match g_object_fields(t, s, skip_if(t, q, Token::Comma)) {
                    Err(e) => Err(e),
                    Ok((rest, q2)) => Ok((seq![x] + rest, q2)),
                }
            },
        }
    }
}

/// `key: expr` entries of an enum initializer up to `}`.
pub open spec fn g_enum_init_fields(t: Seq<Tok>, s: Seq<char>, p: int) -> SR<Seq<SEnumInitField>>
    decreases t.len() - p, 2nat,
{
    if !(0 <= p <= t.len()) || is_at(t, p, Token::RBrace) {
        Ok((Seq::empty(), p))
    } else {
        match g_enum_init_field(t, s, p) {
            Err(e) => Err(e),
            Ok((x, q)) => if bad(t, p, q) {
                Err(SParseError::EndOfInput)
            } else {
                match g_enum_init_fields(t, s, skip_if(t, q, Token::Comma)) {
                    Err(e) => Err(e),
                    Ok((rest, q2)) => Ok((seq![x] + rest, q2)),
                }
            },
        }
    }
}

/// `match` at `p - 1` is followed by `(disc) { pattern => stmt, ... }`.
pub open spec fn g_match_expr(t: Seq<Tok>, s: Seq<char>, p: int) -> SR<SMatchExpr>
    decreases t.len() - p, 1nat,
{
    let start = peek_span(t, p).start;
    match g_expect(t, p, Token::LParen) {
        Err(e) => Err(e),
        Ok((_, q)) => match g_expr(t, s, q) {
            Err(e) => Err(e),
            Ok((disc, q1)) => match g_expect(t, q1, Token::RParen) {
                Err(e) => Err(e),
                Ok((_, q2)) => match g_expect(t, q2, Token::LBrace) {
                    Err(e) => Err(e),
                    Ok((_, q3)) => if bad(t, p, q3) {
                        Err(SParseError::EndOfInput)
                    } else {
                        match g_match_arms(t, s, q3) {
                            Err(e) => Err(e),
                            Ok((arms, q4)) => match g_expect(t, q4, Token::RBrace) {
                                Err(e) => Err(e),
                                Ok((esp, q5)) => Ok((SMatchExpr {
                                    span: Span { start, end: esp.end },
                                    disc: Box::new(disc),
                                    arms,
                                }, q5)),
                            },
                        }
                    },
                },
            },
        },
    }
}

/// `pattern => stmt` arms, each optionally followed by `,`, up to `}` or the end of input.
pub open spec fn g_match_arms(t: Seq<Tok>, s: Seq<char>, p: int) -> SR<Seq<SMatchArm>>
    decreases t.len() - p, 2nat,
{
    if !(0 <= p < t.len()) || is_at(t, p, Token::RBrace) {
        Ok((Seq::empty(), p))
    } else {
        match g_match_arm(t, s, p) {
            Err(e) => Err(e),
            Ok((x, q)) => if bad(t, p, q) {
                Err(SParseError::EndOfInput)
            } else {
                match g_match_arms(t, s, skip_if(t, q, Token::Comma)) {
                    Err(e) => Err(e),
                    Ok((rest, q2)) => Ok((seq![x] + rest, q2)),
                }
            },
        }
    }
}

/// `@name(args)`: the builtin call whose name token spans `sp`; `p` is after the name.
pub open spec fn g_builtin(t: Seq<Tok>, s: Seq<char>, name: Seq<char>, sp: Span, p: int) -> SR<SExpr>
    decreases t.len() - p, 4nat,
{
    match g_expect(t, p, Token::LParen) {
        Err(e) => Err(e),
        Ok((_, q)) => match g_builtin_args(t, s, q) {
            Err(e) => Err(e),
            Ok((args, q1)) => match g_expect(t, q1, Token::RParen) {
                Err(e) => Err(e),
                Ok((_, q2)) => Ok((SExpr::Builtin(SBuiltinCall {
                    span: Span { start: sp.start, end: peek_span(t, q2).end },
                    name,
                    args,
                }), q2)),
            },
        },
    }
}

pub open spec fn g_primary(t: Seq<Tok>, s: Seq<char>, p: int) -> SR<SExpr>
    decreases t.len() - p, 1nat,
{
    if !(0 <= p < t.len()) {
        Err(SParseError::EndOfInput)
    } else {
        let sp = t[p].span;
        let p1 = p + 1;
        match t[p].token {
            Token::Spawn => match g_expr(t, s, p1) {
                Err(e) => Err(e),
                Ok((callee, q)) => Ok((SExpr::Spawn(Box::new(SSpawnExpr {
                    span: Span { start: sp.start, end: s_right_span(callee).end },
                    callee: Box::new(callee),
                    args: Seq::empty(),
                })), q)),
            },
            Token::Ident(x) => if x@.len() > 0 && x@[0] == '@' {
                g_builtin(t, s, x@, sp, p1)
            } else {
                Ok((SExpr::Ident(SIdent { span: sp, sym: x@ }), p1))
            },
            Token::At => match g_ident(t, p1) {
                Err(e) => Err(e),
                Ok((id, q)) => g_builtin(t, s, seq!['@'] + id.sym, sp, q),
            },
            Token::Match => match g_match_expr(t, s, p1) {
                Err(e) => Err(e),
                Ok((m, q)) => Ok((SExpr::Match(Box::new(m)), q)),
            },
            Token::LParen => match g_arrow_params(t, p1) {
                Ok((params, q)) if is_at(t, q, Token::FatArrow) && !bad(t, p, q) => {
                    match g_arrow_body(t, s, q + 1) {
                        Err(e) => Err(e),
                        Ok((body, q2)) => Ok((SExpr::Arrow(Box::new(SArrowExpr {
                            span: Span { start: sp.start, end: peek_span(t, q2).end },
                            params,
                            body: Box::new(body),
                        })), q2)),
                    }
                },
                _ => match g_expr(t, s, p1) {
                    Err(e) => Err(e),
                    Ok((x, q)) => match g_expect(t, q, Token::RParen) {
                        Err(e) => Err(e),
                        Ok((_, q2)) => Ok((x, q2)),
                    },
                },
            },
            Token::LBrace => match g_object_fields(t, s, p1) {
                Err(e) => Err(e),
                Ok((fields, q)) => match g_expect(t, q, Token::RBrace) {
                    Err(e) => Err(e),
                    Ok((_, q2)) => Ok((SExpr::Object(fields), q2)),
                },
            },
            Token::Await => match g_expr(t, s, p1) {
                Err(e) => Err(e),
                Ok((x, q)) => Ok((SExpr::Await(Box::new(x)), q)),
            },
            Token::IntLiteral(v) => Ok((SExpr::Lit(SLit::Int(v)), p1)),
            Token::StringLiteral(x) => Ok((SExpr::Lit(SLit::Str(x@)), p1)),
            Token::New => match g_primary(t, s, p1) {
                Err(e) => Err(e),
                Ok((callee, q)) => match callee {
                    SExpr::Ident(id) => match g_expect(t, q, Token::LParen) {
                        Err(e) => Err(e),
                        Ok((_, q1)) => if bad(t, p, q1) {
                            Err(SParseError::EndOfInput)
                        } else {
                            match g_args(t, s, q1) {
                                Err(e) => Err(e),
                                Ok((args, q2)) => match g_expect(t, q2, Token::RParen) {
                                    Err(e) => Err(e),
                                    Ok((esp, q3)) => Ok((SExpr::New(SCallExpr {
                                        span: Span { start: sp.start, end: esp.end },
                                        callee: Box::new(SExpr::Ident(id)),
                                        args,
                                        is_comptime: false,
                                    }), q3)),
                                },
                            }
                        },
                    },
                    _ => Err(SParseError::UnexpectedToken(Token::New, sp)),
                },
            },
            Token::Receive => {
                let ty: SR<Option<Box<SType>>> = if is_at(t, p1, Token::Less) {
                    match g_type(t, p1 + 1) {
                        Err(e) => Err(e),
                        Ok((ty, q)) => match g_expect(t, q, Token::Greater) {
                            Err(e) => Err(e),
                            Ok((_, q1)) => Ok((Some(Box::new(ty)), q1)),
                        },
                    }
                } else {
                    Ok((None, p1))
                };
                match ty {
                    Err(e) => Err(e),
                    Ok((ty, q)) => match g_expect(t, q, Token::LParen) {
                        Err(e) => Err(e),
                        Ok((_, q1)) => match g_expect(t, q1, Token::RParen) {
                            Err(e) => Err(e),
                            Ok((_, q2)) => Ok((SExpr::Receive(ty), q2)),
                        },
                    },
                }
            },
            Token::LBracket => match g_array_elems(t, s, p1) {
                Err(e) => Err(e),
                Ok((elems, q)) => match g_expect(t, q, Token::RBracket) {
                    Err(e) => Err(e),
                    Ok((_, q2)) => Ok((SExpr::Array(elems), q2)),
                },
            },
            _ => Err(SParseError::UnexpectedToken(t[p].token, sp)),
        }
    }
}

// ------------------------------------------------------------------
// List elements
// ------------------------------------------------------------------

/// `name: type`
pub open spec fn g_type_field(t: Seq<Tok>, p: int) -> SR<SField>
    decreases t.len() - p, 1nat,
{
    match g_ident(t, p) {
        Err(e) => Err(e),
        Ok((id, q)) => match g_expect(t, q, Token::Colon) {
            Err(e) => Err(e),
            Ok((_, q1)) => match g_type(t, q1) {
                Err(e) => Err(e),
                Ok((ty, q2)) => Ok((SField { span: id.span, ident: id, ty }, q2)),
            },
        },
    }
}

/// `key` or `key: pattern`
pub open spec fn g_pattern_prop(t: Seq<Tok>, p: int) -> SR<SObjectPatProp>
    decreases t.len() - p, 1nat,
{
    match g_ident(t, p) {
        Err(e) => Err(e),
        Ok((key, q)) => if is_at(t, q, Token::Colon) {
            match g_pattern(t, q + 1) {
                Err(e) => Err(e),
                Ok((pat, q2)) => Ok((SObjectPatProp { key, val: Some(pat) }, q2)),
            }
        } else {
            Ok((SObjectPatProp { key, val: None }, q))
        },
    }
}

/// `name` or `name: type` (the type is read and dropped).
pub open spec fn g_arrow_param(t: Seq<Tok>, p: int) -> SR<SPattern> {
    match g_ident(t, p) {
        Err(e) => Err(e),
        Ok((id, q)) => if is_at(t, q, Token::Colon) {
            match g_type(t, q + 1) {
                Err(e) => Err(e),
                Ok((_, q2)) => Ok((SPattern::Ident(id), q2)),
            }
        } else {
            Ok((SPattern::Ident(id), q))
        },
    }
}

/// `key: expr` in an object literal.
pub open spec fn g_object_field(t: Seq<Tok>, s: Seq<char>, p: int) -> SR<SObjectField>
    decreases t.len() - p, 1nat,
{
    match g_ident(t, p) {
        Err(e) => Err(e),
        Ok((key, q)) => match g_expect(t, q, Token::Colon) {
            Err(e) => Err(e),
            Ok((_, q1)) => match g_expr(t, s, q1) {
                Err(e) => Err(e),
                Ok((val, q2)) => Ok((SObjectField { key, val }, q2)),
            },
        },
    }
}

/// `key: expr` in an enum initializer.
pub open spec fn g_enum_init_field(t: Seq<Tok>, s: Seq<char>, p: int) -> SR<SEnumInitField>
    decreases t.len() - p, 1nat,
{
    match g_ident(t, p) {
        Err(e) => Err(e),
        Ok((key, q)) => match g_expect(t, q, Token::Colon) {
            Err(e) => Err(e),
            Ok((_, q1)) => match g_expr(t, s, q1) {
                Err(e) => Err(e),
                Ok((val, q2)) => Ok((SEnumInitField { key, val }, q2)),
            },
        },
    }
}

/// `pattern => stmt`
pub open spec fn g_match_arm(t: Seq<Tok>, s: Seq<char>, p: int) -> SR<SMatchArm>
    decreases t.len() - p, 1nat,
{
    match g_pattern(t, p) {
        Err(e) => Err(e),
        Ok((pat, q)) => match g_expect(t, q, Token::FatArrow) {
            Err(e) => Err(e),
            Ok((_, q1)) => if bad(t, p, q1) {
                Err(SParseError::EndOfInput)
            } else {
                match g_stmt(t, s, q1) {
                    Err(e) => Err(e),
                    Ok((body, q2)) => Ok((SMatchArm {
                        span: Span { start: 0, end: 0 },
                        pat,
                        body: Box::new(body),
                    }, q2)),
                }
            },
        },
    }
}

/// `name: type`, or a bare `this` (of type `any`).
pub open spec fn g_param(t: Seq<Tok>, p: int) -> SR<SParam> {
    match g_ident(t, p) {
        Err(e) => Err(e),
        Ok((id, q)) => {
            let ty: SR<SType> = if id.sym == "this"@ && !is_at(t, q, Token::Colon) {
                Ok((SType::Any, q))
            } else {
                match g_expect(t, q, Token::Colon) {
                    Err(e) => Err(e),
                    Ok((_, q1)) => g_type(t, q1),
                }
            };
            match ty {
                Err(e) => Err(e),
                Ok((ty, q2)) => Ok((SParam { span: id.span, ident: id, ty, is_comptime: false }, q2)),
            }
        },
    }
}

/// `fn name(params) (: type)? ;`
pub open spec fn g_method_sig(t: Seq<Tok>, p: int) -> SR<SMethodSig> {
    let m_start = peek_span(t, p).start;
    match g_expect(t, p, Token::Fn) {
        Err(e) => Err(e),
        Ok((_, q)) => match g_ident(t, q) {
            Err(e) => Err(e),
            Ok((ident, q1)) => match g_params(t, q1) {
                Err(e) => Err(e),
                Ok((params, q2)) => match g_return_type(t, q2) {
                    Err(e) => Err(e),
                    Ok((return_type, q3)) => match g_expect(t, q3, Token::Semicolon) {
                        Err(e) => Err(e),
                        Ok((_, q4)) => Ok((SMethodSig {
                            span: Span { start: m_start, end: peek_span(t, q4).start },
                            ident,
                            params,
                            return_type,
                        }, q4)),
                    },
                },
            },
        },
    }
}

/// `Name ({ fields })? (= expr)?`
pub open spec fn g_enum_variant(t: Seq<Tok>, s: Seq<char>, p: int) -> SR<SEnumVariant> {
    match g_ident(t, p) {
        Err(e) => Err(e),
        Ok((ident, q)) => {
            let fields: SR<Option<Seq<SField>>> = if is_at(t, q, Token::LBrace) {
                match g_type_fields(t, q + 1) {
                    Err(e) => Err(e),
                    Ok((fs, q1)) => match g_expect(t, q1, Token::RBrace) {
                        Err(e) => Err(e),
                        Ok((_, q2)) => Ok((Some(fs), q2)),
                    },
                }
            } else {
                Ok((None, q))
            };
            match fields {
                Err(e) => Err(e),
                Ok((fields, q2)) => {
                    let value: SR<Option<SExpr>> = if is_at(t, q2, Token::Assign) {
                        match g_expr(t, s, q2 + 1) {
                            Err(e) => Err(e),
                            Ok((v, q3)) => Ok((Some(v), q3)),
                        }
                    } else {
                        Ok((None, q2))
                    };
                    match value {
                        Err(e) => Err(e),
                        Ok((value, q3)) => Ok((SEnumVariant { span: ident.span, ident, fields, value }, q3)),
                    }
                },
            }
        },
    }
}

// ------------------------------------------------------------------
// Declarations and modules
// ------------------------------------------------------------------

/// Parameters up to `)`, each optionally followed by `,`.
pub open spec fn g_param_list(t: Seq<Tok>, p: int) -> SR<Seq<SParam>>
    decreases t.len() - p,
{
    if !(0 <= p <= t.len()) || is_at(t, p, Token::RParen) {
        Ok((Seq::empty(), p))
    } else {
        match g_param(t, p) {
            Err(e) => Err(e),
            Ok((x, q)) => {
                proof {
                    lemma_g_param(t, p);
                }
                match g_param_list(t, skip_if(t, q, Token::Comma)) {
                    Err(e) => Err(e),
                    Ok((rest, q2)) => Ok((seq![x] + rest, q2)),
                }
            },
        }
    }
}

/// `( params )`
pub open spec fn g_params(t: Seq<Tok>, p: int) -> SR<Seq<SParam>> {
    match g_expect(t, p, Token::LParen) {
        Err(e) => Err(e),
        Ok((_, q)) => match g_param_list(t, q) {
            Err(e) => Err(e),
            Ok((ps, q1)) => match g_expect(t, q1, Token::RParen) {
                Err(e) => Err(e),
                Ok((_, q2)) => Ok((ps, q2)),
            },
        },
    }
}

/// `: type` if present.
pub open spec fn g_return_type(t: Seq<Tok>, p: int) -> SR<Option<SType>> {
    if is_at(t, p, Token::Colon) {
        match g_type(t, p + 1) {
            Err(e) => Err(e),
            Ok((ty, q)) => Ok((Some(ty), q)),
        }
    } else {
        Ok((None, p))
    }
}

/// `async`? `fn` name `(params)` (`: type`)? followed by a block or `;`.
pub open spec fn g_function(t: Seq<Tok>, s: Seq<char>, p: int) -> SR<SFunction> {
    let start = peek_span(t, p).start;
    let is_async = is_at(t, p, Token::Async);
    match g_expect(t, skip_if(t, p, Token::Async), Token::Fn) {
        Err(e) => Err(e),
        Ok((_, q)) => match g_ident(t, q) {
            Err(e) => Err(e),
            Ok((ident, q1)) => match g_params(t, q1) {
                Err(e) => Err(e),
                Ok((params, q2)) => match g_return_type(t, q2) {
                    Err(e) => Err(e),
                    Ok((return_type, q3)) => {
                        let body: SR<SBlockStmt> = if is_at(t, q3, Token::Semicolon) {
                            Ok((SBlockStmt { span: t[q3].span, body: Seq::empty() }, q3 + 1))
                        } else {
                            g_block(t, s, q3)
                        };
                        match body {
                            Err(e) => Err(e),
                            Ok((body, q4)) => Ok((SFunction {
                                span: Span { start, end: body.span.end },
                                ident,
                                params,
                                return_type,
                                body,
                                is_async,
                            }, q4)),
                        }
                    },
                },
            },
        },
    }
}

/// Methods and fields of a class up to `}`.
pub open spec fn g_class_members(t: Seq<Tok>, s: Seq<char>, p: int) -> SR<(Seq<SField>, Seq<SFunction>)>
    decreases t.len() - p,
{
    if !(0 <= p <= t.len()) || is_at(t, p, Token::RBrace) {
        Ok(((Seq::empty(), Seq::empty()), p))
    } else if is_at(t, p, Token::Fn) || is_at(t, p, Token::Async) {
        match g_function(t, s, p) {
            Err(e) => Err(e),
            Ok((f, q)) => {
                proof {
                    lemma_g_function(t, s, p);
                }
                match g_class_members(t, s, q) {
                    Err(e) => Err(e),
                    Ok(((fields, methods), q2)) => Ok(((fields, seq![f] + methods), q2)),
                }
            },
        }
    } else {
        match g_ident(t, p) {
            Err(e) => Err(e),
            Ok((id, q)) => match g_expect(t, q, Token::Colon) {
                Err(e) => Err(e),
                Ok((_, q1)) => match g_type(t, q1) {
                    Err(e) => Err(e),
                    Ok((ty, q2)) => {
                        let q3 = if is_at(t, q2, Token::Comma) || is_at(t, q2, Token::Semicolon) { q2 + 1 } else { q2 };
                        proof {
                            lemma_g_type(t, q1);
                        }
                        match g_class_members(t, s, q3) {
                            Err(e) => Err(e),
                            Ok(((fields, methods), q4)) =>
                                Ok(((seq![SField { span: id.span, ident: id, ty }] + fields, methods), q4)),
                        }
                    },
                },
            },
        }
    }
}

/// `class Name (extends Base)? { members }`
pub open spec fn g_class(t: Seq<Tok>, s: Seq<char>, p: int) -> SR<SClass> {
    match g_expect(t, p, Token::Class) {
        Err(e) => Err(e),
        Ok((sp, q)) => match g_ident(t, q) {
            Err(e) => Err(e),
            Ok((ident, q1)) => {
                let ext: SR<Seq<SIdent>> = if is_at(t, q1, Token::Extends) {
                    match g_ident(t, q1 + 1) {
                        Err(e) => Err(e),
                        Ok((base, q2)) => Ok((seq![base], q2)),
                    }
                } else {
                    Ok((Seq::empty(), q1))
                };
                match ext {
                    Err(e) => Err(e),
                    Ok((implements, q2)) => match g_expect(t, q2, Token::LBrace) {
                        Err(e) => Err(e),
                        Ok((_, q3)) => match g_class_members(t, s, q3) {
                            Err(e) => Err(e),
                            Ok(((fields, methods), q4)) => match g_expect(t, q4, Token::RBrace) {
                                Err(e) => Err(e),
                                Ok((esp, q5)) => Ok((SClass {
                                    span: Span { start: sp.start, end: esp.end },
                                    ident,
                                    implements,
                                    fields,
                                    methods,
                                }, q5)),
                            },
                        },
                    },
                }
            },
        },
    }
}

/// Method signatures of a trait up to `}`.
pub open spec fn g_trait_methods(t: Seq<Tok>, p: int) -> SR<Seq<SMethodSig>>
    decreases t.len() - p,
{
    if !(0 <= p <= t.len()) || is_at(t, p, Token::RBrace) {
        Ok((Seq::empty(), p))
    } else {
        match g_method_sig(t, p) {
            Err(e) => Err(e),
            Ok((x, q)) => {
                proof {
                    lemma_g_method_sig(t, p);
                }
                match g_trait_methods(t, q) {
                    Err(e) => Err(e),
                    Ok((rest, q2)) => Ok((seq![x] + rest, q2)),
                }
            },
        }
    }
}

/// `trait Name { signatures }`
pub open spec fn g_trait(t: Seq<Tok>, p: int) -> SR<STraitDecl> {
    match g_expect(t, p, Token::Trait) {
        Err(e) => Err(e),
        Ok((sp, q)) => match g_ident(t, q) {
            Err(e) => Err(e),
            Ok((ident, q1)) => match g_expect(t, q1, Token::LBrace) {
                Err(e) => Err(e),
                Ok((_, q2)) => match g_trait_methods(t, q2) {
                    Err(e) => Err(e),
                    Ok((methods, q3)) => match g_expect(t, q3, Token::RBrace) {
                        Err(e) => Err(e),
                        Ok((esp, q4)) => Ok((STraitDecl {
                            span: Span { start: sp.start, end: esp.end },
                            ident,
                            methods,
                        }, q4)),
                    },
                },
            },
        },
    }
}

/// Functions up to `}`.
pub open spec fn g_functions(t: Seq<Tok>, s: Seq<char>, p: int) -> SR<Seq<SFunction>>
    decreases t.len() - p,
{
    if !(0 <= p <= t.len()) || is_at(t, p, Token::RBrace) {
        Ok((Seq::empty(), p))
    } else {
        match g_function(t, s, p) {
            Err(e) => Err(e),
            Ok((x, q)) => {
                proof {
                    lemma_g_function(t, s, p);
                }
                match g_functions(t, s, q) {
                    Err(e) => Err(e),
                    Ok((rest, q2)) => Ok((seq![x] + rest, q2)),
                }
            },
        }
    }
}

/// `impl Trait for Target { functions }`
pub open spec fn g_impl(t: Seq<Tok>, s: Seq<char>, p: int) -> SR<SImplDecl> {
    match g_expect(t, p, Token::Impl) {
        Err(e) => Err(e),
        Ok((sp, q)) => match g_ident(t, q) {
            Err(e) => Err(e),
            Ok((trait_name, q1)) => match g_expect(t, q1, Token::For) {
                Err(e) => Err(e),
                Ok((_, q2)) => match g_ident(t, q2) {
                    Err(e) => Err(e),
                    Ok((target_name, q3)) => match g_expect(t, q3, Token::LBrace) {
                        Err(e) => Err(e),
                        Ok((_, q4)) => match g_functions(t, s, q4) {
                            Err(e) => Err(e),
                            Ok((methods, q5)) => match g_expect(t, q5, Token::RBrace) {
                                Err(e) => Err(e),
                                Ok((esp, q6)) => Ok((SImplDecl {
                                    span: Span { start: sp.start, end: esp.end },
                                    trait_name,
                                    target_name,
                                    methods,
                                }, q6)),
                            },
                        },
                    },
                },
            },
        },
    }
}

/// Variants of an enum up to `}`, each optionally followed by `,`.
pub open spec fn g_enum_variants(t: Seq<Tok>, s: Seq<char>, p: int) -> SR<Seq<SEnumVariant>>
    decreases t.len() - p,
{
    if !(0 <= p <= t.len()) || is_at(t, p, Token::RBrace) {
        Ok((Seq::empty(), p))
    } else {
        match g_enum_variant(t, s, p) {
            Err(e) => Err(e),
            Ok((x, q)) => {
                proof {
                    lemma_g_enum_variant(t, s, p);
                }
                match g_enum_variants(t, s, skip_if(t, q, Token::Comma)) {
                    Err(e) => Err(e),
                    Ok((rest, q2)) => Ok((seq![x] + rest, q2)),
                }
            },
        }
    }
}

/// `enum Name { variants }`
pub open spec fn g_enum(t: Seq<Tok>, s: Seq<char>, p: int) -> SR<SEnumDecl> {
    match g_expect(t, p, Token::Enum) {
        Err(e) => Err(e),
        Ok((sp, q)) => match g_ident(t, q) {
            Err(e) => Err(e),
            Ok((ident, q1)) => match g_expect(t, q1, Token::LBrace) {
                Err(e) => Err(e),
                Ok((_, q2)) => match g_enum_variants(t, s, q2) {
                    Err(e) => Err(e),
                    Ok((variants, q3)) => match g_expect(t, q3, Token::RBrace) {
                        Err(e) => Err(e),
                        Ok((esp, q4)) => Ok((SEnumDecl {
                            span: Span { start: sp.start, end: esp.end },
                            ident,
                            variants,
                        }, q4)),
                    },
                },
            },
        },
    }
}

/// Identifiers up to `}`, each optionally followed by `,`.
pub open spec fn g_ident_list(t: Seq<Tok>, p: int) -> SR<Seq<SIdent>>
    decreases t.len() - p,
{
    if !(0 <= p <= t.len()) || is_at(t, p, Token::RBrace) {
        Ok((Seq::empty(), p))
    } else {
        match g_ident(t, p) {
            Err(e) => Err(e),
            Ok((x, q)) => {
                match g_ident_list(t, skip_if(t, q, Token::Comma)) {
                    Err(e) => Err(e),
                    Ok((rest, q2)) => Ok((seq![x] + rest, q2)),
                }
            },
        }
    }
}

/// `error Name { A, B }`
pub open spec fn g_error_set(t: Seq<Tok>, p: int) -> SR<SErrorSetDecl> {
    match g_expect(t, p, Token::ErrorKw) {
        Err(e) => Err(e),
        Ok((sp, q)) => match g_ident(t, q) {
            Err(e) => Err(e),
            Ok((ident, q1)) => match g_expect(t, q1, Token::LBrace) {
                Err(e) => Err(e),
                Ok((_, q2)) => match g_ident_list(t, q2) {
                    Err(e) => Err(e),
                    Ok((variants, q3)) => match g_expect(t, q3, Token::RBrace) {
                        Err(e) => Err(e),
                        Ok((esp, q4)) => Ok((SErrorSetDecl {
                            span: Span { start: sp.start, end: esp.end },
                            ident,
                            variants,
                        }, q4)),
                    },
                },
            },
        },
    }
}

pub open spec fn g_decl(t: Seq<Tok>, s: Seq<char>, p: int) -> SR<SDecl> {
    if is_at(t, p, Token::Fn) || is_at(t, p, Token::Async) {
        match g_function(t, s, p) { Err(e) => Err(e), Ok((f, q)) => Ok((SDecl::Func(f), q)) }
    } else if is_at(t, p, Token::Class) {
        match g_class(t, s, p) { Err(e) => Err(e), Ok((c, q)) => Ok((SDecl::Class(c), q)) }
    } else if is_at(t, p, Token::Trait) {
        match g_trait(t, p) { Err(e) => Err(e), Ok((x, q)) => Ok((SDecl::Trait(x), q)) }
    } else if is_at(t, p, Token::Impl) {
        match g_impl(t, s, p) { Err(e) => Err(e), Ok((x, q)) => Ok((SDecl::Impl(x), q)) }
    } else if is_at(t, p, Token::Enum) {
        match g_enum(t, s, p) { Err(e) => Err(e), Ok((x, q)) => Ok((SDecl::Enum(x), q)) }
    } else if is_at(t, p, Token::ErrorKw) {
        match g_error_set(t, p) { Err(e) => Err(e), Ok((x, q)) => Ok((SDecl::ErrorSet(x), q)) }
    } else if !(0 <= p < t.len()) {
        Err(SParseError::EndOfInput)
    } else {
        Err(SParseError::UnexpectedToken(t[p].token, peek_span(t, p + 1)))
    }
}

/// Identifiers up to `}` or the end of input, each optionally followed by `,`.
pub open spec fn g_specifiers(t: Seq<Tok>, p: int) -> SR<Seq<SIdent>>
    decreases t.len() - p,
{
    if !(0 <= p < t.len()) || is_at(t, p, Token::RBrace) {
        Ok((Seq::empty(), p))
    } else {
        match g_ident(t, p) {
            Err(e) => Err(e),
            Ok((x, q)) => {
                match g_specifiers(t, skip_if(t, q, Token::Comma)) {
                    Err(e) => Err(e),
                    Ok((rest, q2)) => Ok((seq![x] + rest, q2)),
                }
            },
        }
    }
}

/// `import { names } from "source" ;?`
pub open spec fn g_import(t: Seq<Tok>, p: int) -> SR<SImportStmt> {
    match g_expect(t, p, Token::Import) {
        Err(e) => Err(e),
        Ok((sp, q)) => match g_expect(t, q, Token::LBrace) {
            Err(e) => Err(e),
            Ok((_, q1)) => match g_specifiers(t, q1) {
                Err(e) => Err(e),
                Ok((specifiers, q2)) => match g_expect(t, q2, Token::RBrace) {
                    Err(e) => Err(e),
                    Ok((_, q3)) => match g_expect(t, q3, Token::From) {
                        Err(e) => Err(e),
                        Ok((_, q4)) => if !(0 <= q4 < t.len()) {
                            Err(SParseError::EndOfInput)
                        } else {
                            match t[q4].token {
                                Token::StringLiteral(x) => Ok((SImportStmt {
                                    span: Span { start: sp.start, end: t[q4].span.end },
                                    specifiers,
                                    source: x@,
                                }, skip_if(t, q4 + 1, Token::Semicolon))),
                                _ => Err(SParseError::ExpectedToken(Expected::AStringLiteral, t[q4].token, t[q4].span)),
                            }
                        },
                    },
                },
            },
        },
    }
}

/// Tokens that start a declaration.
pub open spec fn starts_decl(t: Seq<Tok>, p: int) -> bool {
    is_at(t, p, Token::Fn) || is_at(t, p, Token::Class) || is_at(t, p, Token::Interface)
        || is_at(t, p, Token::ErrorKw) || is_at(t, p, Token::Trait) || is_at(t, p, Token::Impl)
        || is_at(t, p, Token::Enum) || is_at(t, p, Token::Async)
}

/// `export`? then an import, a declaration or a statement.
pub open spec fn g_module_item(t: Seq<Tok>, s: Seq<char>, p: int) -> SR<SModuleItem> {
    let p1 = skip_if(t, p, Token::Export);
    if is_at(t, p1, Token::Import) {
        match g_import(t, p1) { Err(e) => Err(e), Ok((x, q)) => Ok((SModuleItem::Import(x), q)) }
    } else if starts_decl(t, p1) {
        match g_decl(t, s, p1) { Err(e) => Err(e), Ok((x, q)) => Ok((SModuleItem::Decl(x), q)) }
    } else {
        match g_stmt(t, s, p1) { Err(e) => Err(e), Ok((x, q)) => Ok((SModuleItem::Stmt(x), q)) }
    }
}

// ------------------------------------------------------------------
// Progress: every successful parse moves forward
// ------------------------------------------------------------------

/// A successful result ends strictly after `p`, inside the stream.
pub open spec fn advances<T>(r: SR<T>, t: Seq<Tok>, p: int) -> bool {
    r is Ok ==> p < r->Ok_0.1 <= t.len()
}

/// A successful result ends at or after `p`, inside the stream.
pub open spec fn stays<T>(r: SR<T>, t: Seq<Tok>, p: int) -> bool {
    r is Ok ==> p <= r->Ok_0.1 <= t.len()
}

pub proof fn lemma_zig_scan_bounds(t: Seq<Tok>, q: int, depth: int, ce: int)
    requires
        0 <= q <= t.len(),
    ensures
        q <= zig_scan(t, q, depth, ce).0 <= t.len(),
    decreases t.len() - q,
{
    if depth > 0 && q < t.len() {
        let d2 = if t[q].token == Token::LBrace {
            depth + 1
        } else if t[q].token == Token::RBrace {
            depth - 1
        } else {
            depth
        };
        let ce2 = if d2 == 0 { t[q].char_start as int } else { ce };
        lemma_zig_scan_bounds(t, q + 1, d2, ce2);
    }
}

pub proof fn lemma_g_type(t: Seq<Tok>, p: int)
    ensures
        advances(g_type(t, p), t, p),
    decreases t.len() - p, 1nat,
{
    if 0 <= p <= t.len() {
        if is_at(t, p, Token::LBracket) {
            lemma_g_type_elems(t, p + 1);
        } else if is_at(t, p, Token::LBrace) {
            lemma_g_type_fields(t, p + 1);
        }
    }
}

pub proof fn lemma_g_type_elems(t: Seq<Tok>, p: int)
    requires
        0 <= p <= t.len(),
    ensures
        stays(g_type_elems(t, p), t, p),
    decreases t.len() - p, 2nat,
{
    if !is_at(t, p, Token::RBracket) {
        lemma_g_type(t, p);
        match g_type(t, p) {
            Ok((_, q)) => if !bad(t, p, q) { lemma_g_type_elems(t, skip_if(t, q, Token::Comma)); },
            Err(_) => {},
        }
    }
}

pub proof fn lemma_g_type_fields(t: Seq<Tok>, p: int)
    requires
        0 <= p <= t.len(),
    ensures
        stays(g_type_fields(t, p), t, p),
    decreases t.len() - p, 2nat,
{
    if !is_at(t, p, Token::RBrace) {
        lemma_g_type_field(t, p);
        match g_type_field(t, p) {
            Ok((_, q)) => if !bad(t, p, q) { lemma_g_type_fields(t, skip_if(t, q, Token::Comma)); },
            Err(_) => {},
        }
    }
}

pub proof fn lemma_g_type_field(t: Seq<Tok>, p: int)
    ensures
        advances(g_type_field(t, p), t, p),
    decreases t.len() - p, 1nat,
{
    if 0 <= p && p + 2 <= t.len() {
        lemma_g_type(t, p + 2);
    }
}

pub proof fn lemma_g_pattern(t: Seq<Tok>, p: int)
    ensures
        advances(g_pattern(t, p), t, p),
    decreases t.len() - p, 1nat,
{
    if 0 <= p < t.len() {
        if is_at(t, p, Token::LBracket) {
            lemma_g_pattern_elems(t, p + 1);
        } else if is_at(t, p, Token::LBrace) {
            lemma_g_pattern_props(t, p + 1);
        }
    }
}

pub proof fn lemma_g_pattern_elems(t: Seq<Tok>, p: int)
    requires
        0 <= p <= t.len(),
    ensures
        stays(g_pattern_elems(t, p), t, p),
    decreases t.len() - p, 2nat,
{
    if !is_at(t, p, Token::RBracket) {
        lemma_g_pattern(t, p);
        match g_pattern(t, p) {
            Ok((_, q)) => if !bad(t, p, q) { lemma_g_pattern_elems(t, skip_if(t, q, Token::Comma)); },
            Err(_) => {},
        }
    }
}

pub proof fn lemma_g_pattern_props(t: Seq<Tok>, p: int)
    requires
        0 <= p <= t.len(),
    ensures
        stays(g_pattern_props(t, p), t, p),
    decreases t.len() - p, 2nat,
{
    if !is_at(t, p, Token::RBrace) {
        lemma_g_pattern_prop(t, p);
        match g_pattern_prop(t, p) {
            Ok((_, q)) => if !bad(t, p, q) { lemma_g_pattern_props(t, skip_if(t, q, Token::Comma)); },
            Err(_) => {},
        }
    }
}

pub proof fn lemma_g_pattern_prop(t: Seq<Tok>, p: int)
    ensures
        advances(g_pattern_prop(t, p), t, p),
    decreases t.len() - p, 1nat,
{
    if 0 <= p && p + 2 <= t.len() {
        lemma_g_pattern(t, p + 2);
    }
}

pub proof fn lemma_g_arrow_param(t: Seq<Tok>, p: int)
    ensures
        advances(g_arrow_param(t, p), t, p),
{
    lemma_g_type(t, p + 2);
}

pub proof fn lemma_g_arrow_param_list(t: Seq<Tok>, p: int)
    requires
        0 <= p <= t.len(),
    ensures
        stays(g_arrow_param_list(t, p), t, p),
    decreases t.len() - p,
{
    if p < t.len() && !is_at(t, p, Token::RParen) {
        lemma_g_arrow_param(t, p);
        match g_arrow_param(t, p) {
            Ok((_, q)) => if !bad(t, p, q) { lemma_g_arrow_param_list(t, skip_if(t, q, Token::Comma)); },
            Err(_) => {},
        }
    }
}

pub proof fn lemma_g_arrow_params(t: Seq<Tok>, p: int)
    requires
        0 <= p <= t.len(),
    ensures
        advances(g_arrow_params(t, p), t, p),
{
    lemma_g_arrow_param_list(t, p);
}

pub proof fn lemma_g_zig(t: Seq<Tok>, s: Seq<char>, p: int)
    ensures
        advances(g_zig(t, s, p), t, p),
{
    if 0 <= p && p + 2 <= t.len() {
        let q = p + 2;
        let cs: int = if q < t.len() { t[q].char_start as int } else { 0 };
        lemma_zig_scan_bounds(t, q, 1, cs);
    }
}

pub proof fn lemma_g_stmt(t: Seq<Tok>, s: Seq<char>, p: int)
    ensures
        advances(g_stmt(t, s, p), t, p),
    decreases t.len() - p, 4nat,
{
    if 0 <= p <= t.len() {
        if is_at(t, p, Token::Let) || is_at(t, p, Token::Const) {
            lemma_g_var_decl(t, s, p);
        } else if is_at(t, p, Token::While) {
            lemma_g_while(t, s, p);
        } else if is_at(t, p, Token::If) {
            lemma_g_if(t, s, p);
        } else if is_at(t, p, Token::Return) {
            lemma_g_return(t, s, p);
        } else if is_at(t, p, Token::Defer) || is_at(t, p, Token::ErrDefer) {
            lemma_g_stmt(t, s, p + 1);
        } else if is_at(t, p, Token::Bang) {
            lemma_g_expr(t, s, p);
        } else if is_at(t, p, Token::LBrace) {
            lemma_g_block(t, s, p);
        } else if is_at(t, p, Token::ZigEscape) {
            lemma_g_zig(t, s, p);
        } else {
            lemma_g_expr(t, s, p);
        }
    }
}

pub proof fn lemma_g_stmts(t: Seq<Tok>, s: Seq<char>, p: int)
    requires
        0 <= p <= t.len(),
    ensures
        stays(g_stmts(t, s, p), t, p),
    decreases t.len() - p, 5nat,
{
    if p < t.len() && !is_at(t, p, Token::RBrace) {
        lemma_g_stmt(t, s, p);
        match g_stmt(t, s, p) {
            Ok((_, q)) => if !bad(t, p, q) { lemma_g_stmts(t, s, q); },
            Err(_) => {},
        }
    }
}

pub proof fn lemma_g_block(t: Seq<Tok>, s: Seq<char>, p: int)
    ensures
        advances(g_block(t, s, p), t, p),
    decreases t.len() - p, 1nat,
{
    if 0 <= p < t.len() {
        lemma_g_stmts(t, s, p + 1);
    }
}

pub proof fn lemma_g_var_decl(t: Seq<Tok>, s: Seq<char>, p: int)
    ensures
        advances(g_var_decl(t, s, p), t, p),
    decreases t.len() - p, 1nat,
{
    if 0 <= p < t.len() {
        lemma_g_pattern(t, p + 1);
        match g_pattern(t, p + 1) {
            Ok((_, q)) => {
                lemma_g_type(t, q + 1);
                let ty: SR<Option<SType>> = if is_at(t, q, Token::Colon) {
                    match g_type(t, q + 1) {
                        Err(e) => Err(e),
                        Ok((ty, q1)) => Ok((Some(ty), q1)),
                    }
                } else {
                    Ok((None, q))
                };
                match ty {
                    Ok((_, q1)) => match g_expect(t, q1, Token::Assign) {
                        Ok((_, q2)) => if !bad(t, p, q2) { lemma_g_expr(t, s, q2); },
                        Err(_) => {},
                    },
                    Err(_) => {},
                }
            },
            Err(_) => {},
        }
    }
}

pub proof fn lemma_g_while(t: Seq<Tok>, s: Seq<char>, p: int)
    ensures
        advances(g_while(t, s, p), t, p),
    decreases t.len() - p, 1nat,
{
    if 0 <= p && p + 2 <= t.len() {
        lemma_g_expr(t, s, p + 2);
        match g_expr(t, s, p + 2) {
            Ok((_, q2)) => match g_expect(t, q2, Token::RParen) {
                Ok((_, q3)) => if !bad(t, p, q3) { lemma_g_stmt(t, s, q3); },
                Err(_) => {},
            },
            Err(_) => {},
        }
    }
}

pub proof fn lemma_g_if(t: Seq<Tok>, s: Seq<char>, p: int)
    ensures
        advances(g_if(t, s, p), t, p),
    decreases t.len() - p, 1nat,
{
    if 0 <= p && p + 2 <= t.len() {
        lemma_g_expr(t, s, p + 2);
        match g_expr(t, s, p + 2) {
            Ok((_, q2)) => match g_expect(t, q2, Token::RParen) {
                Ok((_, q3)) => if !bad(t, p, q3) {
                    lemma_g_stmt(t, s, q3);
                    match g_stmt(t, s, q3) {
                        Ok((_, q4)) => if is_at(t, q4, Token::Else) && !bad(t, p, q4) {
                            lemma_g_stmt(t, s, q4 + 1);
                        },
                        Err(_) => {},
                    }
                },
                Err(_) => {},
            },
            Err(_) => {},
        }
    }
}

pub proof fn lemma_g_return(t: Seq<Tok>, s: Seq<char>, p: int)
    ensures
        advances(g_return(t, s, p), t, p),
    decreases t.len() - p, 1nat,
{
    if 0 <= p < t.len() {
        lemma_g_expr(t, s, p + 1);
    }
}

pub proof fn lemma_g_expr(t: Seq<Tok>, s: Seq<char>, p: int)
    ensures
        advances(g_expr(t, s, p), t, p),
    decreases t.len() - p, 3nat,
{
    lemma_g_bin(t, s, p, 0);
}

pub proof fn lemma_g_bin(t: Seq<Tok>, s: Seq<char>, p: int, min_prec: nat)
    ensures
        advances(g_bin(t, s, p, min_prec), t, p),
    decreases t.len() - p, 2nat,
{
    lemma_g_primary(t, s, p);
    match g_primary(t, s, p) {
        Ok((left, q)) => if !bad(t, p, q) { lemma_g_postfix(t, s, left, q, min_prec); },
        Err(_) => {},
    }
}

pub proof fn lemma_g_postfix(t: Seq<Tok>, s: Seq<char>, left: SExpr, p: int, min_prec: nat)
    ensures
        stays(g_postfix(t, s, left, p, min_prec), t, p),
    decreases t.len() - p, 2nat,
{
    if 0 <= p <= t.len() {
        if is_at(t, p, Token::LParen) {
            lemma_g_args(t, s, p + 1);
            match g_args(t, s, p + 1) {
                Ok((args, q)) => match g_expect(t, q, Token::RParen) {
                    Ok((esp, q2)) => if !bad(t, p, q2) {
                        lemma_g_postfix(t, s, SExpr::Call(SCallExpr {
                            span: Span { start: s_left_span(left).start, end: esp.end },
                            callee: Box::new(left),
                            args,
                            is_comptime: false,
                        }), q2, min_prec);
                    },
                    Err(_) => {},
                },
                Err(_) => {},
            }
        } else if is_at(t, p, Token::Dot) {
            match g_ident(t, p + 1) {
                Ok((prop, q)) => if is_at(t, q, Token::LBrace) {
                    lemma_g_enum_init_fields(t, s, q + 1);
                    match g_enum_init_fields(t, s, q + 1) {
                        Ok((fields, q2)) => match g_expect(t, q2, Token::RBrace) {
                            Ok((esp, q3)) => if !bad(t, p, q3) {
                                let enum_name = match left {
                                    SExpr::Ident(id) => id,
                                    _ => SIdent { span: Span { start: 0, end: 0 }, sym: "Unknown"@ },
                                };
                                lemma_g_postfix(t, s, SExpr::EnumInit(SEnumInitExpr {
                                    span: Span { start: s_left_span(left).start, end: esp.end },
                                    enum_name,
                                    variant_name: prop,
                                    fields: Some(fields),
                                }), q3, min_prec);
                            },
                            Err(_) => {},
                        },
                        Err(_) => {},
                    }
                } else {
                    lemma_g_postfix(t, s, SExpr::Member(SMemberExpr {
                        span: Span { start: s_left_span(left).start, end: prop.span.end },
                        obj: Box::new(left),
                        prop,
                    }), q, min_prec);
                },
                Err(_) => {},
            }
        } else if is_at(t, p, Token::Question) {
            lemma_g_postfix(t, s, SExpr::Question(Box::new(left)), p + 1, min_prec);
        } else if is_at(t, p, Token::LBracket) {
            lemma_g_index(t, s, left, p);
            match g_index(t, s, left, p) {
                Ok((x, q)) => if !bad(t, p, q) { lemma_g_postfix(t, s, x, q, min_prec); },
                Err(_) => {},
            }
        } else if is_at(t, p, Token::FatArrow) {
            lemma_g_arrow_body(t, s, p + 1);
            match g_arrow_body(t, s, p + 1) {
                Ok((body, q)) => if !bad(t, p, q) {
                    lemma_g_postfix(t, s, SExpr::Arrow(Box::new(SArrowExpr {
                        span: Span { start: s_left_span(left).start, end: peek_span(t, q).end },
                        params: arrow_params_of(left),
                        body: Box::new(body),
                    })), q, min_prec);
                },
                Err(_) => {},
            }
        } else {
            lemma_g_binops(t, s, left, p, min_prec);
        }
    }
}

pub proof fn lemma_g_index(t: Seq<Tok>, s: Seq<char>, left: SExpr, p: int)
    ensures
        advances(g_index(t, s, left, p), t, p),
    decreases t.len() - p, 1nat,
{
    if 0 <= p < t.len() {
        if is_at(t, p + 1, Token::DotDot) {
            lemma_g_expr(t, s, p + 2);
        } else {
            lemma_g_expr(t, s, p + 1);
            match g_expr(t, s, p + 1) {
                Ok((_, q)) => if is_at(t, q, Token::DotDot) && !bad(t, p, q) { lemma_g_expr(t, s, q + 1); },
                Err(_) => {},
            }
        }
    }
}

pub proof fn lemma_g_binops(t: Seq<Tok>, s: Seq<char>, left: SExpr, p: int, min_prec: nat)
    requires
        0 <= p <= t.len(),
    ensures
        stays(g_binops(t, s, left, p, min_prec), t, p),
    decreases t.len() - p, 1nat,
{
    if p < t.len() {
        match op_of(t[p].token) {
            Some(op) => if precedence(op) >= min_prec {
                lemma_g_bin(t, s, p + 1, precedence(op) + 1);
                match g_bin(t, s, p + 1, precedence(op) + 1) {
                    Ok((right, q)) => if !bad(t, p, q) {
                        lemma_g_binops(t, s, SExpr::Bin(SBinExpr {
                            span: Span { start: s_left_span(left).start, end: s_right_span(right).end },
                            op,
                            left: Box::new(left),
                            right: Box::new(right),
                        }), q, min_prec);
                    },
                    Err(_) => {},
                }
            },
            None => {},
        }
    }
}

pub proof fn lemma_g_arrow_body(t: Seq<Tok>, s: Seq<char>, p: int)
    ensures
        advances(g_arrow_body(t, s, p), t, p),
    decreases t.len() - p, 4nat,
{
    lemma_g_block(t, s, p);
    lemma_g_expr(t, s, p);
}

pub proof fn lemma_g_args(t: Seq<Tok>, s: Seq<char>, p: int)
    ensures
        0 <= p <= t.len() ==> stays(g_args(t, s, p), t, p),
    decreases t.len() - p, 4nat,
{
    if 0 <= p <= t.len() && !is_at(t, p, Token::RParen) {
        lemma_g_expr(t, s, p);
        match g_expr(t, s, p) {
            Ok((_, q)) => if !bad(t, p, q) { lemma_g_args(t, s, skip_if(t, q, Token::Comma)); },
            Err(_) => {},
        }
    }
}

pub proof fn lemma_g_builtin_args(t: Seq<Tok>, s: Seq<char>, p: int)
    ensures
        0 <= p <= t.len() ==> stays(g_builtin_args(t, s, p), t, p),
    decreases t.len() - p, 3nat,
{
    if 0 <= p < t.len() && !is_at(t, p, Token::RParen) {
        lemma_g_bin(t, s, p, 0);
        match g_bin(t, s, p, 0) {
            Ok((_, q)) => if !bad(t, p, q) { lemma_g_builtin_args(t, s, skip_if(t, q, Token::Comma)); },
            Err(_) => {},
        }
    }
}

pub proof fn lemma_g_array_elems(t: Seq<Tok>, s: Seq<char>, p: int)
    ensures
        0 <= p <= t.len() ==> stays(g_array_elems(t, s, p), t, p),
    decreases t.len() - p, 4nat,
{
    if 0 <= p <= t.len() && !is_at(t, p, Token::RBracket) {
        lemma_g_expr(t, s, p);
        match g_expr(t, s, p) {
            Ok((_, q)) => if !bad(t, p, q) { lemma_g_array_elems(t, s, skip_if(t, q, Token::Comma)); },
            Err(_) => {},
        }
    }
}

pub proof fn lemma_g_object_fields(t: Seq<Tok>, s: Seq<char>, p: int)
    ensures
        0 <= p <= t.len() ==> stays(g_object_fields(t, s, p), t, p),
    decreases t.len() - p, 2nat,
{
    if 0 <= p <= t.len() && !is_at(t, p, Token::RBrace) {
        lemma_g_object_field(t, s, p);
        match g_object_field(t, s, p) {
            Ok((_, q)) => if !bad(t, p, q) { lemma_g_object_fields(t, s, skip_if(t, q, Token::Comma)); },
            Err(_) => {},
        }
    }
}

pub proof fn lemma_g_enum_init_fields(t: Seq<Tok>, s: Seq<char>, p: int)
    ensures
        0 <= p <= t.len() ==> stays(g_enum_init_fields(t, s, p), t, p),
    decreases t.len() - p, 2nat,
{
    if 0 <= p <= t.len() && !is_at(t, p, Token::RBrace) {
        lemma_g_enum_init_field(t, s, p);
        match g_enum_init_field(t, s, p) {
            Ok((_, q)) => if !bad(t, p, q) { lemma_g_enum_init_fields(t, s, skip_if(t, q, Token::Comma)); },
            Err(_) => {},
        }
    }
}

pub proof fn lemma_g_object_field(t: Seq<Tok>, s: Seq<char>, p: int)
    ensures
        advances(g_object_field(t, s, p), t, p),
    decreases t.len() - p, 1nat,
{
    if 0 <= p && p + 2 <= t.len() {
        lemma_g_expr(t, s, p + 2);
    }
}

pub proof fn lemma_g_enum_init_field(t: Seq<Tok>, s: Seq<char>, p: int)
    ensures
        advances(g_enum_init_field(t, s, p), t, p),
    decreases t.len() - p, 1nat,
{
    if 0 <= p && p + 2 <= t.len() {
        lemma_g_expr(t, s, p + 2);
    }
}

pub proof fn lemma_g_match_expr(t: Seq<Tok>, s: Seq<char>, p: int)
    ensures
        advances(g_match_expr(t, s, p), t, p),
    decreases t.len() - p, 1nat,
{
    if 0 <= p < t.len() {
        lemma_g_expr(t, s, p + 1);
        match g_expr(t, s, p + 1) {
            Ok((_, q1)) => match g_expect(t, q1, Token::RParen) {
                Ok((_, q2)) => match g_expect(t, q2, Token::LBrace) {
                    Ok((_, q3)) => if !bad(t, p, q3) { lemma_g_match_arms(t, s, q3); },
                    Err(_) => {},
                },
                Err(_) => {},
            },
            Err(_) => {},
        }
    }
}

pub proof fn lemma_g_match_arms(t: Seq<Tok>, s: Seq<char>, p: int)
    ensures
        0 <= p <= t.len() ==> stays(g_match_arms(t, s, p), t, p),
    decreases t.len() - p, 2nat,
{
    if 0 <= p < t.len() && !is_at(t, p, Token::RBrace) {
        lemma_g_match_arm(t, s, p);
        match g_match_arm(t, s, p) {
            Ok((_, q)) => if !bad(t, p, q) { lemma_g_match_arms(t, s, skip_if(t, q, Token::Comma)); },
            Err(_) => {},
        }
    }
}

pub proof fn lemma_g_match_arm(t: Seq<Tok>, s: Seq<char>, p: int)
    ensures
        advances(g_match_arm(t, s, p), t, p),
    decreases t.len() - p, 1nat,
{
    lemma_g_pattern(t, p);
    match g_pattern(t, p) {
        Ok((_, q)) => match g_expect(t, q, Token::FatArrow) {
            Ok((_, q1)) => if !bad(t, p, q1) { lemma_g_stmt(t, s, q1); },
            Err(_) => {},
        },
        Err(_) => {},
    }
}

pub proof fn lemma_g_builtin(t: Seq<Tok>, s: Seq<char>, name: Seq<char>, sp: Span, p: int)
    ensures
        advances(g_builtin(t, s, name, sp, p), t, p),
    decreases t.len() - p, 4nat,
{
    if 0 <= p < t.len() {
        lemma_g_builtin_args(t, s, p + 1);
    }
}

pub proof fn lemma_g_primary(t: Seq<Tok>, s: Seq<char>, p: int)
    ensures
        advances(g_primary(t, s, p), t, p),
    decreases t.len() - p, 1nat,
{
    if 0 <= p < t.len() {
        let sp = t[p].span;
        let p1 = p + 1;
        match t[p].token {
            Token::Spawn => lemma_g_expr(t, s, p1),
            Token::Ident(x) => lemma_g_builtin(t, s, x@, sp, p1),
            Token::At => match g_ident(t, p1) {
                Ok((id, q)) => lemma_g_builtin(t, s, seq!['@'] + id.sym, sp, q),
                Err(_) => {},
            },
            Token::Match => lemma_g_match_expr(t, s, p1),
            Token::LParen => {
                lemma_g_expr(t, s, p1);
                lemma_g_arrow_params(t, p1);
                match g_arrow_params(t, p1) {
                    Ok((_, q)) => if is_at(t, q, Token::FatArrow) && !bad(t, p, q) {
                        lemma_g_arrow_body(t, s, q + 1);
                    },
                    Err(_) => {},
                }
            },
            Token::LBrace => lemma_g_object_fields(t, s, p1),
            Token::Await => lemma_g_expr(t, s, p1),
            Token::New => {
                lemma_g_primary(t, s, p1);
                match g_primary(t, s, p1) {
                    Ok((_, q)) => match g_expect(t, q, Token::LParen) {
                        Ok((_, q1)) => if !bad(t, p, q1) { lemma_g_args(t, s, q1); },
                        Err(_) => {},
                    },
                    Err(_) => {},
                }
            },
            Token::Receive => lemma_g_type(t, p1 + 1),
            Token::LBracket => lemma_g_array_elems(t, s, p1),
            _ => {},
        }
    }
}

pub proof fn lemma_g_param(t: Seq<Tok>, p: int)
    ensures
        advances(g_param(t, p), t, p),
{
    lemma_g_type(t, p + 2);
}

pub proof fn lemma_g_param_list(t: Seq<Tok>, p: int)
    ensures
        0 <= p <= t.len() ==> stays(g_param_list(t, p), t, p),
    decreases t.len() - p,
{
    if 0 <= p <= t.len() && !is_at(t, p, Token::RParen) {
        lemma_g_param(t, p);
        match g_param(t, p) {
            Ok((_, q)) => { lemma_g_param_list(t, skip_if(t, q, Token::Comma)); },
            Err(_) => {},
        }
    }
}

pub proof fn lemma_g_params(t: Seq<Tok>, p: int)
    ensures
        advances(g_params(t, p), t, p),
{
    lemma_g_param_list(t, p + 1);
}

pub proof fn lemma_g_return_type(t: Seq<Tok>, p: int)
    ensures
        0 <= p <= t.len() ==> stays(g_return_type(t, p), t, p),
{
    lemma_g_type(t, p + 1);
}

pub proof fn lemma_g_method_sig(t: Seq<Tok>, p: int)
    ensures
        advances(g_method_sig(t, p), t, p),
{
    lemma_g_params(t, p + 2);
    match g_params(t, p + 2) {
        Ok((_, q2)) => lemma_g_return_type(t, q2),
        Err(_) => {},
    }
}

pub proof fn lemma_g_function(t: Seq<Tok>, s: Seq<char>, p: int)
    ensures
        advances(g_function(t, s, p), t, p),
{
    let p0 = skip_if(t, p, Token::Async);
    lemma_g_params(t, p0 + 2);
    match g_params(t, p0 + 2) {
        Ok((_, q2)) => {
            lemma_g_return_type(t, q2);
            match g_return_type(t, q2) {
                Ok((_, q3)) => lemma_g_block(t, s, q3),
                Err(_) => {},
            }
        },
        Err(_) => {},
    }
}

pub proof fn lemma_g_class_members(t: Seq<Tok>, s: Seq<char>, p: int)
    ensures
        0 <= p <= t.len() ==> stays(g_class_members(t, s, p), t, p),
    decreases t.len() - p,
{
    if 0 <= p <= t.len() && !is_at(t, p, Token::RBrace) {
        if is_at(t, p, Token::Fn) || is_at(t, p, Token::Async) {
            lemma_g_function(t, s, p);
            match g_function(t, s, p) {
                Ok((_, q)) => { lemma_g_class_members(t, s, q); },
                Err(_) => {},
            }
        } else {
            lemma_g_type(t, p + 2);
            match g_type(t, p + 2) {
                Ok((_, q2)) => {
                    let q3 = if is_at(t, q2, Token::Comma) || is_at(t, q2, Token::Semicolon) { q2 + 1 } else { q2 };
                    lemma_g_class_members(t, s, q3);
                },
                Err(_) => {},
            }
        }
    }
}

pub proof fn lemma_g_class(t: Seq<Tok>, s: Seq<char>, p: int)
    ensures
        advances(g_class(t, s, p), t, p),
{
    let q1 = p + 2;
    let q2 = if is_at(t, q1, Token::Extends) { q1 + 2 } else { q1 };
    lemma_g_class_members(t, s, q2 + 1);
}

pub proof fn lemma_g_trait_methods(t: Seq<Tok>, p: int)
    ensures
        0 <= p <= t.len() ==> stays(g_trait_methods(t, p), t, p),
    decreases t.len() - p,
{
    if 0 <= p <= t.len() && !is_at(t, p, Token::RBrace) {
        lemma_g_method_sig(t, p);
        match g_method_sig(t, p) {
            Ok((_, q)) => { lemma_g_trait_methods(t, q); },
            Err(_) => {},
        }
    }
}

pub proof fn lemma_g_trait(t: Seq<Tok>, p: int)
    ensures
        advances(g_trait(t, p), t, p),
{
    lemma_g_trait_methods(t, p + 3);
}

pub proof fn lemma_g_functions(t: Seq<Tok>, s: Seq<char>, p: int)
    ensures
        0 <= p <= t.len() ==> stays(g_functions(t, s, p), t, p),
    decreases t.len() - p,
{
    if 0 <= p <= t.len() && !is_at(t, p, Token::RBrace) {
        lemma_g_function(t, s, p);
        match g_function(t, s, p) {
            Ok((_, q)) => { lemma_g_functions(t, s, q); },
            Err(_) => {},
        }
    }
}

pub proof fn lemma_g_impl(t: Seq<Tok>, s: Seq<char>, p: int)
    ensures
        advances(g_impl(t, s, p), t, p),
{
    lemma_g_functions(t, s, p + 5);
}

pub proof fn lemma_g_enum_variant(t: Seq<Tok>, s: Seq<char>, p: int)
    ensures
        advances(g_enum_variant(t, s, p), t, p),
{
    let q = p + 1;
    if is_at(t, q, Token::LBrace) {
        lemma_g_type_fields(t, q + 1);
    }
    let fields: SR<Option<Seq<SField>>> = if is_at(t, q, Token::LBrace) {
        match g_type_fields(t, q + 1) {
            Err(e) => Err(e),
            Ok((fs, q1)) => match g_expect(t, q1, Token::RBrace) {
                Err(e) => Err(e),
                Ok((_, q2)) => Ok((Some(fs), q2)),
            },
        }
    } else {
        Ok((None, q))
    };
    match fields {
        Ok((_, q2)) => lemma_g_expr(t, s, q2 + 1),
        Err(_) => {},
    }
}

pub proof fn lemma_g_enum_variants(t: Seq<Tok>, s: Seq<char>, p: int)
    ensures
        0 <= p <= t.len() ==> stays(g_enum_variants(t, s, p), t, p),
    decreases t.len() - p,
{
    if 0 <= p <= t.len() && !is_at(t, p, Token::RBrace) {
        lemma_g_enum_variant(t, s, p);
        match g_enum_variant(t, s, p) {
            Ok((_, q)) => { lemma_g_enum_variants(t, s, skip_if(t, q, Token::Comma)); },
            Err(_) => {},
        }
    }
}

pub proof fn lemma_g_enum(t: Seq<Tok>, s: Seq<char>, p: int)
    ensures
        advances(g_enum(t, s, p), t, p),
{
    lemma_g_enum_variants(t, s, p + 3);
}

pub proof fn lemma_g_ident_list(t: Seq<Tok>, p: int)
    ensures
        0 <= p <= t.len() ==> stays(g_ident_list(t, p), t, p),
    decreases t.len() - p,
{
    if 0 <= p <= t.len() && !is_at(t, p, Token::RBrace) {
        match g_ident(t, p) {
            Ok((_, q)) => { lemma_g_ident_list(t, skip_if(t, q, Token::Comma)); },
            Err(_) => {},
        }
    }
}

pub proof fn lemma_g_error_set(t: Seq<Tok>, p: int)
    ensures
        advances(g_error_set(t, p), t, p),
{
    lemma_g_ident_list(t, p + 3);
}

pub proof fn lemma_g_decl(t: Seq<Tok>, s: Seq<char>, p: int)
    ensures
        advances(g_decl(t, s, p), t, p),
{
    lemma_g_function(t, s, p);
    lemma_g_class(t, s, p);
    lemma_g_trait(t, p);
    lemma_g_impl(t, s, p);
    lemma_g_enum(t, s, p);
    lemma_g_error_set(t, p);
}

pub proof fn lemma_g_specifiers(t: Seq<Tok>, p: int)
    ensures
        0 <= p <= t.len() ==> stays(g_specifiers(t, p), t, p),
    decreases t.len() - p,
{
    if 0 <= p < t.len() && !is_at(t, p, Token::RBrace) {
        match g_ident(t, p) {
            Ok((_, q)) => { lemma_g_specifiers(t, skip_if(t, q, Token::Comma)); },
            Err(_) => {},
        }
    }
}

pub proof fn lemma_g_import(t: Seq<Tok>, p: int)
    ensures
        advances(g_import(t, p), t, p),
{
    lemma_g_specifiers(t, p + 2);
}

/// Every successful module item moves the parse forward.
pub proof fn lemma_g_module_item(t: Seq<Tok>, s: Seq<char>, p: int)
    ensures
        advances(g_module_item(t, s, p), t, p),
{
    let p1 = skip_if(t, p, Token::Export);
    lemma_g_import(t, p1);
    lemma_g_decl(t, s, p1);
    lemma_g_stmt(t, s, p1);
}

/// Module items up to the end of input.
pub open spec fn g_module_items(t: Seq<Tok>, s: Seq<char>, p: int) -> SR<Seq<SModuleItem>>
    decreases t.len() - p,
{
    if !(0 <= p < t.len()) {
        Ok((Seq::empty(), p))
    } else {
        match g_module_item(t, s, p) {
            Err(e) => Err(e),
            Ok((x, q)) => {
                proof {
                    lemma_g_module_item(t, s, p);
                }
                match g_module_items(t, s, q) {
                    Err(e) => Err(e),
                    Ok((rest, q2)) => Ok((seq![x] + rest, q2)),
                }
            },
        }
    }
}

/// The module that the token stream `t` of source `s` forms from position `p`.
pub open spec fn g_module(t: Seq<Tok>, s: Seq<char>, p: int) -> SR<SModule> {
    let start = peek_span(t, p).start;
    match g_module_items(t, s, p) {
        Err(e) => Err(e),
        Ok((body, q)) => Ok((SModule { span: Span { start, end: peek_span(t, q).end }, body }, q)),
    }
}

/// The module items run to the end of the token stream when they parse.
pub proof fn lemma_module_items_reach_end(t: Seq<Tok>, s: Seq<char>, p: int)
    requires
        0 <= p <= t.len(),
    ensures
        g_module_items(t, s, p) is Ok ==> g_module_items(t, s, p)->Ok_0.1 == t.len(),
    decreases t.len() - p,
{
    if p < t.len() {
        match g_module_item(t, s, p) {
            Err(_) => {},
            Ok((x, q)) => {
                lemma_g_module_item(t, s, p);
                lemma_module_items_reach_end(t, s, q);
            },
        }
    }
}

// ------------------------------------------------------------------
// Operator precedence
// ------------------------------------------------------------------

/// Assignment binds loosest, then comparison, then `+` and `-`, and `*` and `/`
/// bind tightest; operators of one level bind alike.
pub proof fn law_precedence_levels()
    ensures
        precedence(BinaryOp::Eq) < precedence(BinaryOp::Lt),
        precedence(BinaryOp::Lt) < precedence(BinaryOp::Add),
        precedence(BinaryOp::Add) == precedence(BinaryOp::Sub),
        precedence(BinaryOp::Sub) < precedence(BinaryOp::Mul),
        precedence(BinaryOp::Mul) == precedence(BinaryOp::Div),
        precedence(BinaryOp::Eq) > 0,
{
}

/// The binary operators are the tokens `+ - * / = <`; `==`, `!=`, `>`, `<=` and `>=`
/// are not binary operators of an expression.
pub proof fn law_operator_tokens()
    ensures
        op_of(Token::Plus) == Some(BinaryOp::Add),
        op_of(Token::Minus) == Some(BinaryOp::Sub),
        op_of(Token::Star) == Some(BinaryOp::Mul),
        op_of(Token::Slash) == Some(BinaryOp::Div),
        op_of(Token::Assign) == Some(BinaryOp::Eq),
        op_of(Token::Less) == Some(BinaryOp::Lt),
        op_of(Token::Eq) is None,
        op_of(Token::NotEq) is None,
        op_of(Token::Greater) is None,
        op_of(Token::LessEq) is None,
        op_of(Token::GreaterEq) is None,
{
}

/// The token at `q` is a plain name (not a builtin).
pub open spec fn name_at(t: Seq<Tok>, q: int) -> bool {
    0 <= q < t.len() && t[q].token is Ident
        && !(t[q].token->Ident_0@.len() > 0 && t[q].token->Ident_0@[0] == '@')
}

/// The name expression the token at `q` reads as.
pub open spec fn name_expr(t: Seq<Tok>, q: int) -> SExpr {
    SExpr::Ident(SIdent { span: t[q].span, sym: t[q].token->Ident_0@ })
}

/// Nothing at `q` continues an expression: the end, or a token that is neither a
/// binary operator nor starts a call, member access, `?`, index or arrow body.
pub open spec fn ends_expr(t: Seq<Tok>, q: int) -> bool {
    q == t.len() || (0 <= q < t.len() && op_of(t[q].token) is None && !is_at(t, q, Token::LParen)
        && !is_at(t, q, Token::Dot) && !is_at(t, q, Token::Question) && !is_at(t, q, Token::LBracket)
        && !is_at(t, q, Token::FatArrow))
}

proof fn lemma_name_operand(t: Seq<Tok>, s: Seq<char>, q: int, m: nat)
    requires
        name_at(t, q),
        ends_expr(t, q + 1),
    ensures
        g_bin(t, s, q, m) == Ok::<_, SParseError>((name_expr(t, q), q + 1)),
{
    assert(g_primary(t, s, q) == Ok::<_, SParseError>((name_expr(t, q), q + 1)));
    assert(g_binops(t, s, name_expr(t, q), q + 1, m) == Ok::<_, SParseError>((name_expr(t, q), q + 1)));
    assert(g_postfix(t, s, name_expr(t, q), q + 1, m) == Ok::<_, SParseError>((name_expr(t, q), q + 1)));
}

/// The binary expression `l op r` as the grammar builds it.
pub open spec fn bin_of(op: BinaryOp, l: SExpr, r: SExpr) -> SExpr {
    SExpr::Bin(SBinExpr {
        span: Span { start: s_left_span(l).start, end: s_right_span(r).end },
        op,
        left: Box::new(l),
        right: Box::new(r),
    })
}

/// `a op1 b op2 c`, with names for operands: the operator that binds tighter takes
/// its neighbours first, and of two operators that bind alike the left one does.
/// With `law_precedence_levels`, `i < n - 1` reads as `i < (n - 1)` and
/// `a - b - c` as `(a - b) - c`.
#[verifier::rlimit(60)]
#[verifier::spinoff_prover]
pub proof fn law_precedence_parses(t: Seq<Tok>, s: Seq<char>, p: int, o1: BinaryOp, o2: BinaryOp)
    requires
        0 <= p,
        name_at(t, p),
        op_of(t[p + 1].token) == Some(o1),
        name_at(t, p + 2),
        op_of(t[p + 3].token) == Some(o2),
        name_at(t, p + 4),
        ends_expr(t, p + 5),
    ensures
        g_expr(t, s, p) == Ok::<_, SParseError>((
            if precedence(o1) < precedence(o2) {
                bin_of(o1, name_expr(t, p), bin_of(o2, name_expr(t, p + 2), name_expr(t, p + 4)))
            } else {
                bin_of(o2, bin_of(o1, name_expr(t, p), name_expr(t, p + 2)), name_expr(t, p + 4))
            },
            p + 5,
        )),
{
    let a = name_expr(t, p);
    let b = name_expr(t, p + 2);
    let c = name_expr(t, p + 4);
    let m1 = precedence(o1) + 1;
    let m2 = precedence(o2) + 1;
    assert(!is_at(t, p + 1, Token::LParen) && !is_at(t, p + 1, Token::Dot) && !is_at(t, p + 1, Token::Question)
        && !is_at(t, p + 1, Token::LBracket) && !is_at(t, p + 1, Token::FatArrow));
    assert(!is_at(t, p + 3, Token::LParen) && !is_at(t, p + 3, Token::Dot) && !is_at(t, p + 3, Token::Question)
        && !is_at(t, p + 3, Token::LBracket) && !is_at(t, p + 3, Token::FatArrow));
    lemma_name_operand(t, s, p + 4, m2);
    assert(g_primary(t, s, p) == Ok::<_, SParseError>((a, p + 1)));
    assert(g_primary(t, s, p + 2) == Ok::<_, SParseError>((b, p + 3)));
    assert(g_postfix(t, s, a, p + 1, 0) == g_binops(t, s, a, p + 1, 0));
    assert(g_bin(t, s, p, 0) == g_postfix(t, s, a, p + 1, 0));
    assert(g_postfix(t, s, b, p + 3, m1) == g_binops(t, s, b, p + 3, m1));
    assert(g_bin(t, s, p + 2, m1) == g_postfix(t, s, b, p + 3, m1));
    if precedence(o1) < precedence(o2) {
        let bc = bin_of(o2, b, c);
        assert(g_binops(t, s, bc, p + 5, m1) == Ok::<_, SParseError>((bc, p + 5)));
        assert(g_binops(t, s, b, p + 3, m1) == Ok::<_, SParseError>((bc, p + 5)));
        let abc = bin_of(o1, a, bc);
        assert(g_binops(t, s, abc, p + 5, 0) == Ok::<_, SParseError>((abc, p + 5)));
        assert(g_binops(t, s, a, p + 1, 0) == Ok::<_, SParseError>((abc, p + 5)));
    } else {
        assert(g_binops(t, s, b, p + 3, m1) == Ok::<_, SParseError>((b, p + 3)));
        let ab = bin_of(o1, a, b);
        assert(g_binops(t, s, a, p + 1, 0) == g_binops(t, s, ab, p + 3, 0));
        let abc = bin_of(o2, ab, c);
        assert(g_binops(t, s, abc, p + 5, 0) == Ok::<_, SParseError>((abc, p + 5)));
        assert(g_binops(t, s, ab, p + 3, 0) == Ok::<_, SParseError>((abc, p + 5)));
    }
}

/// `a < b - c` reads as `a < (b - c)`, whatever the names and wherever it stands.
pub proof fn law_comparison_binds_looser_than_arithmetic(t: Seq<Tok>, s: Seq<char>, p: int)
    requires
        0 <= p,
        name_at(t, p),
        t[p + 1].token == Token::Less,
        name_at(t, p + 2),
        t[p + 3].token == Token::Minus,
        name_at(t, p + 4),
        ends_expr(t, p + 5),
    ensures
        g_expr(t, s, p) == Ok::<_, SParseError>((
            bin_of(BinaryOp::Lt, name_expr(t, p), bin_of(BinaryOp::Sub, name_expr(t, p + 2), name_expr(t, p + 4))),
            p + 5,
        )),
{
    law_precedence_levels();
    law_precedence_parses(t, s, p, BinaryOp::Lt, BinaryOp::Sub);
}

} // verus!

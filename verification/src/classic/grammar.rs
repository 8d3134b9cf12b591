//! The grammar of the classic `cp` front end as spec functions over a token
//! stream. Each function takes the token stream `t`, the source characters `s`
//! and a token position `p`, and gives what the parser builds from there and
//! the position after it, or the error it reports.
use vstd::prelude::*;
use crate::Span;
use crate::lexer::{Token, Tok};
use crate::grammar::{is_at, peek_span, skip_if, bad, trim, zig_scan, lemma_zig_scan_bounds};
use crate::ast::{SModule, SModuleItem, SDecl, SFunction, SClass, SInterface, SMethodSig, SParam, SField, SStmt, SBlockStmt, SVarDecl, SPattern, SReturnStmt, SWhileStmt, SExpr, SArrowExpr, SArrowBody, SIdent, SLit, SBinExpr, SCallExpr, SMemberExpr, SSliceExpr, SSpawnExpr, SZigEscapeExpr, SType, BinaryOp, VarDeclKind};

verus! {

/// The spec form of a parse error of the classic front end. `Aborts` stands
/// for the inputs on which that front end stops with a panic.
pub enum CParseError {
    UnexpectedToken(Token, Span),
    ExpectedToken(CExpected, Token, Span),
    UnexpectedEof,
    Aborts,
}

/// The token a parse error says was expected.
pub enum CExpected {
    Tok(Token),
    /// An identifier (reported as `Ident("Ident")`).
    AnIdent,
}

/// Spec result of a parsing function: the value and the position after it.
pub type CR<T> = Result<(T, int), CParseError>;

/// The result is the abort outcome.
pub open spec fn aborts<T>(r: CR<T>) -> bool {
    r is Err && r->Err_0 is Aborts
}

pub open spec fn c_prepend<A>(pre: Seq<A>, r: CR<Seq<A>>) -> CR<Seq<A>> {
    match r {
        Ok((rest, q)) => Ok((pre + rest, q)),
        Err(e) => Err(e),
    }
}

pub proof fn lemma_c_prepend_push<A>(a: Seq<A>, x: A, r: CR<Seq<A>>)
    ensures
        c_prepend(a.push(x), r) == c_prepend(a, c_prepend(seq![x], r)),
        c_prepend(Seq::<A>::empty(), r) == r,
{
    match r {
        Ok((rest, q)) => {
            assert(a.push(x) + rest =~= a + (seq![x] + rest));
            assert(Seq::<A>::empty() + rest =~= rest);
        },
        Err(_) => {},
    }
}

pub open spec fn c_prepend2<A, B>(a: Seq<A>, b: Seq<B>, r: CR<(Seq<A>, Seq<B>)>) -> CR<(Seq<A>, Seq<B>)> {
    match r {
        Ok(((x, y), q)) => Ok(((a + x, b + y), q)),
        Err(e) => Err(e),
    }
}

pub proof fn lemma_c_prepend2(a: Seq<SField>, b: Seq<SFunction>, x: Option<SField>, y: Option<SFunction>, r: CR<(Seq<SField>, Seq<SFunction>)>)
    ensures
        c_prepend2(Seq::<SField>::empty(), Seq::<SFunction>::empty(), r) == r,
        x is Some ==> c_prepend2(a.push(x->0), b, r) == c_prepend2(a, b, c_prepend2(seq![x->0], Seq::<SFunction>::empty(), r)),
        y is Some ==> c_prepend2(a, b.push(y->0), r) == c_prepend2(a, b, c_prepend2(Seq::<SField>::empty(), seq![y->0], r)),
{
    match r {
        Ok(((u, v), q)) => {
            assert(Seq::<SField>::empty() + u =~= u);
            assert(Seq::<SFunction>::empty() + v =~= v);
            if x is Some {
                assert(a.push(x->0) + u =~= a + (seq![x->0] + u));
                assert(b + v =~= b + (Seq::<SFunction>::empty() + v));
            }
            if y is Some {
                assert(a + u =~= a + (Seq::<SField>::empty() + u));
                assert(b.push(y->0) + v =~= b + (seq![y->0] + v));
            }
        },
        Err(_) => {},
    }
}

// ------------------------------------------------------------------
// Tokens, names and types
// ------------------------------------------------------------------

pub open spec fn c_expect(t: Seq<Tok>, p: int, k: Token) -> CR<Span> {
    if !(0 <= p < t.len()) {
        Err(CParseError::UnexpectedEof)
    } else if t[p].token == k {
        Ok((t[p].span, p + 1))
    } else {
        Err(CParseError::ExpectedToken(CExpected::Tok(k), t[p].token, t[p].span))
    }
}

pub open spec fn c_ident(t: Seq<Tok>, p: int) -> CR<SIdent> {
    if !(0 <= p < t.len()) {
        Err(CParseError::UnexpectedEof)
    } else {
        match t[p].token {
            Token::Ident(x) => Ok((SIdent { span: t[p].span, sym: x@ }, p + 1)),
            _ => Err(CParseError::ExpectedToken(CExpected::AnIdent, t[p].token, t[p].span)),
        }
    }
}

/// `i32`, `u64`, `f32`, `usize`, `string`, `pid`, a class name, or `[]` and
/// an element type.
pub open spec fn c_type(t: Seq<Tok>, p: int) -> CR<SType>
    decreases t.len() - p,
{
    if !(0 <= p < t.len()) {
        Err(CParseError::UnexpectedEof)
    } else {
        let span = t[p].span;
        match t[p].token {
            Token::I32 => Ok((SType::I32, p + 1)),
            Token::U64 => Ok((SType::U64, p + 1)),
            Token::F32 => Ok((SType::F32, p + 1)),
            Token::USize => Ok((SType::USize, p + 1)),
            Token::String => Ok((SType::String, p + 1)),
            Token::Ident(x) => if x@ == "pid"@ {
                Ok((SType::PID, p + 1))
            } else {
                Ok((SType::Ref(SIdent { span, sym: x@ }), p + 1))
            },
            Token::LBracket => match c_expect(t, p + 1, Token::RBracket) {
                Err(e) => Err(e),
                Ok((_, q)) => match c_type(t, q) {
                    Err(e) => Err(e),
                    Ok((elem, q2)) => Ok((SType::Array(Box::new(elem)), q2)),
                },
            },
            _ => Err(CParseError::UnexpectedToken(t[p].token, span)),
        }
    }
}

/// `name: type`
pub open spec fn c_param(t: Seq<Tok>, p: int) -> CR<SParam> {
    match c_ident(t, p) {
        Err(e) => Err(e),
        Ok((ident, q)) => match c_expect(t, q, Token::Colon) {
            Err(e) => Err(e),
            Ok((_, q1)) => match c_type(t, q1) {
                Err(e) => Err(e),
                Ok((ty, q2)) => Ok((SParam { span: ident.span, ident, ty, is_comptime: false }, q2)),
            },
        },
    }
}

/// Parameters up to `)`, each optionally followed by `,`.
pub open spec fn c_params(t: Seq<Tok>, p: int) -> CR<Seq<SParam>>
    decreases t.len() - p,
{
    if !(0 <= p <= t.len()) {
        Err(CParseError::UnexpectedEof)
    } else if is_at(t, p, Token::RParen) {
        Ok((Seq::empty(), p))
    } else {
        match c_param(t, p) {
            Err(e) => Err(e),
            Ok((x, q)) => {
                proof {
                    lemma_c_param(t, p);
                }
                c_prepend(seq![x], c_params(t, skip_if(t, q, Token::Comma)))
            },
        }
    }
}

/// `: type` or nothing.
pub open spec fn c_return_type(t: Seq<Tok>, p: int) -> CR<Option<SType>> {
    if is_at(t, p, Token::Colon) {
        match c_type(t, p + 1) {
            Err(e) => Err(e),
            Ok((ty, q)) => Ok((Some(ty), q)),
        }
    } else {
        Ok((None, p))
    }
}

// ------------------------------------------------------------------
// Patterns
// ------------------------------------------------------------------

/// `[p, q, ...]` or a name.
pub open spec fn c_pattern(t: Seq<Tok>, p: int) -> CR<SPattern>
    decreases t.len() - p, 1nat,
{
    if is_at(t, p, Token::LBracket) {
        match c_pattern_elems(t, p + 1) {
            Err(e) => Err(e),
            Ok((elems, q)) => match c_expect(t, q, Token::RBracket) {
                Err(e) => Err(e),
                Ok((_, q2)) => Ok((SPattern::Array(elems), q2)),
            },
        }
    } else {
        match c_ident(t, p) {
            Err(e) => Err(e),
            Ok((id, q)) => Ok((SPattern::Ident(id), q)),
        }
    }
}

/// Patterns up to `]`, each optionally followed by `,`.
pub open spec fn c_pattern_elems(t: Seq<Tok>, p: int) -> CR<Seq<SPattern>>
    decreases t.len() - p, 2nat,
{
    if !(0 <= p <= t.len()) {
        Err(CParseError::UnexpectedEof)
    } else if is_at(t, p, Token::RBracket) {
        Ok((Seq::empty(), p))
    } else {
        match c_pattern(t, p) {
            Err(e) => Err(e),
            Ok((x, q)) => if bad(t, p, q) {
                Err(CParseError::UnexpectedEof)
            } else {
                c_prepend(seq![x], c_pattern_elems(t, skip_if(t, q, Token::Comma)))
            },
        }
    }
}

// ------------------------------------------------------------------
// Expressions and statements (one mutually recursive family)
// ------------------------------------------------------------------

/// The span a binary expression, call or member access starts from.
pub open spec fn c_left_span(e: SExpr) -> Span {
    match e {
        SExpr::Ident(i) => i.span,
        SExpr::Bin(b) => b.span,
        SExpr::Call(c) => c.span,
        SExpr::Member(m) => m.span,
        SExpr::Slice(x) => x.span,
        _ => Span { start: 0, end: 0 },
    }
}

/// The operator a token stands for between two operands.
pub open spec fn c_op_of(k: Token) -> Option<BinaryOp> {
    match k {
        Token::Plus => Some(BinaryOp::Add),
        Token::Minus => Some(BinaryOp::Sub),
        Token::Star => Some(BinaryOp::Mul),
        Token::Slash => Some(BinaryOp::Div),
        Token::Assign => Some(BinaryOp::Eq),
        Token::Less => Some(BinaryOp::Lt),
        _ => None,
    }
}

/// How tightly an operator binds.
pub open spec fn c_precedence(op: BinaryOp) -> nat {
    match op {
        BinaryOp::Eq => 1,
        BinaryOp::Lt => 2,
        BinaryOp::Add | BinaryOp::Sub => 3,
        BinaryOp::Mul | BinaryOp::Div => 4,
        _ => 0,
    }
}

/// Where the raw code of a `__zig__ { ... }` block at `p` starts and ends (as
/// character indices, 0 at the end of input) and the position after it; `q`
/// is the position after the `{`.
pub open spec fn c_zig_bounds(t: Seq<Tok>, q: int) -> (int, int, int) {
    let cs: int = if 0 <= q < t.len() { t[q].char_start as int } else { 0 };
    let q2 = zig_scan(t, q, 1, cs).0;
    let ce: int = if 0 <= q2 < t.len() { t[q2].char_start as int } else { 0 };
    (cs, ce, q2)
}

/// `__zig__ { raw code }` at `p`: the raw code, trimmed, as an expression
/// statement. The code ends where the token after the closing brace starts;
/// when the block runs to the end of input that position is taken as 0, and
/// the block aborts unless its code is empty there too.
pub open spec fn c_zig(t: Seq<Tok>, s: Seq<char>, p: int) -> CR<SStmt> {
    if !(0 <= p < t.len()) {
        Err(CParseError::UnexpectedEof)
    } else {
        let start = t[p].span.start;
        match c_expect(t, p + 1, Token::LBrace) {
            Err(e) => Err(e),
            Ok((_, q)) => {
                let (cs, ce, q2) = c_zig_bounds(t, q);
                if cs > ce {
                    Err(CParseError::Aborts)
                } else {
                    Ok((SStmt::Expr(SExpr::Zig(SZigEscapeExpr {
                        span: Span { start, end: peek_span(t, q2).end },
                        code: trim(s.subrange(cs, ce)),
                    })), q2))
                }
            },
        }
    }
}

pub open spec fn c_stmt(t: Seq<Tok>, s: Seq<char>, p: int) -> CR<SStmt>
    decreases t.len() - p, 4nat,
{
    if !(0 <= p <= t.len()) {
        Err(CParseError::UnexpectedEof)
    } else if is_at(t, p, Token::Let) || is_at(t, p, Token::Const) {
        match c_var_decl(t, s, p) {
            Err(e) => Err(e),
            Ok((v, q)) => Ok((SStmt::Var(v), q)),
        }
    } else if is_at(t, p, Token::Return) {
        match c_return(t, s, p) {
            Err(e) => Err(e),
            Ok((r, q)) => Ok((SStmt::Return(r), q)),
        }
    } else if is_at(t, p, Token::LBrace) {
        match c_block(t, s, p) {
            Err(e) => Err(e),
            Ok((b, q)) => Ok((SStmt::Block(b), q)),
        }
    } else if is_at(t, p, Token::While) {
        match c_while(t, s, p) {
            Err(e) => Err(e),
            Ok((w, q)) => Ok((SStmt::While(w), q)),
        }
    } else if is_at(t, p, Token::ZigEscape) {
        c_zig(t, s, p)
    } else {
        match c_expr(t, s, p) {
            Err(e) => Err(e),
            Ok((x, q)) => Ok((SStmt::Expr(x), skip_if(t, q, Token::Semicolon))),
        }
    }
}

/// Statements up to `}` or the end of input.
pub open spec fn c_stmts(t: Seq<Tok>, s: Seq<char>, p: int) -> CR<Seq<SStmt>>
    decreases t.len() - p, 5nat,
{
    if !(0 <= p < t.len()) || is_at(t, p, Token::RBrace) {
        Ok((Seq::empty(), p))
    } else {
        match c_stmt(t, s, p) {
            Err(e) => Err(e),
            Ok((x, q)) => if bad(t, p, q) {
                Err(CParseError::UnexpectedEof)
            } else {
                c_prepend(seq![x], c_stmts(t, s, q))
            },
        }
    }
}

pub open spec fn c_block(t: Seq<Tok>, s: Seq<char>, p: int) -> CR<SBlockStmt>
    decreases t.len() - p, 1nat,
{
    match c_expect(t, p, Token::LBrace) {
        Err(e) => Err(e),
        Ok((sp, q)) => match c_stmts(t, s, q) {
            Err(e) => Err(e),
            Ok((body, q2)) => match c_expect(t, q2, Token::RBrace) {
                Err(e) => Err(e),
                Ok((esp, q3)) => Ok((SBlockStmt { span: Span { start: sp.start, end: esp.end }, body }, q3)),
            },
        },
    }
}

/// `while (test) body`; the span ends where the token after the body ends.
pub open spec fn c_while(t: Seq<Tok>, s: Seq<char>, p: int) -> CR<SWhileStmt>
    decreases t.len() - p, 1nat,
{
    match c_expect(t, p, Token::While) {
        Err(e) => Err(e),
        Ok((sp, q)) => match c_expect(t, q, Token::LParen) {
            Err(e) => Err(e),
            Ok((_, q1)) => match c_expr(t, s, q1) {
                Err(e) => Err(e),
                Ok((test, q2)) => match c_expect(t, q2, Token::RParen) {
                    Err(e) => Err(e),
                    Ok((_, q3)) => if bad(t, p, q3) {
                        Err(CParseError::UnexpectedEof)
                    } else {
                        match c_stmt(t, s, q3) {
                            Err(e) => Err(e),
                            Ok((body, q4)) => Ok((SWhileStmt {
                                span: Span { start: sp.start, end: peek_span(t, q4).end },
                                test,
                                body: Box::new(body),
                            }, q4)),
                        }
                    },
                },
            },
        },
    }
}

/// `let`/`const` pattern (`: type`)? (`= init`)? `;`; the span ends where the
/// token after the `;` ends.
pub open spec fn c_var_decl(t: Seq<Tok>, s: Seq<char>, p: int) -> CR<SVarDecl>
    decreases t.len() - p, 1nat,
{
    if !(0 <= p < t.len()) {
        Err(CParseError::UnexpectedEof)
    } else {
        let start = t[p].span.start;
        let kind = if t[p].token == Token::Let { VarDeclKind::Let } else { VarDeclKind::Const };
        match c_pattern(t, p + 1) {
            Err(e) => Err(e),
            Ok((pat, q)) => match c_return_type(t, q) {
                Err(e) => Err(e),
                Ok((ty, q1)) => {
                    let init: CR<Option<SExpr>> = if is_at(t, q1, Token::Assign) && !bad(t, p, q1) {
                        match c_expr(t, s, q1 + 1) {
                            Err(e) => Err(e),
                            Ok((x, q2)) => Ok((Some(x), q2)),
                        }
                    } else if is_at(t, q1, Token::Assign) {
                        Err(CParseError::UnexpectedEof)
                    } else {
                        Ok((None, q1))
                    };
                    match init {
                        Err(e) => Err(e),
                        Ok((init, q2)) => match c_expect(t, q2, Token::Semicolon) {
                            Err(e) => Err(e),
                            Ok((_, q3)) => Ok((SVarDecl {
                                span: Span { start, end: peek_span(t, q3).end },
                                kind,
                                pat,
                                ty,
                                init,
                            }, q3)),
                        },
                    }
                },
            },
        }
    }
}

/// `return` expr? `;`
pub open spec fn c_return(t: Seq<Tok>, s: Seq<char>, p: int) -> CR<SReturnStmt>
    decreases t.len() - p, 1nat,
{
    match c_expect(t, p, Token::Return) {
        Err(e) => Err(e),
        Ok((sp, q)) => {
            let arg: CR<Option<SExpr>> = if !is_at(t, q, Token::Semicolon) {
                match c_expr(t, s, q) {
                    Err(e) => Err(e),
                    Ok((x, q1)) => Ok((Some(x), q1)),
                }
            } else {
                Ok((None, q))
            };
            match arg {
                Err(e) => Err(e),
                Ok((arg, q1)) => match c_expect(t, q1, Token::Semicolon) {
                    Err(e) => Err(e),
                    Ok((esp, q2)) => Ok((SReturnStmt { span: Span { start: sp.start, end: esp.end }, arg }, q2)),
                },
            }
        },
    }
}

pub open spec fn c_expr(t: Seq<Tok>, s: Seq<char>, p: int) -> CR<SExpr>
    decreases t.len() - p, 3nat,
{
    c_bin(t, s, p, 0)
}

/// A primary expression with its calls, member accesses and indexing, then
/// the binary operators that bind at least as tight as `min_prec`.
pub open spec fn c_bin(t: Seq<Tok>, s: Seq<char>, p: int, min_prec: nat) -> CR<SExpr>
    decreases t.len() - p, 2nat,
{
    match c_primary(t, s, p) {
        Err(e) => Err(e),
        Ok((left, q)) => if bad(t, p, q) {
            Err(CParseError::UnexpectedEof)
        } else {
            c_postfix(t, s, left, q, min_prec)
        },
    }
}

/// Calls, member accesses and indexing after `left`, then the binary operators.
pub open spec fn c_postfix(t: Seq<Tok>, s: Seq<char>, left: SExpr, p: int, min_prec: nat) -> CR<SExpr>
    decreases t.len() - p, 2nat,
{
    if !(0 <= p <= t.len()) {
        Err(CParseError::UnexpectedEof)
    } else if is_at(t, p, Token::LParen) {
        match c_args(t, s, p + 1, Token::RParen) {
            Err(e) => Err(e),
            Ok((args, q)) => match c_expect(t, q, Token::RParen) {
                Err(e) => Err(e),
                Ok((esp, q2)) => if bad(t, p, q2) {
                    Err(CParseError::UnexpectedEof)
                } else {
                    c_postfix(t, s, SExpr::Call(SCallExpr {
                        span: Span { start: c_left_span(left).start, end: esp.end },
                        callee: Box::new(left),
                        args,
                        is_comptime: false,
                    }), q2, min_prec)
                },
            },
        }
    } else if is_at(t, p, Token::Dot) {
        match c_ident(t, p + 1) {
            Err(e) => Err(e),
            Ok((prop, q)) => c_postfix(t, s, SExpr::Member(SMemberExpr {
                span: Span { start: c_left_span(left).start, end: prop.span.end },
                obj: Box::new(left),
                prop,
            }), q, min_prec),
        }
    } else if is_at(t, p, Token::LBracket) {
        match c_index(t, s, left, p) {
            Err(e) => Err(e),
            Ok((x, q)) => if bad(t, p, q) {
                Err(CParseError::UnexpectedEof)
            } else {
                c_postfix(t, s, x, q, min_prec)
            },
        }
    } else {
        c_binops(t, s, left, p, min_prec)
    }
}

/// `left[i]`, `left[a..b]`, `left[..b]`, `left[a..]` at the `[`; an index is
/// kept as the member `at`.
pub open spec fn c_index(t: Seq<Tok>, s: Seq<char>, left: SExpr, p: int) -> CR<SExpr>
    decreases t.len() - p, 1nat,
{
    if !(0 <= p < t.len()) {
        Err(CParseError::UnexpectedEof)
    } else {
        let start_span = t[p].span;
        let parts: CR<(bool, Option<SExpr>, Option<SExpr>)> = if is_at(t, p + 1, Token::DotDot) {
            if is_at(t, p + 2, Token::RBracket) {
                Ok(((true, None, None), p + 2))
            } else {
                match c_expr(t, s, p + 2) {
                    Err(e) => Err(e),
                    Ok((x, q)) => Ok(((true, None, Some(x)), q)),
                }
            }
        } else {
            match c_expr(t, s, p + 1) {
                Err(e) => Err(e),
                Ok((idx, q)) => if is_at(t, q, Token::DotDot) && !bad(t, p, q) {
                    if is_at(t, q + 1, Token::RBracket) {
                        Ok(((true, Some(idx), None), q + 1))
                    } else {
                        match c_expr(t, s, q + 1) {
                            Err(e) => Err(e),
                            Ok((x, q2)) => Ok(((true, Some(idx), Some(x)), q2)),
                        }
                    }
                } else if is_at(t, q, Token::DotDot) {
                    Err(CParseError::UnexpectedEof)
                } else {
                    Ok(((false, Some(idx), None), q))
                },
            }
        };
        match parts {
            Err(e) => Err(e),
            Ok(((is_slice, start, end), q)) => match c_expect(t, q, Token::RBracket) {
                Err(e) => Err(e),
                Ok((esp, q2)) => {
                    let span = Span { start: c_left_span(left).start, end: esp.end };
                    if is_slice {
                        Ok((SExpr::Slice(SSliceExpr {
                            span,
                            obj: Box::new(left),
                            start: match start { Some(x) => Some(Box::new(x)), None => None },
                            end: match end { Some(x) => Some(Box::new(x)), None => None },
                        }), q2))
                    } else {
                        Ok((SExpr::Member(SMemberExpr {
                            span,
                            obj: Box::new(left),
                            prop: SIdent { span: start_span, sym: "at"@ },
                        }), q2))
                    }
                },
            },
        }
    }
}

/// The binary operators after `left` whose precedence is at least `min_prec`.
pub open spec fn c_binops(t: Seq<Tok>, s: Seq<char>, left: SExpr, p: int, min_prec: nat) -> CR<SExpr>
    decreases t.len() - p, 1nat,
{
    if !(0 <= p < t.len()) {
        Ok((left, p))
    } else {
        match c_op_of(t[p].token) {
            None => Ok((left, p)),
            Some(op) => if c_precedence(op) < min_prec {
                Ok((left, p))
            } else {
                match c_bin(t, s, p + 1, c_precedence(op) + 1) {
                    Err(e) => Err(e),
                    Ok((right, q)) => if bad(t, p, q) {
                        Err(CParseError::UnexpectedEof)
                    } else {
                        c_binops(t, s, SExpr::Bin(SBinExpr {
                            span: Span { start: c_left_span(left).start, end: c_left_span(right).end },
                            op,
                            left: Box::new(left),
                            right: Box::new(right),
                        }), q, min_prec)
                    },
                }
            },
        }
    }
}

/// Expressions up to the `close` token, each optionally followed by `,`.
pub open spec fn c_args(t: Seq<Tok>, s: Seq<char>, p: int, close: Token) -> CR<Seq<SExpr>>
    decreases t.len() - p, 4nat,
{
    if !(0 <= p <= t.len()) {
        Err(CParseError::UnexpectedEof)
    } else if is_at(t, p, close) {
        Ok((Seq::empty(), p))
    } else {
        match c_expr(t, s, p) {
            Err(e) => Err(e),
            Ok((x, q)) => if bad(t, p, q) {
                Err(CParseError::UnexpectedEof)
            } else {
                c_prepend(seq![x], c_args(t, s, skip_if(t, q, Token::Comma), close))
            },
        }
    }
}

/// `name(args)` after `new` or `spawn` at `p`: the name and the arguments, or
/// `None` when what follows the keyword is not a name.
pub open spec fn c_callee_call(t: Seq<Tok>, s: Seq<char>, p: int) -> CR<Option<(SIdent, Seq<SExpr>, Span)>>
    decreases t.len() - p, 0nat,
{
    if !(0 <= p < t.len()) {
        Err(CParseError::UnexpectedEof)
    } else {
        match c_primary(t, s, p + 1) {
            Err(e) => Err(e),
            Ok((callee, q)) => match callee {
                SExpr::Ident(id) => if bad(t, p, q) {
                    Err(CParseError::UnexpectedEof)
                } else {
                    match c_expect(t, q, Token::LParen) {
                        Err(e) => Err(e),
                        Ok((_, q1)) => match c_args(t, s, q1, Token::RParen) {
                            Err(e) => Err(e),
                            Ok((args, q2)) => match c_expect(t, q2, Token::RParen) {
                                Err(e) => Err(e),
                                Ok((esp, q3)) => Ok((Some((id, args, esp)), q3)),
                            },
                        },
                    }
                },
                _ => Ok((None, q)),
            },
        }
    }
}

pub open spec fn c_primary(t: Seq<Tok>, s: Seq<char>, p: int) -> CR<SExpr>
    decreases t.len() - p, 1nat,
{
    if !(0 <= p < t.len()) {
        Err(CParseError::UnexpectedEof)
    } else {
        let span = t[p].span;
        match t[p].token {
            Token::Ident(x) => if is_at(t, p + 1, Token::FatArrow) {
                let body: CR<SArrowBody> = if is_at(t, p + 2, Token::LBrace) {
                    match c_block(t, s, p + 2) {
                        Err(e) => Err(e),
                        Ok((b, q)) => Ok((SArrowBody::Block(b), q)),
                    }
                } else {
                    match c_expr(t, s, p + 2) {
                        Err(e) => Err(e),
                        Ok((e, q)) => Ok((SArrowBody::Expr(e), q)),
                    }
                };
                match body {
                    Err(e) => Err(e),
                    Ok((b, q)) => Ok((SExpr::Arrow(Box::new(SArrowExpr {
                        span: Span { start: span.start, end: peek_span(t, q).end },
                        params: seq![SPattern::Ident(SIdent { span, sym: x@ })],
                        body: Box::new(b),
                    })), q)),
                }
            } else {
                Ok((SExpr::Ident(SIdent { span, sym: x@ }), p + 1))
            },
            Token::LParen => match c_expr(t, s, p + 1) {
                Err(e) => Err(e),
                Ok((x, q)) => match c_expect(t, q, Token::RParen) {
                    Err(e) => Err(e),
                    Ok((_, q1)) => Ok((x, q1)),
                },
            },
            Token::IntLiteral(v) => Ok((SExpr::Lit(SLit::Int(v)), p + 1)),
            Token::StringLiteral(v) => Ok((SExpr::Lit(SLit::Str(v@)), p + 1)),
            Token::New => match c_callee_call(t, s, p) {
                Err(e) => Err(e),
                Ok((None, _)) => Err(CParseError::UnexpectedToken(Token::New, span)),
                Ok((Some((id, args, esp)), q)) => Ok((SExpr::New(SCallExpr {
                    span: Span { start: span.start, end: esp.end },
                    callee: Box::new(SExpr::Ident(id)),
                    args,
                    is_comptime: false,
                }), q)),
            },
            Token::Spawn => match c_callee_call(t, s, p) {
                Err(e) => Err(e),
                Ok((None, _)) => Err(CParseError::UnexpectedToken(Token::Spawn, span)),
                Ok((Some((id, args, esp)), q)) => Ok((SExpr::Spawn(Box::new(SSpawnExpr {
                    span: Span { start: span.start, end: esp.end },
                    callee: Box::new(SExpr::Ident(id)),
                    args,
                })), q)),
            },
            Token::Receive => {
                let ty: CR<Option<SType>> = if is_at(t, p + 1, Token::Less) {
                    match c_type(t, p + 2) {
                        Err(e) => Err(e),
                        Ok((ty, q)) => match c_expect(t, q, Token::Greater) {
                            Err(e) => Err(e),
                            Ok((_, q1)) => Ok((Some(ty), q1)),
                        },
                    }
                } else {
                    Ok((None, p + 1))
                };
                match ty {
                    Err(e) => Err(e),
                    Ok((ty, q)) => match c_expect(t, q, Token::LParen) {
                        Err(e) => Err(e),
                        Ok((_, q1)) => match c_expect(t, q1, Token::RParen) {
                            Err(e) => Err(e),
                            Ok((_, q2)) => Ok((SExpr::Receive(match ty {
                                Some(x) => Some(Box::new(x)),
                                None => None,
                            }), q2)),
                        },
                    },
                }
            },
            Token::LBracket => match c_args(t, s, p + 1, Token::RBracket) {
                Err(e) => Err(e),
                Ok((elems, q)) => match c_expect(t, q, Token::RBracket) {
                    Err(e) => Err(e),
                    Ok((_, q1)) => Ok((SExpr::Array(elems), q1)),
                },
            },
            _ => Err(CParseError::UnexpectedToken(t[p].token, span)),
        }
    }
}

// ------------------------------------------------------------------
// Declarations and modules
// ------------------------------------------------------------------

/// `fn name(params) (: type)? { body }`
pub open spec fn c_function(t: Seq<Tok>, s: Seq<char>, p: int) -> CR<SFunction> {
    match c_expect(t, p, Token::Fn) {
        Err(e) => Err(e),
        Ok((sp, q)) => match c_ident(t, q) {
            Err(e) => Err(e),
            Ok((ident, q1)) => match c_expect(t, q1, Token::LParen) {
                Err(e) => Err(e),
                Ok((_, q2)) => match c_params(t, q2) {
                    Err(e) => Err(e),
                    Ok((params, q3)) => match c_expect(t, q3, Token::RParen) {
                        Err(e) => Err(e),
                        Ok((_, q4)) => match c_return_type(t, q4) {
                            Err(e) => Err(e),
                            Ok((return_type, q5)) => match c_block(t, s, q5) {
                                Err(e) => Err(e),
                                Ok((body, q6)) => Ok((SFunction {
                                    span: Span { start: sp.start, end: body.span.end },
                                    ident,
                                    params,
                                    return_type,
                                    body,
                                    is_async: false,
                                }, q6)),
                            },
                        },
                    },
                },
            },
        },
    }
}

/// `name: type;` in a class body.
pub open spec fn c_field(t: Seq<Tok>, p: int) -> CR<SField> {
    match c_ident(t, p) {
        Err(e) => Err(e),
        Ok((ident, q)) => match c_expect(t, q, Token::Colon) {
            Err(e) => Err(e),
            Ok((_, q1)) => match c_type(t, q1) {
                Err(e) => Err(e),
                Ok((ty, q2)) => match c_expect(t, q2, Token::Semicolon) {
                    Err(e) => Err(e),
                    Ok((_, q3)) => Ok((SField { span: ident.span, ident, ty }, q3)),
                },
            },
        },
    }
}

/// The fields and methods of a class body, up to `}` or the end of input.
pub open spec fn c_class_members(t: Seq<Tok>, s: Seq<char>, p: int) -> CR<(Seq<SField>, Seq<SFunction>)>
    decreases t.len() - p,
{
    if !(0 <= p < t.len()) || is_at(t, p, Token::RBrace) {
        Ok(((Seq::empty(), Seq::empty()), p))
    } else if is_at(t, p, Token::Fn) {
        match c_function(t, s, p) {
            Err(e) => Err(e),
            Ok((f, q)) => {
                proof {
                    lemma_c_function(t, s, p);
                }
                c_prepend2(Seq::empty(), seq![f], c_class_members(t, s, q))
            },
        }
    } else {
        match c_field(t, p) {
            Err(e) => Err(e),
            Ok((f, q)) => {
                proof {
                    lemma_c_field(t, p);
                }
                c_prepend2(seq![f], Seq::empty(), c_class_members(t, s, q))
            },
        }
    }
}

/// The names after `implements`, separated by `,`.
pub open spec fn c_implements(t: Seq<Tok>, p: int) -> CR<Seq<SIdent>>
    decreases t.len() - p,
{
    match c_ident(t, p) {
        Err(e) => Err(e),
        Ok((x, q)) => if is_at(t, q, Token::Comma) {
            c_prepend(seq![x], c_implements(t, q + 1))
        } else {
            Ok((seq![x], q))
        },
    }
}

/// `class Name (implements A, B)? { members }`
pub open spec fn c_class(t: Seq<Tok>, s: Seq<char>, p: int) -> CR<SClass> {
    match c_expect(t, p, Token::Class) {
        Err(e) => Err(e),
        Ok((sp, q)) => match c_ident(t, q) {
            Err(e) => Err(e),
            Ok((ident, q1)) => {
                let imps: CR<Seq<SIdent>> = if is_at(t, q1, Token::Implements) {
                    c_implements(t, q1 + 1)
                } else {
                    Ok((Seq::empty(), q1))
                };
                match imps {
                    Err(e) => Err(e),
                    Ok((implements, q2)) => match c_expect(t, q2, Token::LBrace) {
                        Err(e) => Err(e),
                        Ok((_, q3)) => match c_class_members(t, s, q3) {
                            Err(e) => Err(e),
                            Ok(((fields, methods), q4)) => match c_expect(t, q4, Token::RBrace) {
                                Err(e) => Err(e),
                                Ok((esp, q5)) => Ok((SClass {
                                    span: Span { start: sp.start, end: esp.end },
                                    ident,
                                    implements,
                                    fields,
                                    methods,
                                }, q5)),
                            },
                        },
                    },
                }
            },
        },
    }
}

/// `fn name(params) (: type)? ;` in an interface body.
pub open spec fn c_method_sig(t: Seq<Tok>, p: int) -> CR<SMethodSig> {
    match c_expect(t, p, Token::Fn) {
        Err(e) => Err(e),
        Ok((_, q)) => match c_ident(t, q) {
            Err(e) => Err(e),
            Ok((ident, q1)) => match c_expect(t, q1, Token::LParen) {
                Err(e) => Err(e),
                Ok((_, q2)) => match c_params(t, q2) {
                    Err(e) => Err(e),
                    Ok((params, q3)) => match c_expect(t, q3, Token::RParen) {
                        Err(e) => Err(e),
                        Ok((_, q4)) => match c_return_type(t, q4) {
                            Err(e) => Err(e),
                            Ok((return_type, q5)) => match c_expect(t, q5, Token::Semicolon) {
                                Err(e) => Err(e),
                                Ok((_, q6)) => Ok((SMethodSig { span: ident.span, ident, params, return_type }, q6)),
                            },
                        },
                    },
                },
            },
        },
    }
}

/// Method signatures up to `}` or the end of input.
pub open spec fn c_method_sigs(t: Seq<Tok>, p: int) -> CR<Seq<SMethodSig>>
    decreases t.len() - p,
{
    if !(0 <= p < t.len()) || is_at(t, p, Token::RBrace) {
        Ok((Seq::empty(), p))
    } else {
        match c_method_sig(t, p) {
            Err(e) => Err(e),
            Ok((x, q)) => {
                proof {
                    lemma_c_method_sig(t, p);
                }
                c_prepend(seq![x], c_method_sigs(t, q))
            },
        }
    }
}

/// `interface Name { signatures }`
pub open spec fn c_interface(t: Seq<Tok>, p: int) -> CR<SInterface> {
    match c_expect(t, p, Token::Interface) {
        Err(e) => Err(e),
        Ok((sp, q)) => match c_ident(t, q) {
            Err(e) => Err(e),
            Ok((ident, q1)) => match c_expect(t, q1, Token::LBrace) {
                Err(e) => Err(e),
                Ok((_, q2)) => match c_method_sigs(t, q2) {
                    Err(e) => Err(e),
                    Ok((methods, q3)) => match c_expect(t, q3, Token::RBrace) {
                        Err(e) => Err(e),
                        Ok((esp, q4)) => Ok((SInterface {
                            span: Span { start: sp.start, end: esp.end },
                            ident,
                            methods,
                        }, q4)),
                    },
                },
            },
        },
    }
}

/// A function, class or interface declaration at `p`.
pub open spec fn c_decl(t: Seq<Tok>, s: Seq<char>, p: int) -> CR<SDecl> {
    if is_at(t, p, Token::Fn) {
        match c_function(t, s, p) {
            Err(e) => Err(e),
            Ok((f, q)) => Ok((SDecl::Func(f), q)),
        }
    } else if is_at(t, p, Token::Class) {
        match c_class(t, s, p) {
            Err(e) => Err(e),
            Ok((c, q)) => Ok((SDecl::Class(c), q)),
        }
    } else if is_at(t, p, Token::Interface) {
        match c_interface(t, p) {
            Err(e) => Err(e),
            Ok((i, q)) => Ok((SDecl::Interface(i), q)),
        }
    } else if 0 <= p < t.len() {
        Err(CParseError::UnexpectedToken(t[p].token, t[p].span))
    } else {
        Err(CParseError::UnexpectedEof)
    }
}

/// The token at `p` starts a declaration.
pub open spec fn c_starts_decl(t: Seq<Tok>, p: int) -> bool {
    is_at(t, p, Token::Fn) || is_at(t, p, Token::Class) || is_at(t, p, Token::Interface)
}

/// A top-level item: a function, class or interface declaration, or a statement.
pub open spec fn c_module_item(t: Seq<Tok>, s: Seq<char>, p: int) -> CR<SModuleItem> {
    if c_starts_decl(t, p) {
        match c_decl(t, s, p) {
            Err(e) => Err(e),
            Ok((d, q)) => Ok((SModuleItem::Decl(d), q)),
        }
    } else {
        match c_stmt(t, s, p) {
            Err(e) => Err(e),
            Ok((x, q)) => Ok((SModuleItem::Stmt(x), q)),
        }
    }
}

// ------------------------------------------------------------------
// Progress: every successful parse moves forward
// ------------------------------------------------------------------

/// A successful result ends strictly after `p`, inside the stream.
pub open spec fn advances<T>(r: CR<T>, t: Seq<Tok>, p: int) -> bool {
    r is Ok ==> p < r->Ok_0.1 <= t.len()
}

/// A successful result ends at or after `p`, inside the stream.
pub open spec fn stays<T>(r: CR<T>, t: Seq<Tok>, p: int) -> bool {
    r is Ok ==> p <= r->Ok_0.1 <= t.len()
}

pub proof fn lemma_c_type(t: Seq<Tok>, p: int)
    ensures
        advances(c_type(t, p), t, p),
    decreases t.len() - p,
{
    if 0 <= p < t.len() && t[p].token == Token::LBracket && p + 2 <= t.len() {
        lemma_c_type(t, p + 2);
    }
}

pub proof fn lemma_c_return_type(t: Seq<Tok>, p: int)
    requires
        0 <= p <= t.len(),
    ensures
        stays(c_return_type(t, p), t, p),
{
    lemma_c_type(t, p + 1);
}

pub proof fn lemma_c_param(t: Seq<Tok>, p: int)
    ensures
        advances(c_param(t, p), t, p),
{
    lemma_c_type(t, p + 2);
}

pub proof fn lemma_c_params(t: Seq<Tok>, p: int)
    ensures
        stays(c_params(t, p), t, p),
    decreases t.len() - p,
{
    if 0 <= p <= t.len() && !is_at(t, p, Token::RParen) {
        lemma_c_param(t, p);
        match c_param(t, p) {
            Ok((_, q)) => {
                lemma_c_params(t, skip_if(t, q, Token::Comma));
            },
            Err(_) => {},
        }
    }
}

pub proof fn lemma_c_pattern(t: Seq<Tok>, p: int)
    ensures
        advances(c_pattern(t, p), t, p),
    decreases t.len() - p, 1nat,
{
    if is_at(t, p, Token::LBracket) {
        lemma_c_pattern_elems(t, p + 1);
    }
}

pub proof fn lemma_c_pattern_elems(t: Seq<Tok>, p: int)
    ensures
        stays(c_pattern_elems(t, p), t, p),
    decreases t.len() - p, 2nat,
{
    if 0 <= p <= t.len() && !is_at(t, p, Token::RBracket) {
        lemma_c_pattern(t, p);
        match c_pattern(t, p) {
            Ok((_, q)) => if !bad(t, p, q) {
                lemma_c_pattern_elems(t, skip_if(t, q, Token::Comma));
            },
            Err(_) => {},
        }
    }
}

pub proof fn lemma_c_zig(t: Seq<Tok>, s: Seq<char>, p: int)
    ensures
        advances(c_zig(t, s, p), t, p),
{
    if 0 <= p && p + 2 <= t.len() {
        let q = p + 2;
        let cs: int = if 0 <= q < t.len() { t[q].char_start as int } else { 0 };
        lemma_zig_scan_bounds(t, q, 1, cs);
    }
}

pub proof fn lemma_c_stmt(t: Seq<Tok>, s: Seq<char>, p: int)
    ensures
        advances(c_stmt(t, s, p), t, p),
    decreases t.len() - p, 4nat,
{
    if 0 <= p <= t.len() {
        if is_at(t, p, Token::Let) || is_at(t, p, Token::Const) {
            lemma_c_var_decl(t, s, p);
        } else if is_at(t, p, Token::Return) {
            lemma_c_return(t, s, p);
        } else if is_at(t, p, Token::LBrace) {
            lemma_c_block(t, s, p);
        } else if is_at(t, p, Token::While) {
            lemma_c_while(t, s, p);
        } else if is_at(t, p, Token::ZigEscape) {
            lemma_c_zig(t, s, p);
        } else {
            lemma_c_expr(t, s, p);
        }
    }
}

pub proof fn lemma_c_stmts(t: Seq<Tok>, s: Seq<char>, p: int)
    requires
        0 <= p <= t.len(),
    ensures
        stays(c_stmts(t, s, p), t, p),
    decreases t.len() - p, 5nat,
{
    if p < t.len() && !is_at(t, p, Token::RBrace) {
        lemma_c_stmt(t, s, p);
        match c_stmt(t, s, p) {
            Ok((_, q)) => if !bad(t, p, q) {
                lemma_c_stmts(t, s, q);
            },
            Err(_) => {},
        }
    }
}

pub proof fn lemma_c_block(t: Seq<Tok>, s: Seq<char>, p: int)
    ensures
        advances(c_block(t, s, p), t, p),
    decreases t.len() - p, 1nat,
{
    if 0 <= p < t.len() {
        lemma_c_stmts(t, s, p + 1);
    }
}

pub proof fn lemma_c_while(t: Seq<Tok>, s: Seq<char>, p: int)
    ensures
        advances(c_while(t, s, p), t, p),
    decreases t.len() - p, 1nat,
{
    if 0 <= p && p + 2 <= t.len() {
        lemma_c_expr(t, s, p + 2);
        match c_expr(t, s, p + 2) {
            Ok((_, q2)) => match c_expect(t, q2, Token::RParen) {
                Ok((_, q3)) => if !bad(t, p, q3) {
                    lemma_c_stmt(t, s, q3);
                },
                Err(_) => {},
            },
            Err(_) => {},
        }
    }
}

pub proof fn lemma_c_var_decl(t: Seq<Tok>, s: Seq<char>, p: int)
    ensures
        advances(c_var_decl(t, s, p), t, p),
    decreases t.len() - p, 1nat,
{
    if 0 <= p < t.len() {
        lemma_c_pattern(t, p + 1);
        match c_pattern(t, p + 1) {
            Ok((_, q)) => {
                lemma_c_return_type(t, q);
                match c_return_type(t, q) {
                    Ok((_, q1)) => if is_at(t, q1, Token::Assign) && !bad(t, p, q1) {
                        lemma_c_expr(t, s, q1 + 1);
                    },
                    Err(_) => {},
                }
            },
            Err(_) => {},
        }
    }
}

pub proof fn lemma_c_return(t: Seq<Tok>, s: Seq<char>, p: int)
    ensures
        advances(c_return(t, s, p), t, p),
    decreases t.len() - p, 1nat,
{
    if 0 <= p < t.len() {
        lemma_c_expr(t, s, p + 1);
    }
}

pub proof fn lemma_c_expr(t: Seq<Tok>, s: Seq<char>, p: int)
    ensures
        advances(c_expr(t, s, p), t, p),
    decreases t.len() - p, 3nat,
{
    lemma_c_bin(t, s, p, 0);
}

pub proof fn lemma_c_bin(t: Seq<Tok>, s: Seq<char>, p: int, min_prec: nat)
    ensures
        advances(c_bin(t, s, p, min_prec), t, p),
    decreases t.len() - p, 2nat,
{
    lemma_c_primary(t, s, p);
    match c_primary(t, s, p) {
        Ok((left, q)) => if !bad(t, p, q) {
            lemma_c_postfix(t, s, left, q, min_prec);
        },
        Err(_) => {},
    }
}

pub proof fn lemma_c_postfix(t: Seq<Tok>, s: Seq<char>, left: SExpr, p: int, min_prec: nat)
    ensures
        stays(c_postfix(t, s, left, p, min_prec), t, p),
    decreases t.len() - p, 2nat,
{
    if 0 <= p <= t.len() {
        if is_at(t, p, Token::LParen) {
            lemma_c_args(t, s, p + 1, Token::RParen);
            match c_args(t, s, p + 1, Token::RParen) {
                Ok((args, q)) => match c_expect(t, q, Token::RParen) {
                    Ok((esp, q2)) => if !bad(t, p, q2) {
                        lemma_c_postfix(t, s, SExpr::Call(SCallExpr {
                            span: Span { start: c_left_span(left).start, end: esp.end },
                            callee: Box::new(left),
                            args,
                            is_comptime: false,
                        }), q2, min_prec);
                    },
                    Err(_) => {},
                },
                Err(_) => {},
            }
        } else if is_at(t, p, Token::Dot) {
            match c_ident(t, p + 1) {
                Ok((prop, q)) => {
                    lemma_c_postfix(t, s, SExpr::Member(SMemberExpr {
                        span: Span { start: c_left_span(left).start, end: prop.span.end },
                        obj: Box::new(left),
                        prop,
                    }), q, min_prec);
                },
                Err(_) => {},
            }
        } else if is_at(t, p, Token::LBracket) {
            lemma_c_index(t, s, left, p);
            match c_index(t, s, left, p) {
                Ok((x, q)) => if !bad(t, p, q) {
                    lemma_c_postfix(t, s, x, q, min_prec);
                },
                Err(_) => {},
            }
        } else {
            lemma_c_binops(t, s, left, p, min_prec);
        }
    }
}

pub proof fn lemma_c_index(t: Seq<Tok>, s: Seq<char>, left: SExpr, p: int)
    ensures
        advances(c_index(t, s, left, p), t, p),
    decreases t.len() - p, 1nat,
{
    if 0 <= p < t.len() {
        if is_at(t, p + 1, Token::DotDot) {
            lemma_c_expr(t, s, p + 2);
        } else {
            lemma_c_expr(t, s, p + 1);
            match c_expr(t, s, p + 1) {
                Ok((_, q)) => if is_at(t, q, Token::DotDot) && !bad(t, p, q) {
                    lemma_c_expr(t, s, q + 1);
                },
                Err(_) => {},
            }
        }
    }
}

pub proof fn lemma_c_binops(t: Seq<Tok>, s: Seq<char>, left: SExpr, p: int, min_prec: nat)
    requires
        0 <= p <= t.len(),
    ensures
        stays(c_binops(t, s, left, p, min_prec), t, p),
    decreases t.len() - p, 1nat,
{
    if p < t.len() {
        match c_op_of(t[p].token) {
            Some(op) => if c_precedence(op) >= min_prec {
                lemma_c_bin(t, s, p + 1, c_precedence(op) + 1);
                match c_bin(t, s, p + 1, c_precedence(op) + 1) {
                    Ok((right, q)) => if !bad(t, p, q) {
                        lemma_c_binops(t, s, SExpr::Bin(SBinExpr {
                            span: Span { start: c_left_span(left).start, end: c_left_span(right).end },
                            op,
                            left: Box::new(left),
                            right: Box::new(right),
                        }), q, min_prec);
                    },
                    Err(_) => {},
                }
            },
            None => {},
        }
    }
}

pub proof fn lemma_c_args(t: Seq<Tok>, s: Seq<char>, p: int, close: Token)
    ensures
        stays(c_args(t, s, p, close), t, p),
    decreases t.len() - p, 4nat,
{
    if 0 <= p <= t.len() && !is_at(t, p, close) {
        lemma_c_expr(t, s, p);
        match c_expr(t, s, p) {
            Ok((_, q)) => if !bad(t, p, q) {
                lemma_c_args(t, s, skip_if(t, q, Token::Comma), close);
            },
            Err(_) => {},
        }
    }
}

pub proof fn lemma_c_callee_call(t: Seq<Tok>, s: Seq<char>, p: int)
    ensures
        advances(c_callee_call(t, s, p), t, p),
    decreases t.len() - p, 0nat,
{
    if 0 <= p < t.len() {
        lemma_c_primary(t, s, p + 1);
        match c_primary(t, s, p + 1) {
            Ok((callee, q)) => if !bad(t, p, q) {
                match c_expect(t, q, Token::LParen) {
                    Ok((_, q1)) => {
                        lemma_c_args(t, s, q1, Token::RParen);
                    },
                    Err(_) => {},
                }
            },
            Err(_) => {},
        }
    }
}

pub proof fn lemma_c_primary(t: Seq<Tok>, s: Seq<char>, p: int)
    ensures
        advances(c_primary(t, s, p), t, p),
    decreases t.len() - p, 1nat,
{
    if 0 <= p < t.len() {
        match t[p].token {
            Token::Ident(_) => if is_at(t, p + 1, Token::FatArrow) {
                lemma_c_block(t, s, p + 2);
                lemma_c_expr(t, s, p + 2);
            },
            Token::LParen => lemma_c_expr(t, s, p + 1),
            Token::New => lemma_c_callee_call(t, s, p),
            Token::Spawn => lemma_c_callee_call(t, s, p),
            Token::Receive => lemma_c_type(t, p + 2),
            Token::LBracket => lemma_c_args(t, s, p + 1, Token::RBracket),
            _ => {},
        }
    }
}

pub proof fn lemma_c_function(t: Seq<Tok>, s: Seq<char>, p: int)
    ensures
        advances(c_function(t, s, p), t, p),
{
    if 0 <= p && p + 3 <= t.len() {
        lemma_c_params(t, p + 3);
        match c_params(t, p + 3) {
            Ok((_, q3)) => match c_expect(t, q3, Token::RParen) {
                Ok((_, q4)) => {
                    lemma_c_return_type(t, q4);
                    match c_return_type(t, q4) {
                        Ok((_, q5)) => lemma_c_block(t, s, q5),
                        Err(_) => {},
                    }
                },
                Err(_) => {},
            },
            Err(_) => {},
        }
    }
}

pub proof fn lemma_c_field(t: Seq<Tok>, p: int)
    ensures
        advances(c_field(t, p), t, p),
{
    lemma_c_type(t, p + 2);
}

pub proof fn lemma_c_class_members(t: Seq<Tok>, s: Seq<char>, p: int)
    requires
        0 <= p <= t.len(),
    ensures
        stays(c_class_members(t, s, p), t, p),
    decreases t.len() - p,
{
    if p < t.len() && !is_at(t, p, Token::RBrace) {
        if is_at(t, p, Token::Fn) {
            lemma_c_function(t, s, p);
            match c_function(t, s, p) {
                Ok((_, q)) => { lemma_c_class_members(t, s, q); },
                Err(_) => {},
            }
        } else {
            lemma_c_field(t, p);
            match c_field(t, p) {
                Ok((_, q)) => { lemma_c_class_members(t, s, q); },
                Err(_) => {},
            }
        }
    }
}

pub proof fn lemma_c_implements(t: Seq<Tok>, p: int)
    ensures
        advances(c_implements(t, p), t, p),
    decreases t.len() - p,
{
    match c_ident(t, p) {
        Ok((_, q)) => if is_at(t, q, Token::Comma) {
            lemma_c_implements(t, q + 1);
        },
        Err(_) => {},
    }
}

pub proof fn lemma_c_class(t: Seq<Tok>, s: Seq<char>, p: int)
    ensures
        advances(c_class(t, s, p), t, p),
{
    if 0 <= p && p + 2 <= t.len() {
        let q1 = p + 2;
        lemma_c_implements(t, q1 + 1);
        let imps: CR<Seq<SIdent>> = if is_at(t, q1, Token::Implements) {
            c_implements(t, q1 + 1)
        } else {
            Ok((Seq::empty(), q1))
        };
        match imps {
            Ok((_, q2)) => match c_expect(t, q2, Token::LBrace) {
                Ok((_, q3)) => lemma_c_class_members(t, s, q3),
                Err(_) => {},
            },
            Err(_) => {},
        }
    }
}

pub proof fn lemma_c_method_sig(t: Seq<Tok>, p: int)
    ensures
        advances(c_method_sig(t, p), t, p),
{
    if 0 <= p && p + 3 <= t.len() {
        lemma_c_params(t, p + 3);
        match c_params(t, p + 3) {
            Ok((_, q3)) => match c_expect(t, q3, Token::RParen) {
                Ok((_, q4)) => lemma_c_return_type(t, q4),
                Err(_) => {},
            },
            Err(_) => {},
        }
    }
}

pub proof fn lemma_c_method_sigs(t: Seq<Tok>, p: int)
    requires
        0 <= p <= t.len(),
    ensures
        stays(c_method_sigs(t, p), t, p),
    decreases t.len() - p,
{
    if p < t.len() && !is_at(t, p, Token::RBrace) {
        lemma_c_method_sig(t, p);
        match c_method_sig(t, p) {
            Ok((_, q)) => { lemma_c_method_sigs(t, q); },
            Err(_) => {},
        }
    }
}

pub proof fn lemma_c_interface(t: Seq<Tok>, p: int)
    ensures
        advances(c_interface(t, p), t, p),
{
    if 0 <= p && p + 3 <= t.len() {
        lemma_c_method_sigs(t, p + 3);
    }
}

/// Every successful top-level item moves the parse forward.
pub proof fn lemma_c_module_item(t: Seq<Tok>, s: Seq<char>, p: int)
    ensures
        advances(c_module_item(t, s, p), t, p),
{
    lemma_c_function(t, s, p);
    lemma_c_class(t, s, p);
    lemma_c_interface(t, p);
    lemma_c_stmt(t, s, p);
}

/// Items up to the end of input.
pub open spec fn c_module_items(t: Seq<Tok>, s: Seq<char>, p: int) -> CR<Seq<SModuleItem>>
    decreases t.len() - p,
{
    if !(0 <= p < t.len()) {
        Ok((Seq::empty(), p))
    } else {
        match c_module_item(t, s, p) {
            Err(e) => Err(e),
            Ok((x, q)) => {
                proof {
                    lemma_c_module_item(t, s, p);
                }
                c_prepend(seq![x], c_module_items(t, s, q))
            },
        }
    }
}

/// A whole module from `p`; its span runs from the start of the token at `p`
/// to the end of the token after the last item, which is 0 at the end of input.
pub open spec fn c_module(t: Seq<Tok>, s: Seq<char>, p: int) -> CR<SModule> {
    match c_module_items(t, s, p) {
        Err(e) => Err(e),
        Ok((body, q)) => Ok((SModule { span: Span { start: peek_span(t, p).start, end: peek_span(t, q).end }, body }, q)),
    }
}

/// Items are read up to the end of input.
pub proof fn lemma_c_module_items_reach_end(t: Seq<Tok>, s: Seq<char>, p: int)
    requires
        0 <= p <= t.len(),
    ensures
        c_module_items(t, s, p) is Ok ==> c_module_items(t, s, p)->Ok_0.1 == t.len(),
    decreases t.len() - p,
{
    if p < t.len() {
        lemma_c_module_item(t, s, p);
        match c_module_item(t, s, p) {
            Ok((x, q)) => {
                lemma_c_module_items_reach_end(t, s, q);
            },
            Err(_) => {},
        }
    }
}

// ------------------------------------------------------------------
// Operator precedence
// ------------------------------------------------------------------

/// The binary operators are `+ - * / = <`; assignment binds loosest, then `<`, then
/// `+` and `-`, and `*` and `/` bind tightest.
pub proof fn law_c_operators()
    ensures
        c_op_of(Token::Plus) == Some(BinaryOp::Add),
        c_op_of(Token::Minus) == Some(BinaryOp::Sub),
        c_op_of(Token::Star) == Some(BinaryOp::Mul),
        c_op_of(Token::Slash) == Some(BinaryOp::Div),
        c_op_of(Token::Assign) == Some(BinaryOp::Eq),
        c_op_of(Token::Less) == Some(BinaryOp::Lt),
        c_op_of(Token::Greater) is None,
        c_op_of(Token::Eq) is None,
        c_precedence(BinaryOp::Eq) > 0,
        c_precedence(BinaryOp::Eq) < c_precedence(BinaryOp::Lt),
        c_precedence(BinaryOp::Lt) < c_precedence(BinaryOp::Add),
        c_precedence(BinaryOp::Add) == c_precedence(BinaryOp::Sub),
        c_precedence(BinaryOp::Sub) < c_precedence(BinaryOp::Mul),
        c_precedence(BinaryOp::Mul) == c_precedence(BinaryOp::Div),
{
}

/// The token at `q` is a name.
pub open spec fn c_name_at(t: Seq<Tok>, q: int) -> bool {
    0 <= q < t.len() && t[q].token is Ident
}

pub open spec fn c_name_expr(t: Seq<Tok>, q: int) -> SExpr {
    SExpr::Ident(SIdent { span: t[q].span, sym: t[q].token->Ident_0@ })
}

/// Nothing at `q` continues an expression.
pub open spec fn c_ends_expr(t: Seq<Tok>, q: int) -> bool {
    q == t.len() || (0 <= q < t.len() && c_op_of(t[q].token) is None && !is_at(t, q, Token::LParen)
        && !is_at(t, q, Token::Dot) && !is_at(t, q, Token::LBracket) && !is_at(t, q, Token::FatArrow))
}

/// `l op r` as the classic grammar builds it.
pub open spec fn c_bin_of(op: BinaryOp, l: SExpr, r: SExpr) -> SExpr {
    SExpr::Bin(SBinExpr {
        span: Span { start: c_left_span(l).start, end: c_left_span(r).end },
        op,
        left: Box::new(l),
        right: Box::new(r),
    })
}

/// `a op1 b op2 c` with names for operands: the operator that binds tighter takes
/// its neighbours first, and of two that bind alike the left one does.
#[verifier::rlimit(60)]
#[verifier::spinoff_prover]
pub proof fn law_c_precedence_parses(t: Seq<Tok>, s: Seq<char>, p: int, o1: BinaryOp, o2: BinaryOp)
    requires
        0 <= p,
        c_name_at(t, p),
        c_op_of(t[p + 1].token) == Some(o1),
        c_name_at(t, p + 2),
        c_op_of(t[p + 3].token) == Some(o2),
        c_name_at(t, p + 4),
        c_ends_expr(t, p + 5),
    ensures
        c_expr(t, s, p) == Ok::<_, CParseError>((
            if c_precedence(o1) < c_precedence(o2) {
                c_bin_of(o1, c_name_expr(t, p), c_bin_of(o2, c_name_expr(t, p + 2), c_name_expr(t, p + 4)))
            } else {
                c_bin_of(o2, c_bin_of(o1, c_name_expr(t, p), c_name_expr(t, p + 2)), c_name_expr(t, p + 4))
            },
            p + 5,
        )),
{
    let a = c_name_expr(t, p);
    let b = c_name_expr(t, p + 2);
    let c = c_name_expr(t, p + 4);
    let m1 = c_precedence(o1) + 1;
    let m2 = c_precedence(o2) + 1;
    assert(!is_at(t, p + 1, Token::LParen) && !is_at(t, p + 1, Token::Dot) && !is_at(t, p + 1, Token::LBracket)
        && !is_at(t, p + 1, Token::FatArrow));
    assert(!is_at(t, p + 3, Token::LParen) && !is_at(t, p + 3, Token::Dot) && !is_at(t, p + 3, Token::LBracket)
        && !is_at(t, p + 3, Token::FatArrow));
    assert(c_primary(t, s, p + 4) == Ok::<_, CParseError>((c, p + 5)));
    assert(c_binops(t, s, c, p + 5, m2) == Ok::<_, CParseError>((c, p + 5)));
    assert(c_postfix(t, s, c, p + 5, m2) == Ok::<_, CParseError>((c, p + 5)));
    assert(c_bin(t, s, p + 4, m2) == Ok::<_, CParseError>((c, p + 5)));
    assert(c_primary(t, s, p) == Ok::<_, CParseError>((a, p + 1)));
    assert(c_primary(t, s, p + 2) == Ok::<_, CParseError>((b, p + 3)));
    assert(c_postfix(t, s, a, p + 1, 0) == c_binops(t, s, a, p + 1, 0));
    assert(c_bin(t, s, p, 0) == c_postfix(t, s, a, p + 1, 0));
    assert(c_postfix(t, s, b, p + 3, m1) == c_binops(t, s, b, p + 3, m1));
    assert(c_bin(t, s, p + 2, m1) == c_postfix(t, s, b, p + 3, m1));
    if c_precedence(o1) < c_precedence(o2) {
        let bc = c_bin_of(o2, b, c);
        assert(c_binops(t, s, bc, p + 5, m1) == Ok::<_, CParseError>((bc, p + 5)));
        assert(c_binops(t, s, b, p + 3, m1) == Ok::<_, CParseError>((bc, p + 5)));
        let abc = c_bin_of(o1, a, bc);
        assert(c_binops(t, s, abc, p + 5, 0) == Ok::<_, CParseError>((abc, p + 5)));
        assert(c_binops(t, s, a, p + 1, 0) == Ok::<_, CParseError>((abc, p + 5)));
    } else {
        assert(c_binops(t, s, b, p + 3, m1) == Ok::<_, CParseError>((b, p + 3)));
        let ab = c_bin_of(o1, a, b);
        assert(c_binops(t, s, a, p + 1, 0) == c_binops(t, s, ab, p + 3, 0));
        let abc = c_bin_of(o2, ab, c);
        assert(c_binops(t, s, abc, p + 5, 0) == Ok::<_, CParseError>((abc, p + 5)));
        assert(c_binops(t, s, ab, p + 3, 0) == Ok::<_, CParseError>((abc, p + 5)));
    }
}

/// `a < b - c` reads as `a < (b - c)` in the classic grammar too.
pub proof fn law_c_comparison_binds_looser_than_arithmetic(t: Seq<Tok>, s: Seq<char>, p: int)
    requires
        0 <= p,
        c_name_at(t, p),
        t[p + 1].token == Token::Less,
        c_name_at(t, p + 2),
        t[p + 3].token == Token::Minus,
        c_name_at(t, p + 4),
        c_ends_expr(t, p + 5),
    ensures
        c_expr(t, s, p) == Ok::<_, CParseError>((
            c_bin_of(BinaryOp::Lt, c_name_expr(t, p), c_bin_of(BinaryOp::Sub, c_name_expr(t, p + 2), c_name_expr(t, p + 4))),
            p + 5,
        )),
{
    law_c_operators();
    law_c_precedence_parses(t, s, p, BinaryOp::Lt, BinaryOp::Sub);
}

} // verus!

//! The classic `cp` parser: builds the syntax tree of a source file from the
//! tokens of the classic dialect.
use vstd::prelude::*;
use crate::Span;
use crate::text::{string_eq_str, string_of_lit};
use crate::lexer::{Token, Tok, Dialect, tokenize, lexes_to, byte_offset, tokens_ordered, lemma_lexes_to_ordered, token_is, is_unit, clone_token};
use crate::ast::{Module, ModuleItem, Decl, Function, Class, Interface, MethodSig, Stmt, BlockStmt, VarDecl, VarDeclKind, Pattern, ReturnStmt, WhileStmt, Expr, ArrowExpr, ArrowBody, Ident, Lit, BinExpr, BinaryOp, CallExpr, MemberExpr, SliceExpr, SpawnExpr, ZigEscapeExpr, Type, Param, Field};
use crate::ast::{view_module, view_module_item, view_decl, view_function, view_class, view_interface, view_method_sig, view_stmt, view_block_stmt, view_var_decl, view_pattern, view_return_stmt, view_while_stmt, view_expr, view_ident, view_type, view_param, view_field};
use crate::ast::{view_pattern_seq, view_stmt_seq, view_expr_seq, view_param_seq, view_field_seq, view_function_seq, view_method_sig_seq, view_ident_seq, view_module_item_seq};
use crate::ast::{lemma_view_pattern_seq_push, lemma_view_stmt_seq_push, lemma_view_expr_seq_push, lemma_view_param_seq_push, lemma_view_field_seq_push, lemma_view_function_seq_push, lemma_view_method_sig_seq_push, lemma_view_ident_seq_push, lemma_view_module_item_seq_push};
use crate::ast::{SExpr, SIdent, SPattern, SZigEscapeExpr, SArrowExpr, view_arrow_body};
use crate::grammar::{peek, is_at, peek_span, skip_if};
use crate::parser::{zig_scan_tokens, trimmed};
use crate::classic::grammar::{CParseError, CExpected, CR, aborts, c_prepend, lemma_c_prepend_push, c_prepend2, lemma_c_prepend2, c_expect, c_ident, c_type, c_param, c_params, c_return_type, c_pattern, c_pattern_elems, c_left_span, c_op_of, c_precedence, c_zig_bounds, c_zig, c_stmt, c_stmts, c_block, c_while, c_var_decl, c_return, c_expr, c_bin, c_postfix, c_index, c_binops, c_args, c_callee_call, c_primary, c_function, c_field, c_class_members, c_implements, c_class, c_method_sig, c_method_sigs, c_interface, c_decl, c_module_item, c_module_items, c_module, lemma_c_module_items_reach_end};

verus! {

/// A syntax error of the classic front end.
#[derive(Debug)]
pub enum ParseError {
    UnexpectedToken(Token, Span),
    ExpectedToken(Token, Token, Span),
    UnexpectedEof,
}

pub type ParseResult<T> = Result<T, ParseError>;

/// `e` is the error that the grammar's `se` describes.
pub open spec fn err_agrees(e: ParseError, se: CParseError) -> bool {
    match se {
        CParseError::UnexpectedToken(k, sp) => e == ParseError::UnexpectedToken(k, sp),
        CParseError::ExpectedToken(x, k, sp) => match e {
            ParseError::ExpectedToken(ex, k2, sp2) => k2 == k && sp2 == sp && match x {
                CExpected::Tok(kt) => ex == kt,
                CExpected::AnIdent => ex is Ident && ex->Ident_0@ == "Ident"@,
            },
            _ => false,
        },
        CParseError::UnexpectedEof => e is UnexpectedEof,
        CParseError::Aborts => false,
    }
}

/// Why parsing stopped: a syntax error, or the input on which the classic
/// front end panics.
pub enum Stop {
    Error(ParseError),
    Aborts,
}

/// `e` is how the grammar's `se` stops parsing.
pub open spec fn stop_agrees(e: Stop, se: CParseError) -> bool {
    match e {
        Stop::Error(pe) => err_agrees(pe, se),
        Stop::Aborts => se is Aborts,
    }
}

/// The parser's result `r` is what the grammar gives (`s`), seen through `f`.
pub open spec fn agrees<T, V>(r: Result<(T, usize), Stop>, s: CR<V>, f: spec_fn(T) -> V) -> bool {
    match s {
        Ok((v, q)) => r is Ok && f(r->Ok_0.0) == v && r->Ok_0.1 == q,
        Err(e) => r is Err && stop_agrees(r->Err_0, e),
    }
}

/// A parser over the tokens of one source text in the classic dialect.
pub struct Parser {
    src: Vec<char>,
    toks: Vec<Tok>,
    pos: usize,
}

impl Parser {
    /// The tokens being parsed.
    pub closed spec fn tokens(&self) -> Seq<Tok> {
        self.toks@
    }

    /// The source text.
    pub closed spec fn source(&self) -> Seq<char> {
        self.src@
    }

    /// Token position where parsing goes on.
    pub closed spec fn position(&self) -> int {
        self.pos as int
    }

    pub closed spec fn wf(&self) -> bool {
        &&& tokens_ordered(self.toks@, self.src@.len() as int)
        &&& self.pos <= self.toks@.len()
        &&& self.toks@.len() <= usize::MAX
    }

    /// Parsing the module from the current position stops with a panic of the
    /// classic front end: a `__zig__` block runs to the end of input with code
    /// in it.
    pub open spec fn aborts(&self) -> bool {
        aborts(c_module(self.tokens(), self.source(), self.position()))
    }

    /// A parser for `input`.
    pub fn new(input: &str) -> (r: Self)
        requires
            byte_offset(input@, input@.len() as int) <= usize::MAX,
        ensures
            r.wf(),
            r.source() == input@,
            lexes_to(input@, Dialect::Classic, r.tokens()),
            r.position() == 0,
    {
        let toks = tokenize(input, Dialect::Classic);
        proof { lemma_lexes_to_ordered(input@, Dialect::Classic, toks@); }
        let src = crate::lexer::source_chars(input);
        let _n = toks.len();
        Parser { src, toks, pos: 0 }
    }

    // --------------------------------------------------------------
    // Token access
    // --------------------------------------------------------------

    /// The token at `p`, its span and the position after it.
    fn bump(&self, p: usize) -> (r: Result<(Token, Span, usize), Stop>)
        ensures
            p < self.toks@.len() ==> r is Ok && r->Ok_0.0 == self.toks@[p as int].token && r->Ok_0.1 == self.toks@[p as int].span
                && r->Ok_0.2 == p + 1,
            p >= self.toks@.len() ==> r is Err && r->Err_0 == Stop::Error(ParseError::UnexpectedEof),
    {
        if p >= self.toks.len() {
            return Err(Stop::Error(ParseError::UnexpectedEof));
        }
        Ok((clone_token(&self.toks[p].token), self.toks[p].span, p + 1))
    }

    /// The token at `p`, if any.
    fn peek(&self, p: usize) -> (r: Option<&Token>)
        ensures
            match peek(self.toks@, p as int) {
                Some(k) => r is Some && *r->0 == k,
                None => r is None,
            },
    {
        if p < self.toks.len() { Some(&self.toks[p].token) } else { None }
    }

    fn is_at(&self, p: usize, k: &Token) -> (r: bool)
        requires
            is_unit(*k),
        ensures
            r == is_at(self.toks@, p as int, *k),
            self.toks@.len() <= usize::MAX,
    {
        p < self.toks.len() && token_is(&self.toks[p].token, k)
    }

    fn peek_span(&self, p: usize) -> (r: Span)
        ensures
            r == peek_span(self.toks@, p as int),
    {
        if p < self.toks.len() {
            self.toks[p].span
        } else {
            Span { start: 0, end: 0 }
        }
    }

    fn skip_if(&self, p: usize, k: &Token) -> (r: usize)
        requires
            is_unit(*k),
            p <= self.toks@.len(),
        ensures
            r == skip_if(self.toks@, p as int, *k),
            p <= r <= self.toks@.len(),
    {
        if self.is_at(p, k) { p + 1 } else { p }
    }

    fn expect(&self, p: usize, k: Token) -> (r: Result<(Span, usize), Stop>)
        requires
            is_unit(k),
        ensures
            agrees(r, c_expect(self.toks@, p as int, k), |x: Span| x),
            r is Ok ==> p < r->Ok_0.1 <= self.toks@.len(),
    {
        let (token, span, q) = self.bump(p)?;
        if token_is(&token, &k) {
            Ok((span, q))
        } else {
            Err(Stop::Error(ParseError::ExpectedToken(k, token, span)))
        }
    }

    fn parse_ident(&self, p: usize) -> (r: Result<(Ident, usize), Stop>)
        ensures
            agrees(r, c_ident(self.toks@, p as int), |x: Ident| view_ident(x)),
            r is Ok ==> p < r->Ok_0.1 <= self.toks@.len(),
    {
        let (token, span, q) = self.bump(p)?;
        match token {
            Token::Ident(sym) => Ok((Ident { span, sym }, q)),
            _ => Err(Stop::Error(ParseError::ExpectedToken(Token::Ident(string_of_lit("Ident")), token, span))),
        }
    }

    // --------------------------------------------------------------
    // Types and parameters
    // --------------------------------------------------------------

    fn parse_type(&self, p: usize) -> (r: Result<(Type, usize), Stop>)
        requires
            self.wf(),
        ensures
            agrees(r, c_type(self.toks@, p as int), |x: Type| view_type(x)),
            r is Ok ==> p < r->Ok_0.1 <= self.toks@.len(),
        decreases self.toks@.len() - p,
    {
        let (token, span, q) = self.bump(p)?;
        match token {
            Token::I32 => Ok((Type::I32, q)),
            Token::U64 => Ok((Type::U64, q)),
            Token::F32 => Ok((Type::F32, q)),
            Token::USize => Ok((Type::USize, q)),
            Token::String => Ok((Type::String, q)),
            Token::Ident(sym) => if string_eq_str(&sym, "pid") {
                Ok((Type::PID, q))
            } else {
                Ok((Type::Ref(Ident { span, sym }), q))
            },
            Token::LBracket => {
                let (_, q1) = self.expect(q, Token::RBracket)?;
                let (elem, q2) = self.parse_type(q1)?;
                Ok((Type::Array(Box::new(elem)), q2))
            },
            _ => Err(Stop::Error(ParseError::UnexpectedToken(token, span))),
        }
    }

    fn parse_param(&self, p: usize) -> (r: Result<(Param, usize), Stop>)
        requires
            self.wf(),
        ensures
            agrees(r, c_param(self.toks@, p as int), |x: Param| view_param(x)),
            r is Ok ==> p < r->Ok_0.1 <= self.toks@.len(),
    {
        let (ident, q) = self.parse_ident(p)?;
        let (_, q1) = self.expect(q, Token::Colon)?;
        let (ty, q2) = self.parse_type(q1)?;
        Ok((Param { span: ident.span, ident, ty, is_comptime: false }, q2))
    }

    fn parse_params(&self, p0: usize) -> (r: Result<(Vec<Param>, usize), Stop>)
        requires
            self.wf(),
            p0 <= self.toks@.len(),
        ensures
            agrees(r, c_params(self.toks@, p0 as int), |v: Vec<Param>| view_param_seq(v@)),
            r is Ok ==> p0 <= r->Ok_0.1 <= self.toks@.len(),
    {
        let mut v: Vec<Param> = Vec::new();
        let mut p: usize = p0;
        proof { lemma_c_prepend_push(view_param_seq(v@), arbitrary(), c_params(self.toks@, p as int)); }
        loop
            invariant
                self.wf(),
                p0 <= p <= self.toks@.len(),
                c_params(self.toks@, p0 as int) == c_prepend(view_param_seq(v@), c_params(self.toks@, p as int)),
            decreases self.toks@.len() - p,
        {
            if self.is_at(p, &Token::RParen) {
                return Ok((v, p));
            }
            let (x, q) = self.parse_param(p)?;
            let q1 = self.skip_if(q, &Token::Comma);
            proof {
                lemma_view_param_seq_push(v@, x);
                lemma_c_prepend_push(view_param_seq(v@), view_param(x), c_params(self.toks@, q1 as int));
            }
            v.push(x);
            p = q1;
        }
    }

    fn parse_return_type(&self, p: usize) -> (r: Result<(Option<Type>, usize), Stop>)
        requires
            self.wf(),
            p <= self.toks@.len(),
        ensures
            agrees(r, c_return_type(self.toks@, p as int), |x: Option<Type>| match x {
                Some(t) => Some(view_type(t)),
                None => None,
            }),
            r is Ok ==> p <= r->Ok_0.1 <= self.toks@.len(),
    {
        if self.is_at(p, &Token::Colon) {
            let (ty, q) = self.parse_type(p + 1)?;
            Ok((Some(ty), q))
        } else {
            Ok((None, p))
        }
    }

    // --------------------------------------------------------------
    // Patterns
    // --------------------------------------------------------------

    fn parse_pattern(&self, p: usize) -> (r: Result<(Pattern, usize), Stop>)
        requires
            self.wf(),
            p <= self.toks@.len(),
        ensures
            agrees(r, c_pattern(self.toks@, p as int), |x: Pattern| view_pattern(x)),
            r is Ok ==> p < r->Ok_0.1 <= self.toks@.len(),
        decreases self.toks@.len() - p, 1nat,
    {
        if self.is_at(p, &Token::LBracket) {
            let (elems, q) = self.parse_pattern_elems(p + 1)?;
            let (_, q2) = self.expect(q, Token::RBracket)?;
            assert(view_pattern(Pattern::Array(elems)) == SPattern::Array(view_pattern_seq(elems@)));
            return Ok((Pattern::Array(elems), q2));
        }
        let (id, q) = self.parse_ident(p)?;
        Ok((Pattern::Ident(id), q))
    }

    fn parse_pattern_elems(&self, p0: usize) -> (r: Result<(Vec<Pattern>, usize), Stop>)
        requires
            self.wf(),
            p0 <= self.toks@.len(),
        ensures
            agrees(r, c_pattern_elems(self.toks@, p0 as int), |v: Vec<Pattern>| view_pattern_seq(v@)),
            r is Ok ==> p0 <= r->Ok_0.1 <= self.toks@.len(),
        decreases self.toks@.len() - p0, 2nat,
    {
        let mut v: Vec<Pattern> = Vec::new();
        let mut p: usize = p0;
        proof { lemma_c_prepend_push(view_pattern_seq(v@), arbitrary(), c_pattern_elems(self.toks@, p as int)); }
        loop
            invariant
                self.wf(),
                p0 <= p <= self.toks@.len(),
                c_pattern_elems(self.toks@, p0 as int) == c_prepend(view_pattern_seq(v@), c_pattern_elems(self.toks@, p as int)),
            decreases self.toks@.len() - p,
        {
            if self.is_at(p, &Token::RBracket) {
                return Ok((v, p));
            }
            let (x, q) = self.parse_pattern(p)?;
            let q1 = self.skip_if(q, &Token::Comma);
            proof {
                lemma_view_pattern_seq_push(v@, x);
                lemma_c_prepend_push(view_pattern_seq(v@), view_pattern(x), c_pattern_elems(self.toks@, q1 as int));
            }
            v.push(x);
            p = q1;
        }
    }

    // --------------------------------------------------------------
    // Statements
    // --------------------------------------------------------------

    #[verifier::spinoff_prover]
    fn parse_stmt(&self, p: usize) -> (r: Result<(Stmt, usize), Stop>)
        requires
            self.wf(),
            p <= self.toks@.len(),
        ensures
            agrees(r, c_stmt(self.toks@, self.src@, p as int), |x: Stmt| view_stmt(x)),
            r is Ok ==> p < r->Ok_0.1 <= self.toks@.len(),
        decreases self.toks@.len() - p, 4nat,
    {
        if self.is_at(p, &Token::Let) || self.is_at(p, &Token::Const) {
            let (v, q) = self.parse_var_decl(p)?;
            return Ok((Stmt::Var(v), q));
        }
        if self.is_at(p, &Token::Return) {
            let (ret, q) = self.parse_return_stmt(p)?;
            return Ok((Stmt::Return(ret), q));
        }
        if self.is_at(p, &Token::LBrace) {
            let (b, q) = self.parse_block_stmt(p)?;
            return Ok((Stmt::Block(b), q));
        }
        if self.is_at(p, &Token::While) {
            let (w, q) = self.parse_while_stmt(p)?;
            return Ok((Stmt::While(w), q));
        }
        if self.is_at(p, &Token::ZigEscape) {
            return self.parse_zig(p);
        }
        let (x, q) = self.parse_expr(p)?;
        Ok((Stmt::Expr(x), self.skip_if(q, &Token::Semicolon)))
    }

    /// `__zig__ { raw code }` from the `__zig__` at `p`.
    fn parse_zig(&self, p: usize) -> (r: Result<(Stmt, usize), Stop>)
        requires
            self.wf(),
            p <= self.toks@.len(),
        ensures
            agrees(r, c_zig(self.toks@, self.src@, p as int), |x: Stmt| view_stmt(x)),
            r is Ok ==> p < r->Ok_0.1 <= self.toks@.len(),
    {
        let (_, sp, p1) = self.bump(p)?;
        let start = sp.start;
        let (_, q) = self.expect(p1, Token::LBrace)?;
        let cs: usize = if q < self.toks.len() { self.toks[q].char_start } else { 0 };
        let (q2, _) = zig_scan_tokens(&self.toks, self.src.len(), q, cs);
        let ce: usize = if q2 < self.toks.len() { self.toks[q2].char_start } else { 0 };
        proof {
            let (cs_s, ce_s, q2_s) = c_zig_bounds(self.toks@, q as int);
            assert(cs_s == cs && q2_s == q2 && ce_s == ce);
        }
        if cs > ce {
            return Err(Stop::Aborts);
        }
        let end = self.peek_span(q2).end;
        let code = trimmed(&self.src, cs, ce);
        let zig = Expr::Zig(ZigEscapeExpr { span: Span { start, end }, code });
        assert(view_expr(zig) == SExpr::Zig(SZigEscapeExpr { span: Span { start, end }, code: code@ }));
        Ok((Stmt::Expr(zig), q2))
    }

    fn parse_stmts(&self, p0: usize) -> (r: Result<(Vec<Stmt>, usize), Stop>)
        requires
            self.wf(),
            p0 <= self.toks@.len(),
        ensures
            agrees(r, c_stmts(self.toks@, self.src@, p0 as int), |v: Vec<Stmt>| view_stmt_seq(v@)),
            r is Ok ==> p0 <= r->Ok_0.1 <= self.toks@.len(),
        decreases self.toks@.len() - p0, 5nat,
    {
        let mut v: Vec<Stmt> = Vec::new();
        let mut p: usize = p0;
        proof { lemma_c_prepend_push(view_stmt_seq(v@), arbitrary(), c_stmts(self.toks@, self.src@, p as int)); }
        loop
            invariant
                self.wf(),
                p0 <= p <= self.toks@.len(),
                c_stmts(self.toks@, self.src@, p0 as int) == c_prepend(view_stmt_seq(v@), c_stmts(self.toks@, self.src@, p as int)),
            decreases self.toks@.len() - p,
        {
            if p >= self.toks.len() || self.is_at(p, &Token::RBrace) {
                return Ok((v, p));
            }
            let (x, q) = self.parse_stmt(p)?;
            proof {
                lemma_view_stmt_seq_push(v@, x);
                lemma_c_prepend_push(view_stmt_seq(v@), view_stmt(x), c_stmts(self.toks@, self.src@, q as int));
            }
            v.push(x);
            p = q;
        }
    }

    fn parse_block_stmt(&self, p: usize) -> (r: Result<(BlockStmt, usize), Stop>)
        requires
            self.wf(),
            p <= self.toks@.len(),
        ensures
            agrees(r, c_block(self.toks@, self.src@, p as int), |x: BlockStmt| view_block_stmt(x)),
            r is Ok ==> p < r->Ok_0.1 <= self.toks@.len(),
        decreases self.toks@.len() - p, 1nat,
    {
        let (sp, q) = self.expect(p, Token::LBrace)?;
        let (body, q2) = self.parse_stmts(q)?;
        let (esp, q3) = self.expect(q2, Token::RBrace)?;
        Ok((BlockStmt { span: Span { start: sp.start, end: esp.end }, body }, q3))
    }

    fn parse_while_stmt(&self, p: usize) -> (r: Result<(WhileStmt, usize), Stop>)
        requires
            self.wf(),
            p <= self.toks@.len(),
        ensures
            agrees(r, c_while(self.toks@, self.src@, p as int), |x: WhileStmt| view_while_stmt(x)),
            r is Ok ==> p < r->Ok_0.1 <= self.toks@.len(),
        decreases self.toks@.len() - p, 1nat,
    {
        let (sp, q) = self.expect(p, Token::While)?;
        let (_, q1) = self.expect(q, Token::LParen)?;
        let (test, q2) = self.parse_expr(q1)?;
        let (_, q3) = self.expect(q2, Token::RParen)?;
        let (body, q4) = self.parse_stmt(q3)?;
        let end = self.peek_span(q4).end;
        Ok((WhileStmt { span: Span { start: sp.start, end }, test, body: Box::new(body) }, q4))
    }

    fn parse_var_decl(&self, p: usize) -> (r: Result<(VarDecl, usize), Stop>)
        requires
            self.wf(),
            p <= self.toks@.len(),
        ensures
            agrees(r, c_var_decl(self.toks@, self.src@, p as int), |x: VarDecl| view_var_decl(x)),
            r is Ok ==> p < r->Ok_0.1 <= self.toks@.len(),
        decreases self.toks@.len() - p, 1nat,
    {
        let (token, span, p1) = self.bump(p)?;
        let kind = if token_is(&token, &Token::Let) { VarDeclKind::Let } else { VarDeclKind::Const };
        let start = span.start;
        let (pat, q) = self.parse_pattern(p1)?;
        let (ty, q1) = self.parse_return_type(q)?;
        let mut init: Option<Expr> = None;
        let mut q2 = q1;
        if self.is_at(q1, &Token::Assign) {
            let (x, qx) = self.parse_expr(q1 + 1)?;
            init = Some(x);
            q2 = qx;
        }
        let (_, q3) = self.expect(q2, Token::Semicolon)?;
        let end = self.peek_span(q3).end;
        Ok((VarDecl { span: Span { start, end }, kind, pat, ty, init }, q3))
    }

    fn parse_return_stmt(&self, p: usize) -> (r: Result<(ReturnStmt, usize), Stop>)
        requires
            self.wf(),
            p <= self.toks@.len(),
        ensures
            agrees(r, c_return(self.toks@, self.src@, p as int), |x: ReturnStmt| view_return_stmt(x)),
            r is Ok ==> p < r->Ok_0.1 <= self.toks@.len(),
        decreases self.toks@.len() - p, 1nat,
    {
        let (sp, q) = self.expect(p, Token::Return)?;
        let mut arg: Option<Expr> = None;
        let mut q1 = q;
        if !self.is_at(q, &Token::Semicolon) {
            let (x, qx) = self.parse_expr(q)?;
            arg = Some(x);
            q1 = qx;
        }
        let (esp, q2) = self.expect(q1, Token::Semicolon)?;
        Ok((ReturnStmt { span: Span { start: sp.start, end: esp.end }, arg }, q2))
    }

    // --------------------------------------------------------------
    // Expressions
    // --------------------------------------------------------------

    fn parse_expr(&self, p: usize) -> (r: Result<(Expr, usize), Stop>)
        requires
            self.wf(),
            p <= self.toks@.len(),
        ensures
            agrees(r, c_expr(self.toks@, self.src@, p as int), |x: Expr| view_expr(x)),
            r is Ok ==> p < r->Ok_0.1 <= self.toks@.len(),
        decreases self.toks@.len() - p, 3nat,
    {
        self.parse_bin_expr(p, 0)
    }

    fn parse_bin_expr(&self, p: usize, min_prec: u8) -> (r: Result<(Expr, usize), Stop>)
        requires
            self.wf(),
            p <= self.toks@.len(),
            min_prec <= 5,
        ensures
            agrees(r, c_bin(self.toks@, self.src@, p as int, min_prec as nat), |x: Expr| view_expr(x)),
            r is Ok ==> p < r->Ok_0.1 <= self.toks@.len(),
        decreases self.toks@.len() - p, 2nat,
    {
        let (left, q) = self.parse_primary_expr(p)?;
        self.parse_postfix(left, q, min_prec)
    }

    /// Calls, member accesses and indexing after `left`, then the binary operators.
    fn parse_postfix(&self, left: Expr, p: usize, min_prec: u8) -> (r: Result<(Expr, usize), Stop>)
        requires
            self.wf(),
            p <= self.toks@.len(),
            min_prec <= 5,
        ensures
            agrees(r, c_postfix(self.toks@, self.src@, view_expr(left), p as int, min_prec as nat), |x: Expr| view_expr(x)),
            r is Ok ==> p <= r->Ok_0.1 <= self.toks@.len(),
        decreases self.toks@.len() - p, 2nat,
    {
        if self.is_at(p, &Token::LParen) {
            let (args, q) = self.parse_args(p + 1, Token::RParen)?;
            let (esp, q2) = self.expect(q, Token::RParen)?;
            let start = left_span(&left).start;
            let call = Expr::Call(CallExpr { span: Span { start, end: esp.end }, callee: Box::new(left), args, is_comptime: false });
            return self.parse_postfix(call, q2, min_prec);
        }
        if self.is_at(p, &Token::Dot) {
            let (prop, q) = self.parse_ident(p + 1)?;
            let start = left_span(&left).start;
            let end = prop.span.end;
            let member = Expr::Member(MemberExpr { span: Span { start, end }, obj: Box::new(left), prop });
            return self.parse_postfix(member, q, min_prec);
        }
        if self.is_at(p, &Token::LBracket) {
            let (x, q) = self.parse_index(left, p)?;
            return self.parse_postfix(x, q, min_prec);
        }
        self.parse_binops(left, p, min_prec)
    }

    /// `left[i]`, `left[a..b]`, `left[..b]` or `left[a..]`, from the `[` at `p`.
    fn parse_index(&self, left: Expr, p: usize) -> (r: Result<(Expr, usize), Stop>)
        requires
            self.wf(),
            p <= self.toks@.len(),
        ensures
            agrees(r, c_index(self.toks@, self.src@, view_expr(left), p as int), |x: Expr| view_expr(x)),
            r is Ok ==> p < r->Ok_0.1 <= self.toks@.len(),
        decreases self.toks@.len() - p, 1nat,
    {
        let (_, start_span, p1) = self.bump(p)?;
        let mut is_slice = false;
        let mut start_idx: Option<Box<Expr>> = None;
        let mut end_idx: Option<Box<Expr>> = None;
        let mut q: usize = p1;
        if self.is_at(p1, &Token::DotDot) {
            is_slice = true;
            if self.is_at(p1 + 1, &Token::RBracket) {
                q = p1 + 1;
            } else {
                let (x, qx) = self.parse_expr(p1 + 1)?;
                end_idx = Some(Box::new(x));
                q = qx;
            }
        } else {
            let (idx, qi) = self.parse_expr(p1)?;
            if self.is_at(qi, &Token::DotDot) {
                is_slice = true;
                start_idx = Some(Box::new(idx));
                if self.is_at(qi + 1, &Token::RBracket) {
                    q = qi + 1;
                } else {
                    let (x, qx) = self.parse_expr(qi + 1)?;
                    end_idx = Some(Box::new(x));
                    q = qx;
                }
            } else {
                start_idx = Some(Box::new(idx));
                q = qi;
            }
        }
        let (esp, q2) = self.expect(q, Token::RBracket)?;
        let span = Span { start: left_span(&left).start, end: esp.end };
        if is_slice {
            Ok((Expr::Slice(SliceExpr { span, obj: Box::new(left), start: start_idx, end: end_idx }), q2))
        } else {
            let prop = Ident { span: start_span, sym: string_of_lit("at") };
            Ok((Expr::Member(MemberExpr { span, obj: Box::new(left), prop }), q2))
        }
    }

    /// The binary operator at `p`, if any.
    fn peek_op(&self, p: usize) -> (r: Option<BinaryOp>)
        ensures
            r == (match peek(self.toks@, p as int) {
                Some(k) => c_op_of(k),
                None => None,
            }),
    {
        match self.peek(p) {
            Some(Token::Plus) => Some(BinaryOp::Add),
            Some(Token::Minus) => Some(BinaryOp::Sub),
            Some(Token::Star) => Some(BinaryOp::Mul),
            Some(Token::Slash) => Some(BinaryOp::Div),
            Some(Token::Assign) => Some(BinaryOp::Eq),
            Some(Token::Less) => Some(BinaryOp::Lt),
            _ => None,
        }
    }

    fn op_precedence(&self, op: &BinaryOp) -> (r: u8)
        ensures
            r == c_precedence(*op),
            r <= 4,
    {
        match op {
            BinaryOp::Eq => 1,
            BinaryOp::Lt => 2,
            BinaryOp::Add | BinaryOp::Sub => 3,
            BinaryOp::Mul | BinaryOp::Div => 4,
            _ => 0,
        }
    }

    /// The binary operators after `left` that bind at least as tight as `min_prec`.
    fn parse_binops(&self, left: Expr, p: usize, min_prec: u8) -> (r: Result<(Expr, usize), Stop>)
        requires
            self.wf(),
            p <= self.toks@.len(),
            min_prec <= 5,
        ensures
            agrees(r, c_binops(self.toks@, self.src@, view_expr(left), p as int, min_prec as nat), |x: Expr| view_expr(x)),
            r is Ok ==> p <= r->Ok_0.1 <= self.toks@.len(),
        decreases self.toks@.len() - p, 1nat,
    {
        let op = match self.peek_op(p) {
            Some(op) => op,
            None => return Ok((left, p)),
        };
        let prec = self.op_precedence(&op);
        if prec < min_prec {
            return Ok((left, p));
        }
        let (right, q) = self.parse_bin_expr(p + 1, prec + 1)?;
        let span = Span { start: left_span(&left).start, end: right_span(&right).end };
        let bin = Expr::Bin(BinExpr { span, op, left: Box::new(left), right: Box::new(right) });
        self.parse_binops(bin, q, min_prec)
    }

    /// Expressions up to `close`, each optionally followed by `,`.
    fn parse_args(&self, p0: usize, close: Token) -> (r: Result<(Vec<Expr>, usize), Stop>)
        requires
            self.wf(),
            p0 <= self.toks@.len(),
            is_unit(close),
        ensures
            agrees(r, c_args(self.toks@, self.src@, p0 as int, close), |v: Vec<Expr>| view_expr_seq(v@)),
            r is Ok ==> p0 <= r->Ok_0.1 <= self.toks@.len(),
        decreases self.toks@.len() - p0, 4nat,
    {
        let mut v: Vec<Expr> = Vec::new();
        let mut p: usize = p0;
        proof { lemma_c_prepend_push(view_expr_seq(v@), arbitrary(), c_args(self.toks@, self.src@, p as int, close)); }
        loop
            invariant
                self.wf(),
                p0 <= p <= self.toks@.len(),
                is_unit(close),
                c_args(self.toks@, self.src@, p0 as int, close) == c_prepend(view_expr_seq(v@), c_args(self.toks@, self.src@, p as int, close)),
            decreases self.toks@.len() - p,
        {
            if self.is_at(p, &close) {
                return Ok((v, p));
            }
            let (x, q) = self.parse_expr(p)?;
            let q1 = self.skip_if(q, &Token::Comma);
            proof {
                lemma_view_expr_seq_push(v@, x);
                lemma_c_prepend_push(view_expr_seq(v@), view_expr(x), c_args(self.toks@, self.src@, q1 as int, close));
            }
            v.push(x);
            p = q1;
        }
    }

    /// `name(args)` after the `new` or `spawn` at `p`.
    fn parse_callee_call(&self, p: usize) -> (r: Result<(Option<(Ident, Vec<Expr>, Span)>, usize), Stop>)
        requires
            self.wf(),
            p <= self.toks@.len(),
        ensures
            agrees(r, c_callee_call(self.toks@, self.src@, p as int), |x: Option<(Ident, Vec<Expr>, Span)>| match x {
                Some((id, args, sp)) => Some((view_ident(id), view_expr_seq(args@), sp)),
                None => None,
            }),
            r is Ok ==> p < r->Ok_0.1 <= self.toks@.len(),
        decreases self.toks@.len() - p, 0nat,
    {
        if p >= self.toks.len() {
            return Err(Stop::Error(ParseError::UnexpectedEof));
        }
        let (callee, q) = self.parse_primary_expr(p + 1)?;
        match callee {
            Expr::Ident(id) => {
                let (_, q1) = self.expect(q, Token::LParen)?;
                let (args, q2) = self.parse_args(q1, Token::RParen)?;
                let (esp, q3) = self.expect(q2, Token::RParen)?;
                Ok((Some((id, args, esp)), q3))
            },
            _ => Ok((None, q)),
        }
    }

    #[verifier::spinoff_prover]
    fn parse_primary_expr(&self, p: usize) -> (r: Result<(Expr, usize), Stop>)
        requires
            self.wf(),
            p <= self.toks@.len(),
        ensures
            agrees(r, c_primary(self.toks@, self.src@, p as int), |x: Expr| view_expr(x)),
            r is Ok ==> p < r->Ok_0.1 <= self.toks@.len(),
        decreases self.toks@.len() - p, 1nat,
    {
        let (token, span, p1) = self.bump(p)?;
        match token {
            Token::Ident(_) => self.parse_name_expr(p),
            Token::LParen => self.parse_paren_expr(p),
            Token::IntLiteral(v) => Ok((Expr::Lit(Lit::Int(v)), p1)),
            Token::StringLiteral(v) => Ok((Expr::Lit(Lit::Str(v)), p1)),
            Token::New => {
                let (c, q) = self.parse_callee_call(p)?;
                match c {
                    Some((id, args, esp)) => {
                        let callee = Expr::Ident(id);
                        assert(view_expr(callee) == SExpr::Ident(view_ident(id)));
                        Ok((Expr::New(CallExpr {
                            span: Span { start: span.start, end: esp.end },
                            callee: Box::new(callee),
                            args,
                            is_comptime: false,
                        }), q))
                    },
                    None => Err(Stop::Error(ParseError::UnexpectedToken(Token::New, span))),
                }
            },
            Token::Spawn => {
                let (c, q) = self.parse_callee_call(p)?;
                match c {
                    Some((id, args, esp)) => {
                        let callee = Expr::Ident(id);
                        assert(view_expr(callee) == SExpr::Ident(view_ident(id)));
                        Ok((Expr::Spawn(Box::new(SpawnExpr {
                            span: Span { start: span.start, end: esp.end },
                            callee: Box::new(callee),
                            args,
                        })), q))
                    },
                    None => Err(Stop::Error(ParseError::UnexpectedToken(Token::Spawn, span))),
                }
            },
            Token::Receive => self.parse_receive_expr(p),
            Token::LBracket => self.parse_array_expr(p),
            _ => Err(Stop::Error(ParseError::UnexpectedToken(token, span))),
        }
    }

    /// A name, or `name => body`, from the identifier at `p`.
    fn parse_name_expr(&self, p: usize) -> (r: Result<(Expr, usize), Stop>)
        requires
            self.wf(),
            p < self.toks@.len(),
            self.toks@[p as int].token is Ident,
        ensures
            agrees(r, c_primary(self.toks@, self.src@, p as int), |x: Expr| view_expr(x)),
            r is Ok ==> p < r->Ok_0.1 <= self.toks@.len(),
        decreases self.toks@.len() - p, 0nat,
    {
        let (token, span, p1) = self.bump(p)?;
        let sym = match token {
            Token::Ident(x) => x,
            _ => return Err(Stop::Error(ParseError::UnexpectedEof)),
        };
        if !self.is_at(p1, &Token::FatArrow) {
            return Ok((Expr::Ident(Ident { span, sym }), p1));
        }
        let mut q: usize = p1 + 1;
        let body = if self.is_at(p1 + 1, &Token::LBrace) {
            let (b, qb) = self.parse_block_stmt(p1 + 1)?;
            q = qb;
            ArrowBody::Block(b)
        } else {
            let (x, qx) = self.parse_expr(p1 + 1)?;
            q = qx;
            ArrowBody::Expr(x)
        };
        let end = self.peek_span(q).end;
        let param = Pattern::Ident(Ident { span, sym });
        let ghost vp = view_pattern(param);
        let mut params: Vec<Pattern> = Vec::new();
        proof {
            lemma_view_pattern_seq_push(params@, param);
            assert(view_pattern_seq(params@) =~= Seq::<SPattern>::empty());
        }
        params.push(param);
        assert(view_pattern_seq(params@) =~= seq![vp]);
        let ghost vb = view_arrow_body(body);
        let arrow = Expr::Arrow(Box::new(ArrowExpr { span: Span { start: span.start, end }, params, body: Box::new(body) }));
        assert(view_expr(arrow) == SExpr::Arrow(Box::new(SArrowExpr { span: Span { start: span.start, end }, params: seq![vp], body: Box::new(vb) })));
        Ok((arrow, q))
    }

    /// `( expr )` from the `(` at `p`.
    fn parse_paren_expr(&self, p: usize) -> (r: Result<(Expr, usize), Stop>)
        requires
            self.wf(),
            p < self.toks@.len(),
            is_at(self.toks@, p as int, Token::LParen),
        ensures
            agrees(r, c_primary(self.toks@, self.src@, p as int), |x: Expr| view_expr(x)),
            r is Ok ==> p < r->Ok_0.1 <= self.toks@.len(),
        decreases self.toks@.len() - p, 0nat,
    {
        let (x, q) = self.parse_expr(p + 1)?;
        let (_, q1) = self.expect(q, Token::RParen)?;
        Ok((x, q1))
    }

    /// `receive<T>()` or `receive()` from the `receive` at `p`.
    fn parse_receive_expr(&self, p: usize) -> (r: Result<(Expr, usize), Stop>)
        requires
            self.wf(),
            p < self.toks@.len(),
            is_at(self.toks@, p as int, Token::Receive),
        ensures
            agrees(r, c_primary(self.toks@, self.src@, p as int), |x: Expr| view_expr(x)),
            r is Ok ==> p < r->Ok_0.1 <= self.toks@.len(),
        decreases self.toks@.len() - p, 0nat,
    {
        let p1 = p + 1;
        let mut ty: Option<Box<Type>> = None;
        let mut q: usize = p1;
        if self.is_at(p1, &Token::Less) {
            let (t, qt) = self.parse_type(p1 + 1)?;
            let (_, qg) = self.expect(qt, Token::Greater)?;
            ty = Some(Box::new(t));
            q = qg;
        }
        let (_, q1) = self.expect(q, Token::LParen)?;
        let (_, q2) = self.expect(q1, Token::RParen)?;
        Ok((Expr::Receive(ty), q2))
    }

    /// `[elems]` from the `[` at `p`.
    fn parse_array_expr(&self, p: usize) -> (r: Result<(Expr, usize), Stop>)
        requires
            self.wf(),
            p < self.toks@.len(),
            is_at(self.toks@, p as int, Token::LBracket),
        ensures
            agrees(r, c_primary(self.toks@, self.src@, p as int), |x: Expr| view_expr(x)),
            r is Ok ==> p < r->Ok_0.1 <= self.toks@.len(),
        decreases self.toks@.len() - p, 0nat,
    {
        let (elems, q) = self.parse_args(p + 1, Token::RBracket)?;
        let (_, q1) = self.expect(q, Token::RBracket)?;
        Ok((Expr::Array(elems), q1))
    }

    // --------------------------------------------------------------
    // Declarations
    // --------------------------------------------------------------

    fn parse_function(&self, p: usize) -> (r: Result<(Function, usize), Stop>)
        requires
            self.wf(),
            p <= self.toks@.len(),
        ensures
            agrees(r, c_function(self.toks@, self.src@, p as int), |x: Function| view_function(x)),
            r is Ok ==> p < r->Ok_0.1 <= self.toks@.len(),
    {
        let (sp, q) = self.expect(p, Token::Fn)?;
        let (ident, q1) = self.parse_ident(q)?;
        let (_, q2) = self.expect(q1, Token::LParen)?;
        let (params, q3) = self.parse_params(q2)?;
        let (_, q4) = self.expect(q3, Token::RParen)?;
        let (return_type, q5) = self.parse_return_type(q4)?;
        let (body, q6) = self.parse_block_stmt(q5)?;
        let end = body.span.end;
        Ok((Function { span: Span { start: sp.start, end }, ident, params, return_type, body, is_async: false }, q6))
    }

    fn parse_field(&self, p: usize) -> (r: Result<(Field, usize), Stop>)
        requires
            self.wf(),
        ensures
            agrees(r, c_field(self.toks@, p as int), |x: Field| view_field(x)),
            r is Ok ==> p < r->Ok_0.1 <= self.toks@.len(),
    {
        let (ident, q) = self.parse_ident(p)?;
        let (_, q1) = self.expect(q, Token::Colon)?;
        let (ty, q2) = self.parse_type(q1)?;
        let (_, q3) = self.expect(q2, Token::Semicolon)?;
        Ok((Field { span: ident.span, ident, ty }, q3))
    }

    fn parse_class_members(&self, p0: usize) -> (r: Result<((Vec<Field>, Vec<Function>), usize), Stop>)
        requires
            self.wf(),
            p0 <= self.toks@.len(),
        ensures
            agrees(r, c_class_members(self.toks@, self.src@, p0 as int), |x: (Vec<Field>, Vec<Function>)|
                (view_field_seq(x.0@), view_function_seq(x.1@))),
            r is Ok ==> p0 <= r->Ok_0.1 <= self.toks@.len(),
    {
        let mut fields: Vec<Field> = Vec::new();
        let mut methods: Vec<Function> = Vec::new();
        let mut p: usize = p0;
        proof {
            lemma_c_prepend2(view_field_seq(fields@), view_function_seq(methods@), None, None, c_class_members(self.toks@, self.src@, p as int));
        }
        loop
            invariant
                self.wf(),
                p0 <= p <= self.toks@.len(),
                c_class_members(self.toks@, self.src@, p0 as int) == c_prepend2(
                    view_field_seq(fields@),
                    view_function_seq(methods@),
                    c_class_members(self.toks@, self.src@, p as int),
                ),
            decreases self.toks@.len() - p,
        {
            if p >= self.toks.len() || self.is_at(p, &Token::RBrace) {
                return Ok(((fields, methods), p));
            }
            if self.is_at(p, &Token::Fn) {
                let (f, q) = self.parse_function(p)?;
                proof {
                    lemma_view_function_seq_push(methods@, f);
                    lemma_c_prepend2(view_field_seq(fields@), view_function_seq(methods@), None, Some(view_function(f)),
                        c_class_members(self.toks@, self.src@, q as int));
                }
                methods.push(f);
                p = q;
            } else {
                let (field, q) = self.parse_field(p)?;
                proof {
                    lemma_view_field_seq_push(fields@, field);
                    lemma_c_prepend2(view_field_seq(fields@), view_function_seq(methods@), Some(view_field(field)), None,
                        c_class_members(self.toks@, self.src@, q as int));
                }
                fields.push(field);
                p = q;
            }
        }
    }

    /// The names after `implements`, from `p0`.
    fn parse_implements(&self, p0: usize) -> (r: Result<(Vec<Ident>, usize), Stop>)
        requires
            self.wf(),
            p0 <= self.toks@.len(),
        ensures
            agrees(r, c_implements(self.toks@, p0 as int), |v: Vec<Ident>| view_ident_seq(v@)),
            r is Ok ==> p0 < r->Ok_0.1 <= self.toks@.len(),
    {
        let mut v: Vec<Ident> = Vec::new();
        let mut p: usize = p0;
        proof { lemma_c_prepend_push(view_ident_seq(v@), arbitrary(), c_implements(self.toks@, p as int)); }
        loop
            invariant
                self.wf(),
                p0 <= p <= self.toks@.len(),
                v@.len() > 0 ==> p0 < p,
                c_implements(self.toks@, p0 as int) == c_prepend(view_ident_seq(v@), c_implements(self.toks@, p as int)),
            decreases self.toks@.len() - p,
        {
            let (x, q) = self.parse_ident(p)?;
            proof {
                lemma_view_ident_seq_push(v@, x);
            }
            if self.is_at(q, &Token::Comma) {
                proof {
                    lemma_c_prepend_push(view_ident_seq(v@), view_ident(x), c_implements(self.toks@, q + 1));
                }
                v.push(x);
                p = q + 1;
            } else {
                proof {
                    assert(view_ident_seq(v@) + seq![view_ident(x)] =~= view_ident_seq(v@.push(x)));
                }
                v.push(x);
                return Ok((v, q));
            }
        }
    }

    fn parse_class(&self, p: usize) -> (r: Result<(Class, usize), Stop>)
        requires
            self.wf(),
            p <= self.toks@.len(),
        ensures
            agrees(r, c_class(self.toks@, self.src@, p as int), |x: Class| view_class(x)),
            r is Ok ==> p < r->Ok_0.1 <= self.toks@.len(),
    {
        let (sp, q) = self.expect(p, Token::Class)?;
        let (ident, q1) = self.parse_ident(q)?;
        let mut implements: Vec<Ident> = Vec::new();
        let mut q2 = q1;
        proof {
            assert(view_ident_seq(implements@) =~= Seq::<SIdent>::empty());
        }
        if self.is_at(q1, &Token::Implements) {
            let (v, qi) = self.parse_implements(q1 + 1)?;
            implements = v;
            q2 = qi;
        }
        let (_, q3) = self.expect(q2, Token::LBrace)?;
        let ((fields, methods), q4) = self.parse_class_members(q3)?;
        let (esp, q5) = self.expect(q4, Token::RBrace)?;
        Ok((Class { span: Span { start: sp.start, end: esp.end }, ident, implements, fields, methods }, q5))
    }

    fn parse_method_sig(&self, p: usize) -> (r: Result<(MethodSig, usize), Stop>)
        requires
            self.wf(),
            p <= self.toks@.len(),
        ensures
            agrees(r, c_method_sig(self.toks@, p as int), |x: MethodSig| view_method_sig(x)),
            r is Ok ==> p < r->Ok_0.1 <= self.toks@.len(),
    {
        let (_, q) = self.expect(p, Token::Fn)?;
        let (ident, q1) = self.parse_ident(q)?;
        let (_, q2) = self.expect(q1, Token::LParen)?;
        let (params, q3) = self.parse_params(q2)?;
        let (_, q4) = self.expect(q3, Token::RParen)?;
        let (return_type, q5) = self.parse_return_type(q4)?;
        let (_, q6) = self.expect(q5, Token::Semicolon)?;
        Ok((MethodSig { span: ident.span, ident, params, return_type }, q6))
    }

    fn parse_method_sigs(&self, p0: usize) -> (r: Result<(Vec<MethodSig>, usize), Stop>)
        requires
            self.wf(),
            p0 <= self.toks@.len(),
        ensures
            agrees(r, c_method_sigs(self.toks@, p0 as int), |v: Vec<MethodSig>| view_method_sig_seq(v@)),
            r is Ok ==> p0 <= r->Ok_0.1 <= self.toks@.len(),
    {
        let mut v: Vec<MethodSig> = Vec::new();
        let mut p: usize = p0;
        proof { lemma_c_prepend_push(view_method_sig_seq(v@), arbitrary(), c_method_sigs(self.toks@, p as int)); }
        loop
            invariant
                self.wf(),
                p0 <= p <= self.toks@.len(),
                c_method_sigs(self.toks@, p0 as int) == c_prepend(view_method_sig_seq(v@), c_method_sigs(self.toks@, p as int)),
            decreases self.toks@.len() - p,
        {
            if p >= self.toks.len() || self.is_at(p, &Token::RBrace) {
                return Ok((v, p));
            }
            let (x, q) = self.parse_method_sig(p)?;
            proof {
                lemma_view_method_sig_seq_push(v@, x);
                lemma_c_prepend_push(view_method_sig_seq(v@), view_method_sig(x), c_method_sigs(self.toks@, q as int));
            }
            v.push(x);
            p = q;
        }
    }

    fn parse_interface(&self, p: usize) -> (r: Result<(Interface, usize), Stop>)
        requires
            self.wf(),
            p <= self.toks@.len(),
        ensures
            agrees(r, c_interface(self.toks@, p as int), |x: Interface| view_interface(x)),
            r is Ok ==> p < r->Ok_0.1 <= self.toks@.len(),
    {
        let (sp, q) = self.expect(p, Token::Interface)?;
        let (ident, q1) = self.parse_ident(q)?;
        let (_, q2) = self.expect(q1, Token::LBrace)?;
        let (methods, p2) = self.parse_method_sigs(q2)?;
        let (esp, q4) = self.expect(p2, Token::RBrace)?;
        Ok((Interface { span: Span { start: sp.start, end: esp.end }, ident, methods }, q4))
    }

    /// The function, class or interface declaration at `p`.
    fn parse_decl(&self, p: usize) -> (r: Result<(Decl, usize), Stop>)
        requires
            self.wf(),
            p <= self.toks@.len(),
        ensures
            agrees(r, c_decl(self.toks@, self.src@, p as int), |x: Decl| view_decl(x)),
            r is Ok ==> p < r->Ok_0.1 <= self.toks@.len(),
    {
        if self.is_at(p, &Token::Fn) {
            let (f, q) = self.parse_function(p)?;
            return Ok((Decl::Func(f), q));
        }
        if self.is_at(p, &Token::Class) {
            let (c, q) = self.parse_class(p)?;
            return Ok((Decl::Class(c), q));
        }
        if self.is_at(p, &Token::Interface) {
            let (i, q) = self.parse_interface(p)?;
            return Ok((Decl::Interface(i), q));
        }
        let (token, span, _) = self.bump(p)?;
        Err(Stop::Error(ParseError::UnexpectedToken(token, span)))
    }

    fn parse_module_item(&self, p: usize) -> (r: Result<(ModuleItem, usize), Stop>)
        requires
            self.wf(),
            p <= self.toks@.len(),
        ensures
            agrees(r, c_module_item(self.toks@, self.src@, p as int), |x: ModuleItem| view_module_item(x)),
            r is Ok ==> p < r->Ok_0.1 <= self.toks@.len(),
    {
        if self.is_at(p, &Token::Fn) || self.is_at(p, &Token::Class) || self.is_at(p, &Token::Interface) {
            let (d, q) = self.parse_decl(p)?;
            Ok((ModuleItem::Decl(d), q))
        } else {
            let (x, q) = self.parse_stmt(p)?;
            Ok((ModuleItem::Stmt(x), q))
        }
    }

    fn parse_module_items(&self, p0: usize) -> (r: Result<(Vec<ModuleItem>, usize), Stop>)
        requires
            self.wf(),
            p0 <= self.toks@.len(),
        ensures
            agrees(r, c_module_items(self.toks@, self.src@, p0 as int), |v: Vec<ModuleItem>| view_module_item_seq(v@)),
            r is Ok ==> p0 <= r->Ok_0.1 <= self.toks@.len(),
    {
        let mut v: Vec<ModuleItem> = Vec::new();
        let mut p: usize = p0;
        proof { lemma_c_prepend_push(view_module_item_seq(v@), arbitrary(), c_module_items(self.toks@, self.src@, p as int)); }
        loop
            invariant
                self.wf(),
                p0 <= p <= self.toks@.len(),
                c_module_items(self.toks@, self.src@, p0 as int) == c_prepend(view_module_item_seq(v@), c_module_items(self.toks@, self.src@, p as int)),
            decreases self.toks@.len() - p,
        {
            if p >= self.toks.len() {
                return Ok((v, p));
            }
            let (x, q) = self.parse_module_item(p)?;
            proof {
                lemma_view_module_item_seq_push(v@, x);
                lemma_c_prepend_push(view_module_item_seq(v@), view_module_item(x), c_module_items(self.toks@, self.src@, q as int));
            }
            v.push(x);
            p = q;
        }
    }

    /// The module that the tokens from the current position on form; parsing
    /// goes on to the end of input.
    pub fn parse_module(&mut self) -> (r: ParseResult<Module>)
        requires
            old(self).wf(),
            !old(self).aborts(),
        ensures
            final(self).wf(),
            final(self).tokens() == old(self).tokens(),
            final(self).source() == old(self).source(),
            match c_module(old(self).tokens(), old(self).source(), old(self).position()) {
                Ok((m, _)) => r is Ok && view_module(r->Ok_0) == m,
                Err(e) => r is Err && err_agrees(r->Err_0, e),
            },
            r is Ok ==> final(self).position() == final(self).tokens().len(),
    {
        proof {
            lemma_c_module_items_reach_end(self.toks@, self.src@, self.pos as int);
        }
        let start = self.peek_span(self.pos).start;
        let (body, q) = match self.parse_module_items(self.pos) {
            Ok(x) => x,
            Err(Stop::Error(e)) => return Err(e),
            Err(Stop::Aborts) => return Err(ParseError::UnexpectedEof),
        };
        let end = self.peek_span(q).end;
        self.pos = q;
        Ok(Module { span: Span { start, end }, body })
    }

    /// Whether parsing the module from the current position would stop with
    /// the panic of the classic front end (see [`Parser::aborts`]).
    pub fn aborts_exec(&self) -> (r: bool)
        requires
            self.wf(),
        ensures
            r == self.aborts(),
    {
        match self.parse_module_items(self.pos) {
            Err(Stop::Aborts) => true,
            _ => false,
        }
    }
}

/// The span an expression reports as its start.
fn left_span(e: &Expr) -> (r: Span)
    ensures
        r == c_left_span(view_expr(*e)),
{
    match e {
        Expr::Ident(i) => i.span,
        Expr::Bin(b) => b.span,
        Expr::Call(c) => c.span,
        Expr::Member(m) => m.span,
        Expr::Slice(s) => s.span,
        _ => Span { start: 0, end: 0 },
    }
}

/// The span an expression reports as its end: the same as its start span.
fn right_span(e: &Expr) -> (r: Span)
    ensures
        r == c_left_span(view_expr(*e)),
{
    left_span(e)
}

} // verus!

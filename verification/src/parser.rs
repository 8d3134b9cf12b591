//! The `cpc` parser: builds the syntax tree of a source file from its tokens.
use vstd::prelude::*;
use crate::Span;
use crate::text::{push_char, push_str, string_eq_str, starts_with_char, string_of_lit};
use crate::lexer::{Token, Tok, Dialect, tokenize, lexes_to, byte_offset, tokens_ordered, lemma_lexes_to_ordered, token_is, is_unit, clone_token};
use crate::ast::{Module, ModuleItem, ImportStmt, Decl, ErrorSetDecl, Function, Class, TraitDecl, ImplDecl, EnumDecl, EnumVariant, Stmt, BlockStmt, VarDecl, VarDeclKind, Pattern, ObjectPatProp, EnumPattern, ReturnStmt, IfStmt, WhileStmt, Expr, ArrowExpr, ArrowBody, Ident, Lit, BinExpr, BinaryOp, CallExpr, MemberExpr, SliceExpr, MatchExpr, MatchArm, SpawnExpr, ZigEscapeExpr, ObjectField, EnumInitExpr, EnumInitField, BuiltinCall, Type, Param, Field, MethodSig};
use crate::ast::{view_module, view_module_item, view_import_stmt, view_decl, view_error_set_decl, view_function, view_class, view_trait_decl, view_impl_decl, view_enum_decl, view_enum_variant, view_stmt, view_block_stmt, view_var_decl, view_pattern, view_object_pat_prop, view_return_stmt, view_if_stmt, view_while_stmt, view_expr, view_arrow_body, view_ident, view_type, view_param, view_field, view_method_sig, view_match_expr, view_match_arm, view_object_field, view_enum_init_field};
use crate::ast::{view_type_seq, view_field_seq, view_pattern_seq, view_object_pat_prop_seq, view_stmt_seq, view_expr_seq, view_object_field_seq, view_enum_init_field_seq, view_match_arm_seq, view_param_seq, view_method_sig_seq, view_function_seq, view_enum_variant_seq, view_ident_seq, view_module_item_seq};
use crate::ast::{lemma_view_type_seq_push, lemma_view_field_seq_push, lemma_view_pattern_seq_push, lemma_view_object_pat_prop_seq_push, lemma_view_stmt_seq_push, lemma_view_expr_seq_push, lemma_view_object_field_seq_push, lemma_view_enum_init_field_seq_push, lemma_view_match_arm_seq_push, lemma_view_param_seq_push, lemma_view_method_sig_seq_push, lemma_view_function_seq_push, lemma_view_enum_variant_seq_push, lemma_view_ident_seq_push, lemma_view_module_item_seq_push};
use crate::ast::{clone_ident, SBlockStmt, SStmt, SExpr, SType, SIdent, SPattern, SZigEscapeExpr, lemma_view_expr_seq_index};
use crate::grammar::{peek, is_at, peek_span, skip_if, bad, g_expect, keyword_as_name, g_ident, base_type, g_type, g_type_elems, g_type_fields, g_pattern, g_pattern_elems, g_pattern_props, s_left_span, s_right_span, op_of, precedence, arrow_params_of, g_arrow_param_list, g_arrow_params, is_whitespace, trim_start, trim_end, trim, zig_scan, g_zig, g_stmt, g_stmts, g_block, g_var_decl, g_while, g_if, g_return, g_expr, g_bin, g_postfix, g_index, g_binops, g_arrow_body, g_args, g_builtin_args, g_array_elems, g_object_fields, g_enum_init_fields, g_match_expr, g_match_arms, g_builtin, g_primary, g_type_field, g_pattern_prop, g_arrow_param, g_object_field, g_enum_init_field, g_match_arm, g_param, g_method_sig, g_enum_variant, g_param_list, g_params, g_return_type, g_function, g_class_members, g_class, g_trait_methods, g_trait, g_functions, g_impl, g_enum_variants, g_enum, g_ident_list, g_error_set, g_decl, g_specifiers, g_import, starts_decl, g_module_item, g_module_items, g_module, SParseError, Expected, SR, lemma_module_items_reach_end};

verus! {

/// A syntax error.
#[derive(Debug)]
pub enum ParseError {
    UnexpectedToken(Token, Span),
    ExpectedToken(Token, Token, Span),
    EndOfInput,
}

pub type ParseResult<T> = Result<T, ParseError>;

/// `e` is the error that the grammar's `se` describes.
pub open spec fn err_agrees(e: ParseError, se: SParseError) -> bool {
    match se {
        SParseError::UnexpectedToken(k, sp) => e == ParseError::UnexpectedToken(k, sp),
        SParseError::ExpectedToken(x, k, sp) => match e {
            ParseError::ExpectedToken(ex, k2, sp2) => k2 == k && sp2 == sp && match x {
                Expected::Tok(kt) => ex == kt,
                Expected::AnIdent => ex is Ident && ex->Ident_0@ == "Ident"@,
                Expected::AStringLiteral => ex is StringLiteral && ex->StringLiteral_0@ == "source"@,
            },
            _ => false,
        },
        SParseError::EndOfInput => e is EndOfInput,
    }
}

/// The parser's result `r` is what the grammar gives (`s`), seen through `f`.
pub open spec fn agrees<T, V>(r: Result<(T, usize), ParseError>, s: SR<V>, f: spec_fn(T) -> V) -> bool {
    match s {
        Ok((v, q)) => r is Ok && f(r->Ok_0.0) == v && r->Ok_0.1 == q,
        Err(e) => r is Err && err_agrees(r->Err_0, e),
    }
}

pub open spec fn prepend<A>(pre: Seq<A>, r: SR<Seq<A>>) -> SR<Seq<A>> {
    match r {
        Ok((rest, q)) => Ok((pre + rest, q)),
        Err(e) => Err(e),
    }
}

pub proof fn lemma_prepend_push<A>(a: Seq<A>, x: A, r: SR<Seq<A>>)
    ensures
        prepend(a.push(x), r) == prepend(a, prepend(seq![x], r)),
        prepend(Seq::<A>::empty(), r) == r,
{
    match r {
        Ok((rest, q)) => {
            assert(a.push(x) + rest =~= a + (seq![x] + rest));
            assert(Seq::<A>::empty() + rest =~= rest);
        },
        Err(_) => {},
    }
}

pub open spec fn prepend2<A, B>(a: Seq<A>, b: Seq<B>, r: SR<(Seq<A>, Seq<B>)>) -> SR<(Seq<A>, Seq<B>)> {
    match r {
        Ok(((x, y), q)) => Ok(((a + x, b + y), q)),
        Err(e) => Err(e),
    }
}

pub proof fn lemma_prepend2_push_left<A, B>(a: Seq<A>, b: Seq<B>, x: A, r: SR<(Seq<A>, Seq<B>)>)
    ensures
        prepend2(a.push(x), b, r) == prepend2(a, b, prepend2(seq![x], Seq::<B>::empty(), r)),
{
    match r {
        Ok(((u, v), q)) => {
            assert(a.push(x) + u =~= a + (seq![x] + u));
            assert(b + v =~= b + (Seq::<B>::empty() + v));
        },
        Err(_) => {},
    }
}

pub proof fn lemma_prepend2_push_right<A, B>(a: Seq<A>, b: Seq<B>, y: B, r: SR<(Seq<A>, Seq<B>)>)
    ensures
        prepend2(a, b.push(y), r) == prepend2(a, b, prepend2(Seq::<A>::empty(), seq![y], r)),
{
    match r {
        Ok(((u, v), q)) => {
            assert(a + u =~= a + (Seq::<A>::empty() + u));
            assert(b.push(y) + v =~= b + (seq![y] + v));
        },
        Err(_) => {},
    }
}

/// A parser over the tokens of one source text.
pub struct Parser {
    src: Vec<char>,
    toks: Vec<Tok>,
    pos: usize,
}

impl Parser {
    /// The tokens being parsed.
    pub closed spec fn tokens(&self) -> Seq<Tok> {
        self.toks@
    }

    /// The source text.
    pub closed spec fn source(&self) -> Seq<char> {
        self.src@
    }

    /// Token position where parsing goes on.
    pub closed spec fn position(&self) -> int {
        self.pos as int
    }

    pub closed spec fn wf(&self) -> bool {
        &&& tokens_ordered(self.toks@, self.src@.len() as int)
        &&& self.pos <= self.toks@.len()
        &&& self.toks@.len() <= usize::MAX
    }

    /// A parser for `input`.
    pub fn new(input: &str) -> (r: Self)
        requires
            byte_offset(input@, input@.len() as int) <= usize::MAX,
        ensures
            r.wf(),
            r.source() == input@,
            lexes_to(input@, Dialect::Cpc, r.tokens()),
            r.position() == 0,
    {
        let toks = tokenize(input, Dialect::Cpc);
        proof { lemma_lexes_to_ordered(input@, Dialect::Cpc, toks@); }
        let src = crate::lexer::source_chars(input);
        let _n = toks.len();
        Parser { src, toks, pos: 0 }
    }

    // --------------------------------------------------------------
    // Token access
    // --------------------------------------------------------------

    fn is_at(&self, p: usize, k: &Token) -> (r: bool)
        requires
            is_unit(*k),
        ensures
            r == is_at(self.toks@, p as int, *k),
            self.toks@.len() <= usize::MAX,
    {
        p < self.toks.len() && token_is(&self.toks[p].token, k)
    }

    fn peek_span(&self, p: usize) -> (r: Span)
        ensures
            r == peek_span(self.toks@, p as int),
    {
        if p < self.toks.len() {
            self.toks[p].span
        } else {
            Span { start: 0, end: 0 }
        }
    }

    fn skip_if(&self, p: usize, k: &Token) -> (r: usize)
        requires
            is_unit(*k),
            p <= self.toks@.len(),
        ensures
            r == skip_if(self.toks@, p as int, *k),
            p <= r <= self.toks@.len(),
    {
        if self.is_at(p, k) { p + 1 } else { p }
    }

    fn expect(&self, p: usize, k: Token) -> (r: Result<(Span, usize), ParseError>)
        requires
            is_unit(k),
        ensures
            agrees(r, g_expect(self.toks@, p as int, k), |x: Span| x),
            r is Ok ==> p < r->Ok_0.1 <= self.toks@.len(),
    {
        if p >= self.toks.len() {
            return Err(ParseError::EndOfInput);
        }
        if token_is(&self.toks[p].token, &k) {
            Ok((self.toks[p].span, p + 1))
        } else {
            Err(ParseError::ExpectedToken(k, clone_token(&self.toks[p].token), self.toks[p].span))
        }
    }

    fn parse_ident(&self, p: usize) -> (r: Result<(Ident, usize), ParseError>)
        ensures
            agrees(r, g_ident(self.toks@, p as int), |x: Ident| view_ident(x)),
            r is Ok ==> p < r->Ok_0.1 <= self.toks@.len(),
    {
        if p >= self.toks.len() {
            return Err(ParseError::EndOfInput);
        }
        let span = self.toks[p].span;
        let sym = match &self.toks[p].token {
            Token::Ident(x) => x.clone(),
            Token::Spawn => string_of_lit("spawn"),
            Token::Receive => string_of_lit("receive"),
            Token::Await => string_of_lit("await"),
            Token::Async => string_of_lit("async"),
            Token::If => string_of_lit("if"),
            Token::While => string_of_lit("while"),
            Token::For => string_of_lit("for"),
            Token::Return => string_of_lit("return"),
            Token::Class => string_of_lit("class"),
            Token::Trait => string_of_lit("trait"),
            Token::Enum => string_of_lit("enum"),
            Token::Impl => string_of_lit("impl"),
            Token::Interface => string_of_lit("interface"),
            Token::Extends => string_of_lit("extends"),
            Token::Any => string_of_lit("any"),
            Token::Void => string_of_lit("void"),
            _ => {
                return Err(ParseError::ExpectedToken(
                    Token::Ident(string_of_lit("Ident")),
                    clone_token(&self.toks[p].token),
                    span,
                ));
            },
        };
        Ok((Ident { span, sym }, p + 1))
    }

    // --------------------------------------------------------------
    // Types
    // --------------------------------------------------------------

    /// The type that the single token at `p` names.
    fn base_type(&self, p: usize) -> (r: Result<Type, ParseError>)
        requires
            p < self.toks@.len(),
        ensures
            match base_type(self.toks@[p as int].token, self.toks@[p as int].span) {
                Some(ty) => r is Ok && view_type(r->Ok_0) == ty,
                None => r is Err && r->Err_0 == ParseError::UnexpectedToken(self.toks@[p as int].token, self.toks@[p as int].span),
            },
    {
        let span = self.toks[p].span;
        match &self.toks[p].token {
            Token::I32 => Ok(Type::I32),
            Token::U32 => Ok(Type::U32),
            Token::U64 => Ok(Type::U64),
            Token::F32 => Ok(Type::F32),
            Token::USize => Ok(Type::USize),
            Token::String => Ok(Type::String),
            Token::Void => Ok(Type::Void),
            Token::Any => Ok(Type::Any),
            Token::Bool => Ok(Type::Bool),
            Token::Ident(x) => if string_eq_str(x, "pid") {
                Ok(Type::PID)
            } else {
                Ok(Type::Ref(Ident { span, sym: x.clone() }))
            },
            _ => Err(ParseError::UnexpectedToken(clone_token(&self.toks[p].token), span)),
        }
    }

    #[verifier::spinoff_prover]
    #[verifier::rlimit(30)]
    fn parse_type(&self, p: usize) -> (r: Result<(Type, usize), ParseError>)
        requires
            self.wf(),
            p <= self.toks@.len(),
        ensures
            agrees(r, g_type(self.toks@, p as int), |x: Type| view_type(x)),
            r is Ok ==> p < r->Ok_0.1 <= self.toks@.len(),
        decreases self.toks@.len() - p, 1nat,
    {
        if self.is_at(p, &Token::LBracket) {
            let (elems, q) = self.parse_type_elems(p + 1)?;
            let (_, q2) = self.expect(q, Token::RBracket)?;
            assert(view_type(Type::Tuple(elems)) == SType::Tuple(view_type_seq(elems@)));
            return Ok((Type::Tuple(elems), q2));
        }
        if self.is_at(p, &Token::LBrace) {
            let (fields, q) = self.parse_type_fields(p + 1)?;
            let (_, q2) = self.expect(q, Token::RBrace)?;
            assert(view_type(Type::Object(fields)) == SType::Object(view_field_seq(fields@)));
            return Ok((Type::Object(fields), q2));
        }
        let error_union = self.is_at(p, &Token::Question);
        let p1 = self.skip_if(p, &Token::Question);
        if p1 >= self.toks.len() {
            return Err(ParseError::EndOfInput);
        }
        let base = self.base_type(p1)?;
        let opt = self.is_at(p1 + 1, &Token::Question);
        let ty1 = if opt { Type::Optional(Box::new(base)) } else { base };
        let ty2 = if error_union { Type::ErrorUnion(Box::new(ty1)) } else { ty1 };
        let q = self.skip_if(p1 + 1, &Token::Question);
        proof {
            let t = self.toks@;
            let sty = base_type(t[p1 as int].token, t[p1 as int].span).unwrap();
            assert(sty == view_type(base));
            let sty1 = if opt { SType::Optional(Box::new(sty)) } else { sty };
            assert(sty1 == view_type(ty1));
            let sty2 = if error_union { SType::ErrorUnion(Box::new(sty1)) } else { sty1 };
            assert(sty2 == view_type(ty2));
            assert(g_type(t, p as int) == Ok::<(SType, int), SParseError>((sty2, q as int)));
        }
        Ok((ty2, q))
    }

    fn parse_type_field(&self, p: usize) -> (r: Result<(Field, usize), ParseError>)
        requires
            self.wf(),
            p <= self.toks@.len(),
        ensures
            agrees(r, g_type_field(self.toks@, p as int), |x: Field| view_field(x)),
            r is Ok ==> p < r->Ok_0.1 <= self.toks@.len(),
        decreases self.toks@.len() - p, 1nat,
    {
        let (id, q) = self.parse_ident(p)?;
        let (_, q1) = self.expect(q, Token::Colon)?;
        let (ty, q2) = self.parse_type(q1)?;
        Ok((Field { span: id.span, ident: id, ty }, q2))
    }

    // --------------------------------------------------------------
    // Lists
    // --------------------------------------------------------------

    fn parse_type_elems(&self, p0: usize) -> (r: Result<(Vec<Type>, usize), ParseError>)
        requires
            self.wf(),
            p0 <= self.toks@.len(),
        ensures
            agrees(r, g_type_elems(self.toks@, p0 as int), |v: Vec<Type>| view_type_seq(v@)),
            r is Ok ==> p0 <= r->Ok_0.1 <= self.toks@.len(),
        decreases self.toks@.len() - p0, 2nat,
    {
        let mut v: Vec<Type> = Vec::new();
        let mut p: usize = p0;
        loop
            invariant
                self.wf(),
                p0 <= p <= self.toks@.len(),
                g_type_elems(self.toks@, p0 as int) == prepend(view_type_seq(v@), g_type_elems(self.toks@, p as int)),
            decreases self.toks@.len() - p,
        {
            if self.is_at(p, &Token::RBracket) {
                return Ok((v, p));
            }
            let (x, q) = self.parse_type(p)?;
            proof {
                lemma_view_type_seq_push(v@, x);
                lemma_prepend_push(view_type_seq(v@), view_type(x), g_type_elems(self.toks@, (skip_if(self.toks@, q as int, Token::Comma)) as int));
            }
            v.push(x);
            p = self.skip_if(q, &Token::Comma);
        }
    }

    fn parse_type_fields(&self, p0: usize) -> (r: Result<(Vec<Field>, usize), ParseError>)
        requires
            self.wf(),
            p0 <= self.toks@.len(),
        ensures
            agrees(r, g_type_fields(self.toks@, p0 as int), |v: Vec<Field>| view_field_seq(v@)),
            r is Ok ==> p0 <= r->Ok_0.1 <= self.toks@.len(),
        decreases self.toks@.len() - p0, 2nat,
    {
        let mut v: Vec<Field> = Vec::new();
        let mut p: usize = p0;
        loop
            invariant
                self.wf(),
                p0 <= p <= self.toks@.len(),
                g_type_fields(self.toks@, p0 as int) == prepend(view_field_seq(v@), g_type_fields(self.toks@, p as int)),
            decreases self.toks@.len() - p,
        {
            if self.is_at(p, &Token::RBrace) {
                return Ok((v, p));
            }
            let (x, q) = self.parse_type_field(p)?;
            proof {
                lemma_view_field_seq_push(v@, x);
                lemma_prepend_push(view_field_seq(v@), view_field(x), g_type_fields(self.toks@, (skip_if(self.toks@, q as int, Token::Comma)) as int));
            }
            v.push(x);
            p = self.skip_if(q, &Token::Comma);
        }
    }

    // --------------------------------------------------------------
    // Patterns
    // --------------------------------------------------------------

    fn parse_pattern(&self, p: usize) -> (r: Result<(Pattern, usize), ParseError>)
        requires
            self.wf(),
            p <= self.toks@.len(),
        ensures
            agrees(r, g_pattern(self.toks@, p as int), |x: Pattern| view_pattern(x)),
            r is Ok ==> p < r->Ok_0.1 <= self.toks@.len(),
        decreases self.toks@.len() - p, 1nat,
    {
        if self.is_at(p, &Token::LBracket) {
            let (elems, q) = self.parse_pattern_elems(p + 1)?;
            let (_, q2) = self.expect(q, Token::RBracket)?;
            return Ok((Pattern::Tuple(elems), q2));
        }
        if self.is_at(p, &Token::LBrace) {
            let (props, q) = self.parse_pattern_props(p + 1)?;
            let (_, q2) = self.expect(q, Token::RBrace)?;
            return Ok((Pattern::Object(props), q2));
        }
        if self.is_at(p, &Token::Dot) {
            let (variant_name, q) = self.parse_ident(p + 1)?;
            let none = Span { start: 0, end: 0 };
            let mut fields: Option<Vec<ObjectPatProp>> = None;
            let mut q_end = q;
            if self.is_at(q, &Token::FatArrow) {
            } else if self.is_at(q, &Token::Pipe) {
                let (key, q2) = self.parse_ident(q + 1)?;
                let (_, q3) = self.expect(q2, Token::Pipe)?;
                let mut v: Vec<ObjectPatProp> = Vec::new();
                v.push(ObjectPatProp { key, val: None });
                proof {
                    assert(view_object_pat_prop_seq(v@) =~= seq![view_object_pat_prop(v@[0])]) by {
                        reveal_with_fuel(view_object_pat_prop_seq, 2);
                    }
                }
                fields = Some(v);
                q_end = q3;
            }
            let enum_name = Ident { span: none, sym: std::string::String::new() };
            return Ok((Pattern::Enum(EnumPattern { span: none, enum_name, variant_name, fields }), q_end));
        }
        if self.is_at(p, &Token::Bang) {
            return Ok((Pattern::Wildcard, p + 1));
        }
        let (id, q) = self.parse_ident(p)?;
        Ok((Pattern::Ident(id), q))
    }

    fn parse_pattern_prop(&self, p: usize) -> (r: Result<(ObjectPatProp, usize), ParseError>)
        requires
            self.wf(),
            p <= self.toks@.len(),
        ensures
            agrees(r, g_pattern_prop(self.toks@, p as int), |x: ObjectPatProp| view_object_pat_prop(x)),
            r is Ok ==> p < r->Ok_0.1 <= self.toks@.len(),
        decreases self.toks@.len() - p, 1nat,
    {
        let (key, q) = self.parse_ident(p)?;
        if self.is_at(q, &Token::Colon) {
            let (pat, q2) = self.parse_pattern(q + 1)?;
            Ok((ObjectPatProp { key, val: Some(pat) }, q2))
        } else {
            Ok((ObjectPatProp { key, val: None }, q))
        }
    }

    fn parse_pattern_elems(&self, p0: usize) -> (r: Result<(Vec<Pattern>, usize), ParseError>)
        requires
            self.wf(),
            p0 <= self.toks@.len(),
        ensures
            agrees(r, g_pattern_elems(self.toks@, p0 as int), |v: Vec<Pattern>| view_pattern_seq(v@)),
            r is Ok ==> p0 <= r->Ok_0.1 <= self.toks@.len(),
        decreases self.toks@.len() - p0, 2nat,
    {
        let mut v: Vec<Pattern> = Vec::new();
        let mut p: usize = p0;
        loop
            invariant
                self.wf(),
                p0 <= p <= self.toks@.len(),
                g_pattern_elems(self.toks@, p0 as int) == prepend(view_pattern_seq(v@), g_pattern_elems(self.toks@, p as int)),
            decreases self.toks@.len() - p,
        {
            if self.is_at(p, &Token::RBracket) {
                return Ok((v, p));
            }
            let (x, q) = self.parse_pattern(p)?;
            proof {
                lemma_view_pattern_seq_push(v@, x);
                lemma_prepend_push(view_pattern_seq(v@), view_pattern(x), g_pattern_elems(self.toks@, (skip_if(self.toks@, q as int, Token::Comma)) as int));
            }
            v.push(x);
            p = self.skip_if(q, &Token::Comma);
        }
    }

    fn parse_pattern_props(&self, p0: usize) -> (r: Result<(Vec<ObjectPatProp>, usize), ParseError>)
        requires
            self.wf(),
            p0 <= self.toks@.len(),
        ensures
            agrees(r, g_pattern_props(self.toks@, p0 as int), |v: Vec<ObjectPatProp>| view_object_pat_prop_seq(v@)),
            r is Ok ==> p0 <= r->Ok_0.1 <= self.toks@.len(),
        decreases self.toks@.len() - p0, 2nat,
    {
        let mut v: Vec<ObjectPatProp> = Vec::new();
        let mut p: usize = p0;
        loop
            invariant
                self.wf(),
                p0 <= p <= self.toks@.len(),
                g_pattern_props(self.toks@, p0 as int) == prepend(view_object_pat_prop_seq(v@), g_pattern_props(self.toks@, p as int)),
            decreases self.toks@.len() - p,
        {
            if self.is_at(p, &Token::RBrace) {
                return Ok((v, p));
            }
            let (x, q) = self.parse_pattern_prop(p)?;
            proof {
                lemma_view_object_pat_prop_seq_push(v@, x);
                lemma_prepend_push(view_object_pat_prop_seq(v@), view_object_pat_prop(x), g_pattern_props(self.toks@, (skip_if(self.toks@, q as int, Token::Comma)) as int));
            }
            v.push(x);
            p = self.skip_if(q, &Token::Comma);
        }
    }


    // --------------------------------------------------------------
    // Arrow-function parameters
    // --------------------------------------------------------------

    fn parse_arrow_param(&self, p: usize) -> (r: Result<(Pattern, usize), ParseError>)
        requires
            self.wf(),
            p <= self.toks@.len(),
        ensures
            agrees(r, g_arrow_param(self.toks@, p as int), |x: Pattern| view_pattern(x)),
            r is Ok ==> p < r->Ok_0.1 <= self.toks@.len(),
    {
        let (id, q) = self.parse_ident(p)?;
        if self.is_at(q, &Token::Colon) {
            let (_, q2) = self.parse_type(q + 1)?;
            Ok((Pattern::Ident(id), q2))
        } else {
            Ok((Pattern::Ident(id), q))
        }
    }

    fn parse_arrow_params(&self, p: usize) -> (r: Result<(Vec<Pattern>, usize), ParseError>)
        requires
            self.wf(),
            p <= self.toks@.len(),
        ensures
            agrees(r, g_arrow_params(self.toks@, p as int), |v: Vec<Pattern>| view_pattern_seq(v@)),
            r is Ok ==> p < r->Ok_0.1 <= self.toks@.len(),
    {
        let (params, q) = self.parse_arrow_param_list(p)?;
        let (_, q2) = self.expect(q, Token::RParen)?;
        Ok((params, q2))
    }

    // --------------------------------------------------------------
    // Operators
    // --------------------------------------------------------------

    /// The binary operator at `p`, if any.
    fn peek_op(&self, p: usize) -> (r: Option<BinaryOp>)
        ensures
            r == (match peek(self.toks@, p as int) {
                Some(k) => op_of(k),
                None => None,
            }),
    {
        if p >= self.toks.len() {
            return None;
        }
        match &self.toks[p].token {
            Token::Plus => Some(BinaryOp::Add),
            Token::Minus => Some(BinaryOp::Sub),
            Token::Star => Some(BinaryOp::Mul),
            Token::Slash => Some(BinaryOp::Div),
            Token::Assign => Some(BinaryOp::Eq),
            Token::Less => Some(BinaryOp::Lt),
            _ => None,
        }
    }

    fn op_precedence(&self, op: &BinaryOp) -> (r: u8)
        ensures
            r == precedence(*op),
            r <= 4,
    {
        match op {
            BinaryOp::Eq => 1,
            BinaryOp::Lt => 2,
            BinaryOp::Add | BinaryOp::Sub => 3,
            BinaryOp::Mul | BinaryOp::Div => 4,
            _ => 0,
        }
    }

    // --------------------------------------------------------------
    // Statements
    // --------------------------------------------------------------

    #[verifier::spinoff_prover]
    #[verifier::rlimit(60)]
    fn parse_stmt(&self, p: usize) -> (r: Result<(Stmt, usize), ParseError>)
        requires
            self.wf(),
            p <= self.toks@.len(),
        ensures
            agrees(r, g_stmt(self.toks@, self.src@, p as int), |x: Stmt| view_stmt(x)),
            r is Ok ==> p < r->Ok_0.1 <= self.toks@.len(),
        decreases self.toks@.len() - p, 4nat,
    {
        if self.is_at(p, &Token::Let) || self.is_at(p, &Token::Const) {
            let (v, q) = self.parse_var_decl(p)?;
            return Ok((Stmt::Var(v), q));
        }
        if self.is_at(p, &Token::While) {
            let (w, q) = self.parse_while_stmt(p)?;
            return Ok((Stmt::While(w), q));
        }
        if self.is_at(p, &Token::If) {
            let (i, q) = self.parse_if_stmt(p)?;
            return Ok((Stmt::If(i), q));
        }
        if self.is_at(p, &Token::Return) {
            let (ret, q) = self.parse_return_stmt(p)?;
            return Ok((Stmt::Return(ret), q));
        }
        if self.is_at(p, &Token::Defer) {
            let (st, q) = self.parse_stmt(p + 1)?;
            return Ok((Stmt::Defer(Box::new(st)), q));
        }
        if self.is_at(p, &Token::ErrDefer) {
            let (st, q) = self.parse_stmt(p + 1)?;
            return Ok((Stmt::ErrDefer(Box::new(st)), q));
        }
        if self.is_at(p, &Token::Bang) {
            let (x, q) = self.parse_expr(p)?;
            return Ok((Stmt::Expr(x), q));
        }
        if self.is_at(p, &Token::LBrace) {
            let (b, q) = self.parse_block_stmt(p)?;
            return Ok((Stmt::Block(b), q));
        }
        if self.is_at(p, &Token::ZigEscape) {
            return self.parse_zig(p);
        }
        let (x, q) = self.parse_expr(p)?;
        Ok((Stmt::Expr(x), self.skip_if(q, &Token::Semicolon)))
    }

    fn parse_block_stmt(&self, p: usize) -> (r: Result<(BlockStmt, usize), ParseError>)
        requires
            self.wf(),
            p <= self.toks@.len(),
        ensures
            agrees(r, g_block(self.toks@, self.src@, p as int), |x: BlockStmt| view_block_stmt(x)),
            r is Ok ==> p < r->Ok_0.1 <= self.toks@.len(),
        decreases self.toks@.len() - p, 1nat,
    {
        let (sp, q) = self.expect(p, Token::LBrace)?;
        let (body, q2) = self.parse_stmts(q)?;
        let (esp, q3) = self.expect(q2, Token::RBrace)?;
        Ok((BlockStmt { span: Span { start: sp.start, end: esp.end }, body }, q3))
    }

    fn parse_var_decl(&self, p: usize) -> (r: Result<(VarDecl, usize), ParseError>)
        requires
            self.wf(),
            p <= self.toks@.len(),
        ensures
            agrees(r, g_var_decl(self.toks@, self.src@, p as int), |x: VarDecl| view_var_decl(x)),
            r is Ok ==> p < r->Ok_0.1 <= self.toks@.len(),
        decreases self.toks@.len() - p, 1nat,
    {
        if p >= self.toks.len() {
            return Err(ParseError::EndOfInput);
        }
        let start = self.toks[p].span.start;
        let kind = if token_is(&self.toks[p].token, &Token::Let) { VarDeclKind::Let } else { VarDeclKind::Const };
        let (pat, q) = self.parse_pattern(p + 1)?;
        let mut ty: Option<Type> = None;
        let mut q1 = q;
        if self.is_at(q, &Token::Colon) {
            let (t, qt) = self.parse_type(q + 1)?;
            ty = Some(t);
            q1 = qt;
        }
        let (_, q2) = self.expect(q1, Token::Assign)?;
        let (init, q3) = self.parse_expr(q2)?;
        let (_, q4) = self.expect(q3, Token::Semicolon)?;
        let end = self.peek_span(q4).end;
        Ok((VarDecl { span: Span { start, end }, kind, pat, ty, init: Some(init) }, q4))
    }

    fn parse_while_stmt(&self, p: usize) -> (r: Result<(WhileStmt, usize), ParseError>)
        requires
            self.wf(),
            p <= self.toks@.len(),
        ensures
            agrees(r, g_while(self.toks@, self.src@, p as int), |x: WhileStmt| view_while_stmt(x)),
            r is Ok ==> p < r->Ok_0.1 <= self.toks@.len(),
        decreases self.toks@.len() - p, 1nat,
    {
        let (sp, q) = self.expect(p, Token::While)?;
        let (_, q1) = self.expect(q, Token::LParen)?;
        let (test, q2) = self.parse_expr(q1)?;
        let (_, q3) = self.expect(q2, Token::RParen)?;
        let (body, q4) = self.parse_stmt(q3)?;
        Ok((WhileStmt { span: Span { start: sp.start, end: 0 }, test, body: Box::new(body) }, q4))
    }

    fn parse_if_stmt(&self, p: usize) -> (r: Result<(IfStmt, usize), ParseError>)
        requires
            self.wf(),
            p <= self.toks@.len(),
        ensures
            agrees(r, g_if(self.toks@, self.src@, p as int), |x: IfStmt| view_if_stmt(x)),
            r is Ok ==> p < r->Ok_0.1 <= self.toks@.len(),
        decreases self.toks@.len() - p, 1nat,
    {
        let (sp, q) = self.expect(p, Token::If)?;
        let (_, q1) = self.expect(q, Token::LParen)?;
        let (test, q2) = self.parse_expr(q1)?;
        let (_, q3) = self.expect(q2, Token::RParen)?;
        let (cons, q4) = self.parse_stmt(q3)?;
        if self.is_at(q4, &Token::Else) {
            let (alt, q5) = self.parse_stmt(q4 + 1)?;
            return Ok((IfStmt {
                span: Span { start: sp.start, end: 0 },
                test,
                cons: Box::new(cons),
                alt: Some(Box::new(alt)),
            }, q5));
        }
        Ok((IfStmt { span: Span { start: sp.start, end: 0 }, test, cons: Box::new(cons), alt: None }, q4))
    }

    fn parse_return_stmt(&self, p: usize) -> (r: Result<(ReturnStmt, usize), ParseError>)
        requires
            self.wf(),
            p <= self.toks@.len(),
        ensures
            agrees(r, g_return(self.toks@, self.src@, p as int), |x: ReturnStmt| view_return_stmt(x)),
            r is Ok ==> p < r->Ok_0.1 <= self.toks@.len(),
        decreases self.toks@.len() - p, 1nat,
    {
        let (sp, q) = self.expect(p, Token::Return)?;
        let mut arg: Option<Expr> = None;
        let mut q1 = q;
        if !self.is_at(q, &Token::Semicolon) {
            let (x, qx) = self.parse_expr(q)?;
            arg = Some(x);
            q1 = qx;
        }
        let (esp, q2) = self.expect(q1, Token::Semicolon)?;
        Ok((ReturnStmt { span: Span { start: sp.start, end: esp.end }, arg }, q2))
    }

    // --------------------------------------------------------------
    // Expressions
    // --------------------------------------------------------------

    fn parse_expr(&self, p: usize) -> (r: Result<(Expr, usize), ParseError>)
        requires
            self.wf(),
            p <= self.toks@.len(),
        ensures
            agrees(r, g_expr(self.toks@, self.src@, p as int), |x: Expr| view_expr(x)),
            r is Ok ==> p < r->Ok_0.1 <= self.toks@.len(),
        decreases self.toks@.len() - p, 3nat,
    {
        self.parse_bin_expr(p, 0)
    }

    fn parse_bin_expr(&self, p: usize, min_prec: u8) -> (r: Result<(Expr, usize), ParseError>)
        requires
            self.wf(),
            p <= self.toks@.len(),
            min_prec <= 5,
        ensures
            agrees(r, g_bin(self.toks@, self.src@, p as int, min_prec as nat), |x: Expr| view_expr(x)),
            r is Ok ==> p < r->Ok_0.1 <= self.toks@.len(),
        decreases self.toks@.len() - p, 2nat,
    {
        let (left, q) = self.parse_primary_expr(p)?;
        self.parse_postfix(left, q, min_prec)
    }

    /// Calls, member accesses, `?`, indexing and arrow bodies after `left`,
    /// then the binary operators.
    fn parse_postfix(&self, left: Expr, p: usize, min_prec: u8) -> (r: Result<(Expr, usize), ParseError>)
        requires
            self.wf(),
            p <= self.toks@.len(),
            min_prec <= 5,
        ensures
            agrees(r, g_postfix(self.toks@, self.src@, view_expr(left), p as int, min_prec as nat), |x: Expr| view_expr(x)),
            r is Ok ==> p <= r->Ok_0.1 <= self.toks@.len(),
        decreases self.toks@.len() - p, 2nat,
    {
        if self.is_at(p, &Token::LParen) {
            let (args, q) = self.parse_args(p + 1)?;
            let (esp, q2) = self.expect(q, Token::RParen)?;
            let start = left_span(&left).start;
            let call = Expr::Call(CallExpr { span: Span { start, end: esp.end }, callee: Box::new(left), args, is_comptime: false });
            return self.parse_postfix(call, q2, min_prec);
        }
        if self.is_at(p, &Token::Dot) {
            let (prop, q) = self.parse_ident(p + 1)?;
            let start = left_span(&left).start;
            if self.is_at(q, &Token::LBrace) {
                let (fields, q2) = self.parse_enum_init_fields(q + 1)?;
                let (esp, q3) = self.expect(q2, Token::RBrace)?;
                let enum_name = match &left {
                    Expr::Ident(id) => clone_ident(id),
                    _ => Ident { span: Span { start: 0, end: 0 }, sym: string_of_lit("Unknown") },
                };
                let init = Expr::EnumInit(EnumInitExpr {
                    span: Span { start, end: esp.end },
                    enum_name,
                    variant_name: prop,
                    fields: Some(fields),
                });
                return self.parse_postfix(init, q3, min_prec);
            }
            let end = prop.span.end;
            let member = Expr::Member(MemberExpr { span: Span { start, end }, obj: Box::new(left), prop });
            return self.parse_postfix(member, q, min_prec);
        }
        if self.is_at(p, &Token::Question) {
            return self.parse_postfix(Expr::Question(Box::new(left)), p + 1, min_prec);
        }
        if self.is_at(p, &Token::LBracket) {
            let (x, q) = self.parse_index(left, p)?;
            return self.parse_postfix(x, q, min_prec);
        }
        if self.is_at(p, &Token::FatArrow) {
            let (body, q) = self.parse_arrow_body(p + 1)?;
            let start = left_span(&left).start;
            let params = arrow_params(&left);
            let end = self.peek_span(q).end;
            let arrow = Expr::Arrow(Box::new(ArrowExpr { span: Span { start, end }, params, body: Box::new(body) }));
            return self.parse_postfix(arrow, q, min_prec);
        }
        self.parse_binops(left, p, min_prec)
    }

    /// `left[i]`, `left[a..b]`, `left[..b]` or `left[a..]`, from the `[` at `p`.
    fn parse_index(&self, left: Expr, p: usize) -> (r: Result<(Expr, usize), ParseError>)
        requires
            self.wf(),
            p <= self.toks@.len(),
        ensures
            agrees(r, g_index(self.toks@, self.src@, view_expr(left), p as int), |x: Expr| view_expr(x)),
            r is Ok ==> p < r->Ok_0.1 <= self.toks@.len(),
        decreases self.toks@.len() - p, 1nat,
    {
        if p >= self.toks.len() {
            return Err(ParseError::EndOfInput);
        }
        let start_span = self.toks[p].span;
        let mut is_slice = false;
        let mut start_idx: Option<Box<Expr>> = None;
        let mut end_idx: Option<Box<Expr>> = None;
        let mut q: usize = p;
        if self.is_at(p + 1, &Token::DotDot) {
            is_slice = true;
            if self.is_at(p + 2, &Token::RBracket) {
                q = p + 2;
            } else {
                let (x, qx) = self.parse_expr(p + 2)?;
                end_idx = Some(Box::new(x));
                q = qx;
            }
        } else {
            let (idx, qi) = self.parse_expr(p + 1)?;
            if self.is_at(qi, &Token::DotDot) {
                is_slice = true;
                start_idx = Some(Box::new(idx));
                if self.is_at(qi + 1, &Token::RBracket) {
                    q = qi + 1;
                } else {
                    let (x, qx) = self.parse_expr(qi + 1)?;
                    end_idx = Some(Box::new(x));
                    q = qx;
                }
            } else {
                start_idx = Some(Box::new(idx));
                q = qi;
            }
        }
        let (esp, q2) = self.expect(q, Token::RBracket)?;
        let span = Span { start: left_span(&left).start, end: esp.end };
        if is_slice {
            Ok((Expr::Slice(SliceExpr { span, obj: Box::new(left), start: start_idx, end: end_idx }), q2))
        } else {
            let prop = Ident { span: start_span, sym: string_of_lit("at") };
            Ok((Expr::Member(MemberExpr { span, obj: Box::new(left), prop }), q2))
        }
    }

    /// The binary operators after `left` that bind at least as tight as `min_prec`.
    fn parse_binops(&self, left: Expr, p: usize, min_prec: u8) -> (r: Result<(Expr, usize), ParseError>)
        requires
            self.wf(),
            p <= self.toks@.len(),
            min_prec <= 5,
        ensures
            agrees(r, g_binops(self.toks@, self.src@, view_expr(left), p as int, min_prec as nat), |x: Expr| view_expr(x)),
            r is Ok ==> p <= r->Ok_0.1 <= self.toks@.len(),
        decreases self.toks@.len() - p, 1nat,
    {
        let op = match self.peek_op(p) {
            Some(op) => op,
            None => return Ok((left, p)),
        };
        let prec = self.op_precedence(&op);
        if prec < min_prec {
            return Ok((left, p));
        }
        let (right, q) = self.parse_bin_expr(p + 1, prec + 1)?;
        let span = Span { start: left_span(&left).start, end: right_span(&right).end };
        let bin = Expr::Bin(BinExpr { span, op, left: Box::new(left), right: Box::new(right) });
        self.parse_binops(bin, q, min_prec)
    }

    fn parse_arrow_body(&self, p: usize) -> (r: Result<(ArrowBody, usize), ParseError>)
        requires
            self.wf(),
            p <= self.toks@.len(),
        ensures
            agrees(r, g_arrow_body(self.toks@, self.src@, p as int), |x: ArrowBody| view_arrow_body(x)),
            r is Ok ==> p < r->Ok_0.1 <= self.toks@.len(),
        decreases self.toks@.len() - p, 4nat,
    {
        if self.is_at(p, &Token::LBrace) {
            let (b, q) = self.parse_block_stmt(p)?;
            Ok((ArrowBody::Block(b), q))
        } else {
            let (x, q) = self.parse_expr(p)?;
            Ok((ArrowBody::Expr(x), q))
        }
    }

    fn parse_object_field(&self, p: usize) -> (r: Result<(ObjectField, usize), ParseError>)
        requires
            self.wf(),
            p <= self.toks@.len(),
        ensures
            agrees(r, g_object_field(self.toks@, self.src@, p as int), |x: ObjectField| view_object_field(x)),
            r is Ok ==> p < r->Ok_0.1 <= self.toks@.len(),
        decreases self.toks@.len() - p, 1nat,
    {
        let (key, q) = self.parse_ident(p)?;
        let (_, q1) = self.expect(q, Token::Colon)?;
        let (val, q2) = self.parse_expr(q1)?;
        Ok((ObjectField { key, val }, q2))
    }

    fn parse_enum_init_field(&self, p: usize) -> (r: Result<(EnumInitField, usize), ParseError>)
        requires
            self.wf(),
            p <= self.toks@.len(),
        ensures
            agrees(r, g_enum_init_field(self.toks@, self.src@, p as int), |x: EnumInitField| view_enum_init_field(x)),
            r is Ok ==> p < r->Ok_0.1 <= self.toks@.len(),
        decreases self.toks@.len() - p, 1nat,
    {
        let (key, q) = self.parse_ident(p)?;
        let (_, q1) = self.expect(q, Token::Colon)?;
        let (val, q2) = self.parse_expr(q1)?;
        Ok((EnumInitField { key, val }, q2))
    }

    fn parse_match_arm(&self, p: usize) -> (r: Result<(MatchArm, usize), ParseError>)
        requires
            self.wf(),
            p <= self.toks@.len(),
        ensures
            agrees(r, g_match_arm(self.toks@, self.src@, p as int), |x: MatchArm| view_match_arm(x)),
            r is Ok ==> p < r->Ok_0.1 <= self.toks@.len(),
        decreases self.toks@.len() - p, 1nat,
    {
        let (pat, q) = self.parse_pattern(p)?;
        let (_, q1) = self.expect(q, Token::FatArrow)?;
        let (body, q2) = self.parse_stmt(q1)?;
        Ok((MatchArm { span: Span { start: 0, end: 0 }, pat, body: Box::new(body) }, q2))
    }

    /// `(disc) { arms }` after `match`.
    fn parse_match_expr(&self, p: usize) -> (r: Result<(MatchExpr, usize), ParseError>)
        requires
            self.wf(),
            p <= self.toks@.len(),
        ensures
            agrees(r, g_match_expr(self.toks@, self.src@, p as int), |x: MatchExpr| view_match_expr(x)),
            r is Ok ==> p < r->Ok_0.1 <= self.toks@.len(),
        decreases self.toks@.len() - p, 1nat,
    {
        let start = self.peek_span(p).start;
        let (_, q) = self.expect(p, Token::LParen)?;
        let (disc, q1) = self.parse_expr(q)?;
        let (_, q2) = self.expect(q1, Token::RParen)?;
        let (_, q3) = self.expect(q2, Token::LBrace)?;
        let (arms, q4) = self.parse_match_arms(q3)?;
        let (esp, q5) = self.expect(q4, Token::RBrace)?;
        Ok((MatchExpr { span: Span { start, end: esp.end }, disc: Box::new(disc), arms }, q5))
    }

    /// `(args)` of the builtin `name`, whose name token spans `sp`.
    fn parse_builtin(&self, name: std::string::String, sp: Span, p: usize) -> (r: Result<(Expr, usize), ParseError>)
        requires
            self.wf(),
            p <= self.toks@.len(),
        ensures
            agrees(r, g_builtin(self.toks@, self.src@, name@, sp, p as int), |x: Expr| view_expr(x)),
            r is Ok ==> p < r->Ok_0.1 <= self.toks@.len(),
        decreases self.toks@.len() - p, 4nat,
    {
        let (_, q) = self.expect(p, Token::LParen)?;
        let (args, q1) = self.parse_builtin_args(q)?;
        let (_, q2) = self.expect(q1, Token::RParen)?;
        let end = self.peek_span(q2).end;
        Ok((Expr::Builtin(BuiltinCall { span: Span { start: sp.start, end }, name, args }), q2))
    }

    #[verifier::spinoff_prover]
    #[verifier::rlimit(60)]
    fn parse_primary_expr(&self, p: usize) -> (r: Result<(Expr, usize), ParseError>)
        requires
            self.wf(),
            p <= self.toks@.len(),
        ensures
            agrees(r, g_primary(self.toks@, self.src@, p as int), |x: Expr| view_expr(x)),
            r is Ok ==> p < r->Ok_0.1 <= self.toks@.len(),
        decreases self.toks@.len() - p, 1nat,
    {
        if p >= self.toks.len() {
            return Err(ParseError::EndOfInput);
        }
        let sp = self.toks[p].span;
        let p1 = p + 1;
        match &self.toks[p].token {
            Token::Spawn => self.parse_spawn_expr(p),
            Token::Ident(_) => self.parse_name_expr(p),
            Token::At => self.parse_name_expr(p),
            Token::Match => {
                let (m, q) = self.parse_match_expr(p1)?;
                Ok((Expr::Match(Box::new(m)), q))
            },
            Token::LParen => self.parse_paren_expr(p),
            Token::LBrace => self.parse_object_expr(p),
            Token::Await => {
                let (x, q) = self.parse_expr(p1)?;
                Ok((Expr::Await(Box::new(x)), q))
            },
            Token::IntLiteral(v) => Ok((Expr::Lit(Lit::Int(*v)), p1)),
            Token::StringLiteral(x) => Ok((Expr::Lit(Lit::Str(x.clone())), p1)),
            Token::New => self.parse_new_expr(p),
            Token::Receive => self.parse_receive_expr(p),
            Token::LBracket => self.parse_array_expr(p),
            _ => Err(ParseError::UnexpectedToken(clone_token(&self.toks[p].token), sp)),
        }
    }

    /// `spawn callee` from the `spawn` at `p`.
    fn parse_spawn_expr(&self, p: usize) -> (r: Result<(Expr, usize), ParseError>)
        requires
            self.wf(),
            is_at(self.toks@, p as int, Token::Spawn),
        ensures
            agrees(r, g_primary(self.toks@, self.src@, p as int), |x: Expr| view_expr(x)),
            r is Ok ==> p < r->Ok_0.1 <= self.toks@.len(),
        decreases self.toks@.len() - p, 0nat,
    {
        let sp = self.toks[p].span;
        let (callee, q) = self.parse_expr(p + 1)?;
        let end = right_span(&callee).end;
        assert(view_expr_seq(Seq::<Expr>::empty()) =~= Seq::<SExpr>::empty());
        Ok((Expr::Spawn(Box::new(SpawnExpr {
            span: Span { start: sp.start, end },
            callee: Box::new(callee),
            args: Vec::new(),
        })), q))
    }

    /// A name, or a builtin call `@name(args)`, from the identifier or `@` at `p`.
    fn parse_name_expr(&self, p: usize) -> (r: Result<(Expr, usize), ParseError>)
        requires
            self.wf(),
            p < self.toks@.len(),
            self.toks@[p as int].token is Ident || self.toks@[p as int].token is At,
        ensures
            agrees(r, g_primary(self.toks@, self.src@, p as int), |x: Expr| view_expr(x)),
            r is Ok ==> p < r->Ok_0.1 <= self.toks@.len(),
        decreases self.toks@.len() - p, 0nat,
    {
        let sp = self.toks[p].span;
        let p1 = p + 1;
        match &self.toks[p].token {
            Token::Ident(x) => {
                if starts_with_char(x.as_str(), '@') {
                    self.parse_builtin(x.clone(), sp, p1)
                } else {
                    Ok((Expr::Ident(Ident { span: sp, sym: x.clone() }), p1))
                }
            },
            _ => {
                let (id, q) = self.parse_ident(p1)?;
                let mut name = std::string::String::new();
                push_char(&mut name, '@');
                push_str(&mut name, id.sym.as_str());
                proof {
                    assert(name@ =~= seq!['@'] + id.sym@);
                }
                self.parse_builtin(name, sp, q)
            },
        }
    }

    /// An object literal from the `{` at `p`.
    fn parse_object_expr(&self, p: usize) -> (r: Result<(Expr, usize), ParseError>)
        requires
            self.wf(),
            is_at(self.toks@, p as int, Token::LBrace),
        ensures
            agrees(r, g_primary(self.toks@, self.src@, p as int), |x: Expr| view_expr(x)),
            r is Ok ==> p < r->Ok_0.1 <= self.toks@.len(),
        decreases self.toks@.len() - p, 0nat,
    {
        let (fields, q) = self.parse_object_fields(p + 1)?;
        let (_, q2) = self.expect(q, Token::RBrace)?;
        Ok((Expr::Object(fields), q2))
    }

    /// An array literal from the `[` at `p`.
    fn parse_array_expr(&self, p: usize) -> (r: Result<(Expr, usize), ParseError>)
        requires
            self.wf(),
            is_at(self.toks@, p as int, Token::LBracket),
        ensures
            agrees(r, g_primary(self.toks@, self.src@, p as int), |x: Expr| view_expr(x)),
            r is Ok ==> p < r->Ok_0.1 <= self.toks@.len(),
        decreases self.toks@.len() - p, 0nat,
    {
        let (elems, q) = self.parse_array_elems(p + 1)?;
        let (_, q2) = self.expect(q, Token::RBracket)?;
        Ok((Expr::Array(elems), q2))
    }

    /// `(params) => body`, or else a parenthesized expression, from the `(` at `p`.
    fn parse_paren_expr(&self, p: usize) -> (r: Result<(Expr, usize), ParseError>)
        requires
            self.wf(),
            is_at(self.toks@, p as int, Token::LParen),
        ensures
            agrees(r, g_primary(self.toks@, self.src@, p as int), |x: Expr| view_expr(x)),
            r is Ok ==> p < r->Ok_0.1 <= self.toks@.len(),
        decreases self.toks@.len() - p, 0nat,
    {
        let sp = self.toks[p].span;
        let p1 = p + 1;
        match self.parse_arrow_params(p1) {
            Ok((params, q)) => {
                if self.is_at(q, &Token::FatArrow) {
                    let (body, q2) = self.parse_arrow_body(q + 1)?;
                    let end = self.peek_span(q2).end;
                    return Ok((Expr::Arrow(Box::new(ArrowExpr {
                        span: Span { start: sp.start, end },
                        params,
                        body: Box::new(body),
                    })), q2));
                }
            },
            Err(_) => {},
        }
        let (x, q) = self.parse_expr(p1)?;
        let (_, q2) = self.expect(q, Token::RParen)?;
        Ok((x, q2))
    }

    /// `new Name(args)` from the `new` at `p`.
    fn parse_new_expr(&self, p: usize) -> (r: Result<(Expr, usize), ParseError>)
        requires
            self.wf(),
            is_at(self.toks@, p as int, Token::New),
        ensures
            agrees(r, g_primary(self.toks@, self.src@, p as int), |x: Expr| view_expr(x)),
            r is Ok ==> p < r->Ok_0.1 <= self.toks@.len(),
        decreases self.toks@.len() - p, 0nat,
    {
        let sp = self.toks[p].span;
        let (callee, q) = self.parse_primary_expr(p + 1)?;
        match callee {
            Expr::Ident(id) => {
                let (_, q1) = self.expect(q, Token::LParen)?;
                let (args, q2) = self.parse_args(q1)?;
                let (esp, q3) = self.expect(q2, Token::RParen)?;
                Ok((Expr::New(CallExpr {
                    span: Span { start: sp.start, end: esp.end },
                    callee: Box::new(Expr::Ident(id)),
                    args,
                    is_comptime: false,
                }), q3))
            },
            _ => Err(ParseError::UnexpectedToken(Token::New, sp)),
        }
    }

    /// `receive<type>()` or `receive()` from the `receive` at `p`.
    fn parse_receive_expr(&self, p: usize) -> (r: Result<(Expr, usize), ParseError>)
        requires
            self.wf(),
            is_at(self.toks@, p as int, Token::Receive),
        ensures
            agrees(r, g_primary(self.toks@, self.src@, p as int), |x: Expr| view_expr(x)),
            r is Ok ==> p < r->Ok_0.1 <= self.toks@.len(),
    {
        let p1 = p + 1;
        let mut ty: Option<Box<Type>> = None;
        let mut q = p1;
        if self.is_at(p1, &Token::Less) {
            let (t, qt) = self.parse_type(p1 + 1)?;
            let (_, q1) = self.expect(qt, Token::Greater)?;
            ty = Some(Box::new(t));
            q = q1;
        }
        let (_, q1) = self.expect(q, Token::LParen)?;
        let (_, q2) = self.expect(q1, Token::RParen)?;
        Ok((Expr::Receive(ty), q2))
    }

    // --------------------------------------------------------------
    // Raw Zig code
    // --------------------------------------------------------------

    fn parse_zig(&self, p: usize) -> (r: Result<(Stmt, usize), ParseError>)
        requires
            self.wf(),
            p <= self.toks@.len(),
        ensures
            agrees(r, g_zig(self.toks@, self.src@, p as int), |x: Stmt| view_stmt(x)),
            r is Ok ==> p < r->Ok_0.1 <= self.toks@.len(),
    {
        if p >= self.toks.len() {
            return Err(ParseError::EndOfInput);
        }
        let start = self.toks[p].span.start;
        let (_, q) = self.expect(p + 1, Token::LBrace)?;
        let cs: usize = if q < self.toks.len() { self.toks[q].char_start } else { 0 };
        let (q2, ce) = zig_scan_tokens(&self.toks, self.src.len(), q, cs);
        let end = self.peek_span(q2).end;
        let code = trimmed(&self.src, cs, ce);
        let zig = Expr::Zig(ZigEscapeExpr { span: Span { start, end }, code });
        assert(view_expr(zig) == SExpr::Zig(SZigEscapeExpr { span: Span { start, end }, code: code@ }));
        Ok((Stmt::Expr(zig), q2))
    }

    fn parse_arrow_param_list(&self, p0: usize) -> (r: Result<(Vec<Pattern>, usize), ParseError>)
        requires
            self.wf(),
            p0 <= self.toks@.len(),
        ensures
            agrees(r, g_arrow_param_list(self.toks@, p0 as int), |v: Vec<Pattern>| view_pattern_seq(v@)),
            r is Ok ==> p0 <= r->Ok_0.1 <= self.toks@.len(),
    {
        let mut v: Vec<Pattern> = Vec::new();
        let mut p: usize = p0;
        loop
            invariant
                self.wf(),
                p0 <= p <= self.toks@.len(),
                g_arrow_param_list(self.toks@, p0 as int) == prepend(view_pattern_seq(v@), g_arrow_param_list(self.toks@, p as int)),
            decreases self.toks@.len() - p,
        {
            if p >= self.toks.len() || self.is_at(p, &Token::RParen) {
                return Ok((v, p));
            }
            let (x, q) = self.parse_arrow_param(p)?;
            proof {
                lemma_view_pattern_seq_push(v@, x);
                lemma_prepend_push(view_pattern_seq(v@), view_pattern(x), g_arrow_param_list(self.toks@, (skip_if(self.toks@, q as int, Token::Comma)) as int));
            }
            v.push(x);
            p = self.skip_if(q, &Token::Comma);
        }
    }

    fn parse_stmts(&self, p0: usize) -> (r: Result<(Vec<Stmt>, usize), ParseError>)
        requires
            self.wf(),
            p0 <= self.toks@.len(),
        ensures
            agrees(r, g_stmts(self.toks@, self.src@, p0 as int), |v: Vec<Stmt>| view_stmt_seq(v@)),
            r is Ok ==> p0 <= r->Ok_0.1 <= self.toks@.len(),
        decreases self.toks@.len() - p0, 5nat,
    {
        let mut v: Vec<Stmt> = Vec::new();
        let mut p: usize = p0;
        loop
            invariant
                self.wf(),
                p0 <= p <= self.toks@.len(),
                g_stmts(self.toks@, self.src@, p0 as int) == prepend(view_stmt_seq(v@), g_stmts(self.toks@, self.src@, p as int)),
            decreases self.toks@.len() - p,
        {
            if p >= self.toks.len() || self.is_at(p, &Token::RBrace) {
                return Ok((v, p));
            }
            let (x, q) = self.parse_stmt(p)?;
            proof {
                lemma_view_stmt_seq_push(v@, x);
                lemma_prepend_push(view_stmt_seq(v@), view_stmt(x), g_stmts(self.toks@, self.src@, (q) as int));
            }
            v.push(x);
            p = q;
        }
    }

    fn parse_args(&self, p0: usize) -> (r: Result<(Vec<Expr>, usize), ParseError>)
        requires
            self.wf(),
            p0 <= self.toks@.len(),
        ensures
            agrees(r, g_args(self.toks@, self.src@, p0 as int), |v: Vec<Expr>| view_expr_seq(v@)),
            r is Ok ==> p0 <= r->Ok_0.1 <= self.toks@.len(),
        decreases self.toks@.len() - p0, 4nat,
    {
        let mut v: Vec<Expr> = Vec::new();
        let mut p: usize = p0;
        loop
            invariant
                self.wf(),
                p0 <= p <= self.toks@.len(),
                g_args(self.toks@, self.src@, p0 as int) == prepend(view_expr_seq(v@), g_args(self.toks@, self.src@, p as int)),
            decreases self.toks@.len() - p,
        {
            if self.is_at(p, &Token::RParen) {
                return Ok((v, p));
            }
            let (x, q) = self.parse_expr(p)?;
            proof {
                lemma_view_expr_seq_push(v@, x);
                lemma_prepend_push(view_expr_seq(v@), view_expr(x), g_args(self.toks@, self.src@, (skip_if(self.toks@, q as int, Token::Comma)) as int));
            }
            v.push(x);
            p = self.skip_if(q, &Token::Comma);
        }
    }

    fn parse_builtin_args(&self, p0: usize) -> (r: Result<(Vec<Expr>, usize), ParseError>)
        requires
            self.wf(),
            p0 <= self.toks@.len(),
        ensures
            agrees(r, g_builtin_args(self.toks@, self.src@, p0 as int), |v: Vec<Expr>| view_expr_seq(v@)),
            r is Ok ==> p0 <= r->Ok_0.1 <= self.toks@.len(),
        decreases self.toks@.len() - p0, 3nat,
    {
        let mut v: Vec<Expr> = Vec::new();
        let mut p: usize = p0;
        loop
            invariant
                self.wf(),
                p0 <= p <= self.toks@.len(),
                g_builtin_args(self.toks@, self.src@, p0 as int) == prepend(view_expr_seq(v@), g_builtin_args(self.toks@, self.src@, p as int)),
            decreases self.toks@.len() - p,
        {
            if p >= self.toks.len() || self.is_at(p, &Token::RParen) {
                return Ok((v, p));
            }
            let (x, q) = self.parse_bin_expr(p, 0)?;
            proof {
                lemma_view_expr_seq_push(v@, x);
                lemma_prepend_push(view_expr_seq(v@), view_expr(x), g_builtin_args(self.toks@, self.src@, (skip_if(self.toks@, q as int, Token::Comma)) as int));
            }
            v.push(x);
            p = self.skip_if(q, &Token::Comma);
        }
    }

    fn parse_array_elems(&self, p0: usize) -> (r: Result<(Vec<Expr>, usize), ParseError>)
        requires
            self.wf(),
            p0 <= self.toks@.len(),
        ensures
            agrees(r, g_array_elems(self.toks@, self.src@, p0 as int), |v: Vec<Expr>| view_expr_seq(v@)),
            r is Ok ==> p0 <= r->Ok_0.1 <= self.toks@.len(),
        decreases self.toks@.len() - p0, 4nat,
    {
        let mut v: Vec<Expr> = Vec::new();
        let mut p: usize = p0;
        loop
            invariant
                self.wf(),
                p0 <= p <= self.toks@.len(),
                g_array_elems(self.toks@, self.src@, p0 as int) == prepend(view_expr_seq(v@), g_array_elems(self.toks@, self.src@, p as int)),
            decreases self.toks@.len() - p,
        {
            if self.is_at(p, &Token::RBracket) {
                return Ok((v, p));
            }
            let (x, q) = self.parse_expr(p)?;
            proof {
                lemma_view_expr_seq_push(v@, x);
                lemma_prepend_push(view_expr_seq(v@), view_expr(x), g_array_elems(self.toks@, self.src@, (skip_if(self.toks@, q as int, Token::Comma)) as int));
            }
            v.push(x);
            p = self.skip_if(q, &Token::Comma);
        }
    }

    fn parse_object_fields(&self, p0: usize) -> (r: Result<(Vec<ObjectField>, usize), ParseError>)
        requires
            self.wf(),
            p0 <= self.toks@.len(),
        ensures
            agrees(r, g_object_fields(self.toks@, self.src@, p0 as int), |v: Vec<ObjectField>| view_object_field_seq(v@)),
            r is Ok ==> p0 <= r->Ok_0.1 <= self.toks@.len(),
        decreases self.toks@.len() - p0, 2nat,
    {
        let mut v: Vec<ObjectField> = Vec::new();
        let mut p: usize = p0;
        loop
            invariant
                self.wf(),
                p0 <= p <= self.toks@.len(),
                g_object_fields(self.toks@, self.src@, p0 as int) == prepend(view_object_field_seq(v@), g_object_fields(self.toks@, self.src@, p as int)),
            decreases self.toks@.len() - p,
        {
            if self.is_at(p, &Token::RBrace) {
                return Ok((v, p));
            }
            let (x, q) = self.parse_object_field(p)?;
            proof {
                lemma_view_object_field_seq_push(v@, x);
                lemma_prepend_push(view_object_field_seq(v@), view_object_field(x), g_object_fields(self.toks@, self.src@, (skip_if(self.toks@, q as int, Token::Comma)) as int));
            }
            v.push(x);
            p = self.skip_if(q, &Token::Comma);
        }
    }

    fn parse_enum_init_fields(&self, p0: usize) -> (r: Result<(Vec<EnumInitField>, usize), ParseError>)
        requires
            self.wf(),
            p0 <= self.toks@.len(),
        ensures
            agrees(r, g_enum_init_fields(self.toks@, self.src@, p0 as int), |v: Vec<EnumInitField>| view_enum_init_field_seq(v@)),
            r is Ok ==> p0 <= r->Ok_0.1 <= self.toks@.len(),
        decreases self.toks@.len() - p0, 2nat,
    {
        let mut v: Vec<EnumInitField> = Vec::new();
        let mut p: usize = p0;
        loop
            invariant
                self.wf(),
                p0 <= p <= self.toks@.len(),
                g_enum_init_fields(self.toks@, self.src@, p0 as int) == prepend(view_enum_init_field_seq(v@), g_enum_init_fields(self.toks@, self.src@, p as int)),
            decreases self.toks@.len() - p,
        {
            if self.is_at(p, &Token::RBrace) {
                return Ok((v, p));
            }
            let (x, q) = self.parse_enum_init_field(p)?;
            proof {
                lemma_view_enum_init_field_seq_push(v@, x);
                lemma_prepend_push(view_enum_init_field_seq(v@), view_enum_init_field(x), g_enum_init_fields(self.toks@, self.src@, (skip_if(self.toks@, q as int, Token::Comma)) as int));
            }
            v.push(x);
            p = self.skip_if(q, &Token::Comma);
        }
    }

    fn parse_match_arms(&self, p0: usize) -> (r: Result<(Vec<MatchArm>, usize), ParseError>)
        requires
            self.wf(),
            p0 <= self.toks@.len(),
        ensures
            agrees(r, g_match_arms(self.toks@, self.src@, p0 as int), |v: Vec<MatchArm>| view_match_arm_seq(v@)),
            r is Ok ==> p0 <= r->Ok_0.1 <= self.toks@.len(),
        decreases self.toks@.len() - p0, 2nat,
    {
        let mut v: Vec<MatchArm> = Vec::new();
        let mut p: usize = p0;
        loop
            invariant
                self.wf(),
                p0 <= p <= self.toks@.len(),
                g_match_arms(self.toks@, self.src@, p0 as int) == prepend(view_match_arm_seq(v@), g_match_arms(self.toks@, self.src@, p as int)),
            decreases self.toks@.len() - p,
        {
            if p >= self.toks.len() || self.is_at(p, &Token::RBrace) {
                return Ok((v, p));
            }
            let (x, q) = self.parse_match_arm(p)?;
            proof {
                lemma_view_match_arm_seq_push(v@, x);
                lemma_prepend_push(view_match_arm_seq(v@), view_match_arm(x), g_match_arms(self.toks@, self.src@, (skip_if(self.toks@, q as int, Token::Comma)) as int));
            }
            v.push(x);
            p = self.skip_if(q, &Token::Comma);
        }
    }


    // --------------------------------------------------------------
    // Declarations
    // --------------------------------------------------------------

    fn parse_param(&self, p: usize) -> (r: Result<(Param, usize), ParseError>)
        requires
            self.wf(),
            p <= self.toks@.len(),
        ensures
            agrees(r, g_param(self.toks@, p as int), |x: Param| view_param(x)),
            r is Ok ==> p < r->Ok_0.1 <= self.toks@.len(),
    {
        let (id, q) = self.parse_ident(p)?;
        let (ty, q2) = if string_eq_str(&id.sym, "this") && !self.is_at(q, &Token::Colon) {
            (Type::Any, q)
        } else {
            let (_, q1) = self.expect(q, Token::Colon)?;
            self.parse_type(q1)?
        };
        Ok((Param { span: id.span, ident: id, ty, is_comptime: false }, q2))
    }

    fn parse_params(&self, p: usize) -> (r: Result<(Vec<Param>, usize), ParseError>)
        requires
            self.wf(),
            p <= self.toks@.len(),
        ensures
            agrees(r, g_params(self.toks@, p as int), |v: Vec<Param>| view_param_seq(v@)),
            r is Ok ==> p < r->Ok_0.1 <= self.toks@.len(),
    {
        let (_, q) = self.expect(p, Token::LParen)?;
        let (ps, q1) = self.parse_param_list(q)?;
        let (_, q2) = self.expect(q1, Token::RParen)?;
        Ok((ps, q2))
    }

    fn parse_return_type(&self, p: usize) -> (r: Result<(Option<Type>, usize), ParseError>)
        requires
            self.wf(),
            p <= self.toks@.len(),
        ensures
            agrees(r, g_return_type(self.toks@, p as int), |x: Option<Type>| match x {
                Some(t) => Some(view_type(t)),
                None => None,
            }),
            r is Ok ==> p <= r->Ok_0.1 <= self.toks@.len(),
    {
        if self.is_at(p, &Token::Colon) {
            let (ty, q) = self.parse_type(p + 1)?;
            Ok((Some(ty), q))
        } else {
            Ok((None, p))
        }
    }

    fn parse_function(&self, p: usize) -> (r: Result<(Function, usize), ParseError>)
        requires
            self.wf(),
            p <= self.toks@.len(),
        ensures
            agrees(r, g_function(self.toks@, self.src@, p as int), |x: Function| view_function(x)),
            r is Ok ==> p < r->Ok_0.1 <= self.toks@.len(),
    {
        let start = self.peek_span(p).start;
        let is_async = self.is_at(p, &Token::Async);
        let (_, q) = self.expect(self.skip_if(p, &Token::Async), Token::Fn)?;
        let (ident, q1) = self.parse_ident(q)?;
        let (params, q2) = self.parse_params(q1)?;
        let (return_type, q3) = self.parse_return_type(q2)?;
        let (body, q4) = if self.is_at(q3, &Token::Semicolon) {
            let b = BlockStmt { span: self.toks[q3].span, body: Vec::new() };
            assert(view_block_stmt(b) == SBlockStmt { span: b.span, body: Seq::empty() }) by {
                assert(view_stmt_seq(Seq::<Stmt>::empty()) =~= Seq::<SStmt>::empty());
            }
            (b, q3 + 1)
        } else {
            self.parse_block_stmt(q3)?
        };
        let end = body.span.end;
        Ok((Function { span: Span { start, end }, ident, params, return_type, body, is_async }, q4))
    }

    fn parse_method_sig(&self, p: usize) -> (r: Result<(MethodSig, usize), ParseError>)
        requires
            self.wf(),
            p <= self.toks@.len(),
        ensures
            agrees(r, g_method_sig(self.toks@, p as int), |x: MethodSig| view_method_sig(x)),
            r is Ok ==> p < r->Ok_0.1 <= self.toks@.len(),
    {
        let m_start = self.peek_span(p).start;
        let (_, q) = self.expect(p, Token::Fn)?;
        let (ident, q1) = self.parse_ident(q)?;
        let (params, q2) = self.parse_params(q1)?;
        let (return_type, q3) = self.parse_return_type(q2)?;
        let (_, q4) = self.expect(q3, Token::Semicolon)?;
        let end = self.peek_span(q4).start;
        Ok((MethodSig { span: Span { start: m_start, end }, ident, params, return_type }, q4))
    }

    fn parse_enum_variant(&self, p: usize) -> (r: Result<(EnumVariant, usize), ParseError>)
        requires
            self.wf(),
            p <= self.toks@.len(),
        ensures
            agrees(r, g_enum_variant(self.toks@, self.src@, p as int), |x: EnumVariant| view_enum_variant(x)),
            r is Ok ==> p < r->Ok_0.1 <= self.toks@.len(),
    {
        let (ident, q) = self.parse_ident(p)?;
        let mut fields: Option<Vec<Field>> = None;
        let mut q2 = q;
        if self.is_at(q, &Token::LBrace) {
            let (fs, q1) = self.parse_type_fields(q + 1)?;
            let (_, qb) = self.expect(q1, Token::RBrace)?;
            fields = Some(fs);
            q2 = qb;
        }
        let mut value: Option<Expr> = None;
        let mut q3 = q2;
        if self.is_at(q2, &Token::Assign) {
            let (v, qv) = self.parse_expr(q2 + 1)?;
            value = Some(v);
            q3 = qv;
        }
        Ok((EnumVariant { span: ident.span, ident, fields, value }, q3))
    }

    /// Fields and methods of a class body up to `}`.
    fn parse_class_members(&self, p0: usize) -> (r: Result<((Vec<Field>, Vec<Function>), usize), ParseError>)
        requires
            self.wf(),
            p0 <= self.toks@.len(),
        ensures
            agrees(r, g_class_members(self.toks@, self.src@, p0 as int), |x: (Vec<Field>, Vec<Function>)|
                (view_field_seq(x.0@), view_function_seq(x.1@))),
            r is Ok ==> p0 <= r->Ok_0.1 <= self.toks@.len(),
    {
        let mut fields: Vec<Field> = Vec::new();
        let mut methods: Vec<Function> = Vec::new();
        let mut p: usize = p0;
        loop
            invariant
                self.wf(),
                p0 <= p <= self.toks@.len(),
                g_class_members(self.toks@, self.src@, p0 as int) == prepend2(
                    view_field_seq(fields@),
                    view_function_seq(methods@),
                    g_class_members(self.toks@, self.src@, p as int),
                ),
            decreases self.toks@.len() - p,
        {
            if self.is_at(p, &Token::RBrace) {
                return Ok(((fields, methods), p));
            }
            if self.is_at(p, &Token::Fn) || self.is_at(p, &Token::Async) {
                let (f, q) = self.parse_function(p)?;
                proof {
                    lemma_view_function_seq_push(methods@, f);
                    lemma_prepend2_push_right(view_field_seq(fields@), view_function_seq(methods@), view_function(f),
                        g_class_members(self.toks@, self.src@, q as int));
                }
                methods.push(f);
                p = q;
            } else {
                let (id, q) = self.parse_ident(p)?;
                let (_, q1) = self.expect(q, Token::Colon)?;
                let (ty, q2) = self.parse_type(q1)?;
                let q3 = if self.is_at(q2, &Token::Comma) || self.is_at(q2, &Token::Semicolon) { q2 + 1 } else { q2 };
                let field = Field { span: id.span, ident: id, ty };
                proof {
                    lemma_view_field_seq_push(fields@, field);
                    lemma_prepend2_push_left(view_field_seq(fields@), view_function_seq(methods@), view_field(field),
                        g_class_members(self.toks@, self.src@, q3 as int));
                }
                fields.push(field);
                p = q3;
            }
        }
    }

    fn parse_class(&self, p: usize) -> (r: Result<(Class, usize), ParseError>)
        requires
            self.wf(),
            p <= self.toks@.len(),
        ensures
            agrees(r, g_class(self.toks@, self.src@, p as int), |x: Class| view_class(x)),
            r is Ok ==> p < r->Ok_0.1 <= self.toks@.len(),
    {
        let (sp, q) = self.expect(p, Token::Class)?;
        let (ident, q1) = self.parse_ident(q)?;
        let mut implements: Vec<Ident> = Vec::new();
        let mut q2 = q1;
        proof {
            assert(view_ident_seq(implements@) =~= Seq::<SIdent>::empty());
        }
        if self.is_at(q1, &Token::Extends) {
            let (base, qb) = self.parse_ident(q1 + 1)?;
            proof {
                lemma_view_ident_seq_push(implements@, base);
                assert(view_ident_seq(implements@.push(base)) =~= seq![view_ident(base)]);
            }
            implements.push(base);
            q2 = qb;
        }
        let (_, q3) = self.expect(q2, Token::LBrace)?;
        let ((fields, methods), q4) = self.parse_class_members(q3)?;
        let (esp, q5) = self.expect(q4, Token::RBrace)?;
        Ok((Class { span: Span { start: sp.start, end: esp.end }, ident, implements, fields, methods }, q5))
    }

    fn parse_trait(&self, p: usize) -> (r: Result<(TraitDecl, usize), ParseError>)
        requires
            self.wf(),
            p <= self.toks@.len(),
        ensures
            agrees(r, g_trait(self.toks@, p as int), |x: TraitDecl| view_trait_decl(x)),
            r is Ok ==> p < r->Ok_0.1 <= self.toks@.len(),
    {
        let (sp, q) = self.expect(p, Token::Trait)?;
        let (ident, q1) = self.parse_ident(q)?;
        let (_, q2) = self.expect(q1, Token::LBrace)?;
        let (methods, q3) = self.parse_trait_methods(q2)?;
        let (esp, q4) = self.expect(q3, Token::RBrace)?;
        Ok((TraitDecl { span: Span { start: sp.start, end: esp.end }, ident, methods }, q4))
    }

    fn parse_impl(&self, p: usize) -> (r: Result<(ImplDecl, usize), ParseError>)
        requires
            self.wf(),
            p <= self.toks@.len(),
        ensures
            agrees(r, g_impl(self.toks@, self.src@, p as int), |x: ImplDecl| view_impl_decl(x)),
            r is Ok ==> p < r->Ok_0.1 <= self.toks@.len(),
    {
        let (sp, q) = self.expect(p, Token::Impl)?;
        let (trait_name, q1) = self.parse_ident(q)?;
        let (_, q2) = self.expect(q1, Token::For)?;
        let (target_name, q3) = self.parse_ident(q2)?;
        let (_, q4) = self.expect(q3, Token::LBrace)?;
        let (methods, q5) = self.parse_functions(q4)?;
        let (esp, q6) = self.expect(q5, Token::RBrace)?;
        Ok((ImplDecl { span: Span { start: sp.start, end: esp.end }, trait_name, target_name, methods }, q6))
    }

    fn parse_enum(&self, p: usize) -> (r: Result<(EnumDecl, usize), ParseError>)
        requires
            self.wf(),
            p <= self.toks@.len(),
        ensures
            agrees(r, g_enum(self.toks@, self.src@, p as int), |x: EnumDecl| view_enum_decl(x)),
            r is Ok ==> p < r->Ok_0.1 <= self.toks@.len(),
    {
        let (sp, q) = self.expect(p, Token::Enum)?;
        let (ident, q1) = self.parse_ident(q)?;
        let (_, q2) = self.expect(q1, Token::LBrace)?;
        let (variants, q3) = self.parse_enum_variants(q2)?;
        let (esp, q4) = self.expect(q3, Token::RBrace)?;
        Ok((EnumDecl { span: Span { start: sp.start, end: esp.end }, ident, variants }, q4))
    }

    fn parse_error_set(&self, p: usize) -> (r: Result<(ErrorSetDecl, usize), ParseError>)
        requires
            self.wf(),
            p <= self.toks@.len(),
        ensures
            agrees(r, g_error_set(self.toks@, p as int), |x: ErrorSetDecl| view_error_set_decl(x)),
            r is Ok ==> p < r->Ok_0.1 <= self.toks@.len(),
    {
        let (sp, q) = self.expect(p, Token::ErrorKw)?;
        let (ident, q1) = self.parse_ident(q)?;
        let (_, q2) = self.expect(q1, Token::LBrace)?;
        let (variants, q3) = self.parse_ident_list(q2)?;
        let (esp, q4) = self.expect(q3, Token::RBrace)?;
        Ok((ErrorSetDecl { span: Span { start: sp.start, end: esp.end }, ident, variants }, q4))
    }

    fn parse_decl(&self, p: usize) -> (r: Result<(Decl, usize), ParseError>)
        requires
            self.wf(),
            p <= self.toks@.len(),
        ensures
            agrees(r, g_decl(self.toks@, self.src@, p as int), |x: Decl| view_decl(x)),
            r is Ok ==> p < r->Ok_0.1 <= self.toks@.len(),
    {
        if self.is_at(p, &Token::Fn) || self.is_at(p, &Token::Async) {
            let (f, q) = self.parse_function(p)?;
            return Ok((Decl::Func(f), q));
        }
        if self.is_at(p, &Token::Class) {
            let (c, q) = self.parse_class(p)?;
            return Ok((Decl::Class(c), q));
        }
        if self.is_at(p, &Token::Trait) {
            let (x, q) = self.parse_trait(p)?;
            return Ok((Decl::Trait(x), q));
        }
        if self.is_at(p, &Token::Impl) {
            let (x, q) = self.parse_impl(p)?;
            return Ok((Decl::Impl(x), q));
        }
        if self.is_at(p, &Token::Enum) {
            let (x, q) = self.parse_enum(p)?;
            return Ok((Decl::Enum(x), q));
        }
        if self.is_at(p, &Token::ErrorKw) {
            let (x, q) = self.parse_error_set(p)?;
            return Ok((Decl::ErrorSet(x), q));
        }
        if p >= self.toks.len() {
            return Err(ParseError::EndOfInput);
        }
        Err(ParseError::UnexpectedToken(clone_token(&self.toks[p].token), self.peek_span(p + 1)))
    }

    fn parse_import_stmt(&self, p: usize) -> (r: Result<(ImportStmt, usize), ParseError>)
        requires
            self.wf(),
            p <= self.toks@.len(),
        ensures
            agrees(r, g_import(self.toks@, p as int), |x: ImportStmt| view_import_stmt(x)),
            r is Ok ==> p < r->Ok_0.1 <= self.toks@.len(),
    {
        let (sp, q) = self.expect(p, Token::Import)?;
        let (_, q1) = self.expect(q, Token::LBrace)?;
        let (specifiers, q2) = self.parse_specifiers(q1)?;
        let (_, q3) = self.expect(q2, Token::RBrace)?;
        let (_, q4) = self.expect(q3, Token::From)?;
        if q4 >= self.toks.len() {
            return Err(ParseError::EndOfInput);
        }
        match &self.toks[q4].token {
            Token::StringLiteral(x) => {
                let end = self.toks[q4].span.end;
                let q5 = self.skip_if(q4 + 1, &Token::Semicolon);
                Ok((ImportStmt { span: Span { start: sp.start, end }, specifiers, source: x.clone() }, q5))
            },
            _ => Err(ParseError::ExpectedToken(
                Token::StringLiteral(string_of_lit("source")),
                clone_token(&self.toks[q4].token),
                self.toks[q4].span,
            )),
        }
    }

    /// The token at `p` starts a declaration.
    fn starts_decl(&self, p: usize) -> (r: bool)
        ensures
            r == starts_decl(self.toks@, p as int),
    {
        self.is_at(p, &Token::Fn) || self.is_at(p, &Token::Class) || self.is_at(p, &Token::Interface)
            || self.is_at(p, &Token::ErrorKw) || self.is_at(p, &Token::Trait) || self.is_at(p, &Token::Impl)
            || self.is_at(p, &Token::Enum) || self.is_at(p, &Token::Async)
    }

    fn parse_module_item(&self, p: usize) -> (r: Result<(ModuleItem, usize), ParseError>)
        requires
            self.wf(),
            p <= self.toks@.len(),
        ensures
            agrees(r, g_module_item(self.toks@, self.src@, p as int), |x: ModuleItem| view_module_item(x)),
            r is Ok ==> p < r->Ok_0.1 <= self.toks@.len(),
    {
        let p1 = self.skip_if(p, &Token::Export);
        if self.is_at(p1, &Token::Import) {
            let (x, q) = self.parse_import_stmt(p1)?;
            return Ok((ModuleItem::Import(x), q));
        }
        if self.starts_decl(p1) {
            let (x, q) = self.parse_decl(p1)?;
            return Ok((ModuleItem::Decl(x), q));
        }
        let (x, q) = self.parse_stmt(p1)?;
        Ok((ModuleItem::Stmt(x), q))
    }

    fn parse_param_list(&self, p0: usize) -> (r: Result<(Vec<Param>, usize), ParseError>)
        requires
            self.wf(),
            p0 <= self.toks@.len(),
        ensures
            agrees(r, g_param_list(self.toks@, p0 as int), |v: Vec<Param>| view_param_seq(v@)),
            r is Ok ==> p0 <= r->Ok_0.1 <= self.toks@.len(),
    {
        let mut v: Vec<Param> = Vec::new();
        let mut p: usize = p0;
        loop
            invariant
                self.wf(),
                p0 <= p <= self.toks@.len(),
                g_param_list(self.toks@, p0 as int) == prepend(view_param_seq(v@), g_param_list(self.toks@, p as int)),
            decreases self.toks@.len() - p,
        {
            if self.is_at(p, &Token::RParen) {
                return Ok((v, p));
            }
            let (x, q) = self.parse_param(p)?;
            proof {
                lemma_view_param_seq_push(v@, x);
                lemma_prepend_push(view_param_seq(v@), view_param(x), g_param_list(self.toks@, (skip_if(self.toks@, q as int, Token::Comma)) as int));
            }
            v.push(x);
            p = self.skip_if(q, &Token::Comma);
        }
    }

    fn parse_trait_methods(&self, p0: usize) -> (r: Result<(Vec<MethodSig>, usize), ParseError>)
        requires
            self.wf(),
            p0 <= self.toks@.len(),
        ensures
            agrees(r, g_trait_methods(self.toks@, p0 as int), |v: Vec<MethodSig>| view_method_sig_seq(v@)),
            r is Ok ==> p0 <= r->Ok_0.1 <= self.toks@.len(),
    {
        let mut v: Vec<MethodSig> = Vec::new();
        let mut p: usize = p0;
        loop
            invariant
                self.wf(),
                p0 <= p <= self.toks@.len(),
                g_trait_methods(self.toks@, p0 as int) == prepend(view_method_sig_seq(v@), g_trait_methods(self.toks@, p as int)),
            decreases self.toks@.len() - p,
        {
            if self.is_at(p, &Token::RBrace) {
                return Ok((v, p));
            }
            let (x, q) = self.parse_method_sig(p)?;
            proof {
                lemma_view_method_sig_seq_push(v@, x);
                lemma_prepend_push(view_method_sig_seq(v@), view_method_sig(x), g_trait_methods(self.toks@, (q) as int));
            }
            v.push(x);
            p = q;
        }
    }

    fn parse_functions(&self, p0: usize) -> (r: Result<(Vec<Function>, usize), ParseError>)
        requires
            self.wf(),
            p0 <= self.toks@.len(),
        ensures
            agrees(r, g_functions(self.toks@, self.src@, p0 as int), |v: Vec<Function>| view_function_seq(v@)),
            r is Ok ==> p0 <= r->Ok_0.1 <= self.toks@.len(),
    {
        let mut v: Vec<Function> = Vec::new();
        let mut p: usize = p0;
        loop
            invariant
                self.wf(),
                p0 <= p <= self.toks@.len(),
                g_functions(self.toks@, self.src@, p0 as int) == prepend(view_function_seq(v@), g_functions(self.toks@, self.src@, p as int)),
            decreases self.toks@.len() - p,
        {
            if self.is_at(p, &Token::RBrace) {
                return Ok((v, p));
            }
            let (x, q) = self.parse_function(p)?;
            proof {
                lemma_view_function_seq_push(v@, x);
                lemma_prepend_push(view_function_seq(v@), view_function(x), g_functions(self.toks@, self.src@, (q) as int));
            }
            v.push(x);
            p = q;
        }
    }

    fn parse_enum_variants(&self, p0: usize) -> (r: Result<(Vec<EnumVariant>, usize), ParseError>)
        requires
            self.wf(),
            p0 <= self.toks@.len(),
        ensures
            agrees(r, g_enum_variants(self.toks@, self.src@, p0 as int), |v: Vec<EnumVariant>| view_enum_variant_seq(v@)),
            r is Ok ==> p0 <= r->Ok_0.1 <= self.toks@.len(),
    {
        let mut v: Vec<EnumVariant> = Vec::new();
        let mut p: usize = p0;
        loop
            invariant
                self.wf(),
                p0 <= p <= self.toks@.len(),
                g_enum_variants(self.toks@, self.src@, p0 as int) == prepend(view_enum_variant_seq(v@), g_enum_variants(self.toks@, self.src@, p as int)),
            decreases self.toks@.len() - p,
        {
            if self.is_at(p, &Token::RBrace) {
                return Ok((v, p));
            }
            let (x, q) = self.parse_enum_variant(p)?;
            proof {
                lemma_view_enum_variant_seq_push(v@, x);
                lemma_prepend_push(view_enum_variant_seq(v@), view_enum_variant(x), g_enum_variants(self.toks@, self.src@, (skip_if(self.toks@, q as int, Token::Comma)) as int));
            }
            v.push(x);
            p = self.skip_if(q, &Token::Comma);
        }
    }

    fn parse_ident_list(&self, p0: usize) -> (r: Result<(Vec<Ident>, usize), ParseError>)
        requires
            self.wf(),
            p0 <= self.toks@.len(),
        ensures
            agrees(r, g_ident_list(self.toks@, p0 as int), |v: Vec<Ident>| view_ident_seq(v@)),
            r is Ok ==> p0 <= r->Ok_0.1 <= self.toks@.len(),
    {
        let mut v: Vec<Ident> = Vec::new();
        let mut p: usize = p0;
        loop
            invariant
                self.wf(),
                p0 <= p <= self.toks@.len(),
                g_ident_list(self.toks@, p0 as int) == prepend(view_ident_seq(v@), g_ident_list(self.toks@, p as int)),
            decreases self.toks@.len() - p,
        {
            if self.is_at(p, &Token::RBrace) {
                return Ok((v, p));
            }
            let (x, q) = self.parse_ident(p)?;
            proof {
                lemma_view_ident_seq_push(v@, x);
                lemma_prepend_push(view_ident_seq(v@), view_ident(x), g_ident_list(self.toks@, (skip_if(self.toks@, q as int, Token::Comma)) as int));
            }
            v.push(x);
            p = self.skip_if(q, &Token::Comma);
        }
    }

    fn parse_specifiers(&self, p0: usize) -> (r: Result<(Vec<Ident>, usize), ParseError>)
        requires
            self.wf(),
            p0 <= self.toks@.len(),
        ensures
            agrees(r, g_specifiers(self.toks@, p0 as int), |v: Vec<Ident>| view_ident_seq(v@)),
            r is Ok ==> p0 <= r->Ok_0.1 <= self.toks@.len(),
    {
        let mut v: Vec<Ident> = Vec::new();
        let mut p: usize = p0;
        loop
            invariant
                self.wf(),
                p0 <= p <= self.toks@.len(),
                g_specifiers(self.toks@, p0 as int) == prepend(view_ident_seq(v@), g_specifiers(self.toks@, p as int)),
            decreases self.toks@.len() - p,
        {
            if p >= self.toks.len() || self.is_at(p, &Token::RBrace) {
                return Ok((v, p));
            }
            let (x, q) = self.parse_ident(p)?;
            proof {
                lemma_view_ident_seq_push(v@, x);
                lemma_prepend_push(view_ident_seq(v@), view_ident(x), g_specifiers(self.toks@, (skip_if(self.toks@, q as int, Token::Comma)) as int));
            }
            v.push(x);
            p = self.skip_if(q, &Token::Comma);
        }
    }

    fn parse_module_items(&self, p0: usize) -> (r: Result<(Vec<ModuleItem>, usize), ParseError>)
        requires
            self.wf(),
            p0 <= self.toks@.len(),
        ensures
            agrees(r, g_module_items(self.toks@, self.src@, p0 as int), |v: Vec<ModuleItem>| view_module_item_seq(v@)),
            r is Ok ==> p0 <= r->Ok_0.1 <= self.toks@.len(),
    {
        let mut v: Vec<ModuleItem> = Vec::new();
        let mut p: usize = p0;
        loop
            invariant
                self.wf(),
                p0 <= p <= self.toks@.len(),
                g_module_items(self.toks@, self.src@, p0 as int) == prepend(view_module_item_seq(v@), g_module_items(self.toks@, self.src@, p as int)),
            decreases self.toks@.len() - p,
        {
            if p >= self.toks.len() {
                return Ok((v, p));
            }
            let (x, q) = self.parse_module_item(p)?;
            proof {
                lemma_view_module_item_seq_push(v@, x);
                lemma_prepend_push(view_module_item_seq(v@), view_module_item(x), g_module_items(self.toks@, self.src@, (q) as int));
            }
            v.push(x);
            p = q;
        }
    }

    /// The module that the whole token stream forms.
    pub fn parse_module(&mut self) -> (r: ParseResult<Module>)
        requires
            old(self).wf(),
        ensures
            final(self).wf(),
            final(self).tokens() == old(self).tokens(),
            final(self).source() == old(self).source(),
            match g_module(old(self).tokens(), old(self).source(), old(self).position()) {
                Ok((m, _)) => r is Ok && view_module(r->Ok_0) == m,
                Err(e) => r is Err && err_agrees(r->Err_0, e),
            },
            r is Ok ==> final(self).position() == final(self).tokens().len(),
    {
        proof {
            lemma_module_items_reach_end(self.toks@, self.src@, self.pos as int);
        }
        let start = self.peek_span(self.pos).start;
        let (body, q) = match self.parse_module_items(self.pos) {
            Ok(x) => x,
            Err(e) => return Err(e),
        };
        let end = self.peek_span(q).end;
        self.pos = q;
        Ok(Module { span: Span { start, end }, body })
    }


}

/// Scans the tokens of a `__zig__` block from `q0`, one brace deep: the
/// position after the closing brace (or the end of input) and where the raw
/// code ends.
pub fn zig_scan_tokens(toks: &Vec<Tok>, n: usize, q0: usize, cs: usize) -> (r: (usize, usize))
    requires
        tokens_ordered(toks@, n as int),
        1 <= q0 <= toks@.len(),
        q0 < toks@.len() ==> cs == toks@[q0 as int].char_start,
        q0 == toks@.len() ==> cs == 0,
    ensures
        (r.0 as int, r.1 as int) == zig_scan(toks@, q0 as int, 1, cs as int),
        q0 <= r.0 <= toks@.len(),
        cs <= r.1 <= n,
{
    let mut q = q0;
    let mut depth: usize = 1;
    let mut code_end = cs;
    while depth > 0 && q < toks.len()
        invariant
            tokens_ordered(toks@, n as int),
            1 <= q0 <= q <= toks@.len(),
            depth <= q - q0 + 1,
            zig_scan(toks@, q0 as int, 1, cs as int) == zig_scan(toks@, q as int, depth as int, code_end as int),
            cs <= code_end <= n,
            q0 < toks@.len() ==> cs == toks@[q0 as int].char_start,
            q0 == toks@.len() ==> cs == 0,
        decreases toks@.len() - q,
    {
        let d2: usize = if token_is(&toks[q].token, &Token::LBrace) {
            depth + 1
        } else if token_is(&toks[q].token, &Token::RBrace) {
            depth - 1
        } else {
            depth
        };
        if d2 == 0 {
            code_end = toks[q].char_start;
        }
        depth = d2;
        q = q + 1;
    }
    (q, code_end)
}

/// The characters `a..b` of `s` without leading and trailing whitespace.
pub fn trimmed(s: &Vec<char>, a: usize, b: usize) -> (r: std::string::String)
    requires
        a <= b <= s@.len(),
    ensures
        r@ == trim(s@.subrange(a as int, b as int)),
{
    let mut i = a;
    while i < b && is_whitespace_char(s[i])
        invariant
            a <= i <= b <= s@.len(),
            trim_start(s@.subrange(a as int, b as int)) == trim_start(s@.subrange(i as int, b as int)),
        decreases b - i,
    {
        assert(s@.subrange(i as int, b as int).drop_first() =~= s@.subrange(i + 1, b as int));
        i = i + 1;
    }
    let mut j = b;
    while j > i && is_whitespace_char(s[j - 1])
        invariant
            i <= j <= b <= s@.len(),
            trim_end(s@.subrange(i as int, b as int)) == trim_end(s@.subrange(i as int, j as int)),
        decreases j - i,
    {
        assert(s@.subrange(i as int, j as int).drop_last() =~= s@.subrange(i as int, j - 1));
        j = j - 1;
    }
    let mut r = std::string::String::new();
    let mut k = i;
    while k < j
        invariant
            i <= k <= j <= s@.len(),
            r@ == s@.subrange(i as int, k as int),
        decreases j - k,
    {
        push_char(&mut r, s[k]);
        assert(r@ =~= s@.subrange(i as int, k + 1));
        k = k + 1;
    }
    r
}


/// `c` is whitespace (Unicode `White_Space`).
pub fn is_whitespace_char(c: char) -> (r: bool)
    ensures
        r == is_whitespace(c),
{
    let v = c as u32;
    (0x9 <= v && v <= 0xd) || v == 0x20 || v == 0x85 || v == 0xa0 || v == 0x1680
        || (0x2000 <= v && v <= 0x200a) || v == 0x2028 || v == 0x2029 || v == 0x202f
        || v == 0x205f || v == 0x3000
}

/// The span an expression reports as its start.
fn left_span(e: &Expr) -> (r: Span)
    ensures
        r == s_left_span(view_expr(*e)),
    decreases e,
{
    match e {
        Expr::Ident(i) => {
            let r = i.span;
            assert(r == s_left_span(view_expr(*e)));
            r
        },
        Expr::Lit(_) => {
            let r = Span { start: 0, end: 0 };
            assert(r == s_left_span(view_expr(*e)));
            r
        },
        Expr::Bin(b) => {
            let r = b.span;
            assert(r == s_left_span(view_expr(*e)));
            r
        },
        Expr::Call(c) => {
            let r = c.span;
            assert(r == s_left_span(view_expr(*e)));
            r
        },
        Expr::New(c) => {
            let r = c.span;
            assert(r == s_left_span(view_expr(*e)));
            r
        },
        Expr::Member(m) => {
            let r = m.span;
            assert(r == s_left_span(view_expr(*e)));
            r
        },
        Expr::Slice(x) => {
            let r = x.span;
            assert(r == s_left_span(view_expr(*e)));
            r
        },
        Expr::Match(m) => {
            let r = m.span;
            assert(r == s_left_span(view_expr(*e)));
            r
        },
        Expr::Spawn(x) => {
            let r = x.span;
            assert(r == s_left_span(view_expr(*e)));
            r
        },
        Expr::Receive(_) => {
            let r = Span { start: 0, end: 0 };
            assert(r == s_left_span(view_expr(*e)));
            r
        },
        Expr::Zig(z) => {
            let r = z.span;
            assert(r == s_left_span(view_expr(*e)));
            r
        },
        Expr::Question(inner) => {
            let r = left_span(inner);
            assert(r == s_left_span(view_expr(*e)));
            r
        },
        Expr::Array(_) => {
            let r = Span { start: 0, end: 0 };
            assert(r == s_left_span(view_expr(*e)));
            r
        },
        Expr::Object(_) => {
            let r = Span { start: 0, end: 0 };
            assert(r == s_left_span(view_expr(*e)));
            r
        },
        Expr::Arrow(a) => {
            let r = a.span;
            assert(r == s_left_span(view_expr(*e)));
            r
        },
        Expr::EnumInit(x) => {
            let r = x.span;
            assert(r == s_left_span(view_expr(*e)));
            r
        },
        Expr::Template(x) => {
            let r = x.span;
            assert(r == s_left_span(view_expr(*e)));
            r
        },
        Expr::Await(inner) => {
            let r = left_span(inner);
            assert(r == s_left_span(view_expr(*e)));
            r
        },
        Expr::Builtin(b) => {
            let r = b.span;
            assert(r == s_left_span(view_expr(*e)));
            r
        },
    }
}

/// The span an expression reports as its end.
fn right_span(e: &Expr) -> (r: Span)
    ensures
        r == s_right_span(view_expr(*e)),
    decreases e,
{
    match e {
        Expr::Ident(i) => {
            let r = i.span;
            assert(r == s_right_span(view_expr(*e)));
            r
        },
        Expr::Lit(_) => {
            let r = Span { start: 0, end: 0 };
            assert(r == s_right_span(view_expr(*e)));
            r
        },
        Expr::Bin(b) => {
            let r = right_span(&b.right);
            assert(r == s_right_span(view_expr(*e)));
            r
        },
        Expr::Call(c) => {
            let r = Span { start: 0, end: c.span.end };
            assert(r == s_right_span(view_expr(*e)));
            r
        },
        Expr::New(c) => {
            let r = Span { start: 0, end: c.span.end };
            assert(r == s_right_span(view_expr(*e)));
            r
        },
        Expr::Member(m) => {
            let r = m.span;
            assert(r == s_right_span(view_expr(*e)));
            r
        },
        Expr::Slice(x) => {
            let r = x.span;
            assert(r == s_right_span(view_expr(*e)));
            r
        },
        Expr::Match(m) => {
            let r = m.span;
            assert(r == s_right_span(view_expr(*e)));
            r
        },
        Expr::Spawn(x) => {
            let r = x.span;
            assert(r == s_right_span(view_expr(*e)));
            r
        },
        Expr::Receive(_) => {
            let r = Span { start: 0, end: 0 };
            assert(r == s_right_span(view_expr(*e)));
            r
        },
        Expr::Zig(z) => {
            let r = z.span;
            assert(r == s_right_span(view_expr(*e)));
            r
        },
        Expr::Question(inner) => {
            let r = right_span(inner);
            assert(r == s_right_span(view_expr(*e)));
            r
        },
        Expr::Array(_) => {
            let r = Span { start: 0, end: 0 };
            assert(r == s_right_span(view_expr(*e)));
            r
        },
        Expr::Object(_) => {
            let r = Span { start: 0, end: 0 };
            assert(r == s_right_span(view_expr(*e)));
            r
        },
        Expr::Arrow(a) => {
            let r = a.span;
            assert(r == s_right_span(view_expr(*e)));
            r
        },
        Expr::EnumInit(x) => {
            let r = x.span;
            assert(r == s_right_span(view_expr(*e)));
            r
        },
        Expr::Template(x) => {
            let r = x.span;
            assert(r == s_right_span(view_expr(*e)));
            r
        },
        Expr::Await(inner) => {
            let r = right_span(inner);
            assert(r == s_right_span(view_expr(*e)));
            r
        },
        Expr::Builtin(b) => {
            let r = b.span;
            assert(r == s_right_span(view_expr(*e)));
            r
        },
    }
}

/// The parameters of an arrow function whose left side is `left`.
fn arrow_params(left: &Expr) -> (r: Vec<Pattern>)
    ensures
        view_pattern_seq(r@) == arrow_params_of(view_expr(*left)),
{
    match left {
        Expr::Ident(id) => {
            let mut v: Vec<Pattern> = Vec::new();
            let pat = Pattern::Ident(clone_ident(id));
            proof { lemma_view_pattern_seq_push(v@, pat); }
            v.push(pat);
            proof {
                assert(view_pattern_seq(Seq::<Pattern>::empty()) =~= Seq::<SPattern>::empty());
            }
            v
        },
        Expr::Array(elems) => {
            let mut pats: Vec<Pattern> = Vec::new();
            let mut i: usize = 0;
            proof { lemma_view_expr_seq_index(elems@); }
            while i < elems.len()
                invariant
                    i <= elems@.len(),
                    pats@.len() == i,
                    view_pattern_seq(pats@) == Seq::new(i as nat, |j: int| match view_expr(elems@[j]) {
                        SExpr::Ident(id) => SPattern::Ident(id),
                        _ => SPattern::Wildcard,
                    }),
                decreases elems@.len() - i,
            {
                let pat = match &elems[i] {
                    Expr::Ident(id) => Pattern::Ident(clone_ident(id)),
                    _ => Pattern::Wildcard,
                };
                proof { lemma_view_pattern_seq_push(pats@, pat); }
                pats.push(pat);
                i = i + 1;
                proof {
                    assert(view_pattern_seq(pats@) =~= Seq::new(i as nat, |j: int| match view_expr(elems@[j]) {
                        SExpr::Ident(id) => SPattern::Ident(id),
                        _ => SPattern::Wildcard,
                    }));
                }
            }
            proof {
                lemma_view_expr_seq_index(elems@);
                assert(view_pattern_seq(pats@) =~= arrow_params_of(view_expr(*left)));
            }
            pats
        },
        _ => Vec::new(),
    }
}

} // verus!

//! Semantic analysis: scopes, name resolution and type inference over a
//! parsed module.
use vstd::prelude::*;
use crate::Span;
use crate::text::{string_eq_str, starts_with_char, string_eq, string_of_lit};
use crate::ast::{Module, ModuleItem, Decl, Function, Class, TraitDecl, EnumDecl, Stmt, BlockStmt, VarDeclKind, Pattern, Expr, Ident, Lit, BinaryOp, Type, Field, Param, MatchArm, ObjectField, ObjectPatProp, BinExpr, BuiltinCall};
use crate::ast::{SModule, SModuleItem, SDecl, SFunction, SClass, STraitDecl, SEnumDecl, SStmt, SBlockStmt, SPattern, SExpr, SIdent, SLit, SBinExpr, SBuiltinCall, SCallExpr, SType, SField, SParam, SMatchArm, SObjectField, SObjectPatProp};
use crate::ast::{view_module, view_module_item, view_decl, view_function, view_class, view_trait_decl, view_enum_decl, view_stmt, view_block_stmt, view_pattern, view_expr, view_ident, view_type, view_field, view_param, view_match_arm, view_object_field, view_object_pat_prop};
use crate::ast::{view_type_seq, view_field_seq, view_stmt_seq, view_expr_seq, view_param_seq, view_function_seq, view_match_arm_seq, view_object_field_seq, view_object_pat_prop_seq, view_pattern_seq, view_module_item_seq};
use crate::ast::{lemma_view_type_seq_push, lemma_view_field_seq_push, lemma_view_type_seq_index, lemma_view_field_seq_index, lemma_view_stmt_seq_index, lemma_view_expr_seq_index, lemma_view_param_seq_index, lemma_view_function_seq_index, lemma_view_match_arm_seq_index, lemma_view_object_field_seq_index, lemma_view_object_pat_prop_seq_index, lemma_view_pattern_seq_index, lemma_view_module_item_seq_index};
use crate::ast::{clone_type, clone_type_vec, clone_class, clone_trait_decl, clone_enum_decl, clone_ident};

verus! {

// ------------------------------------------------------------------
// Symbols and errors
// ------------------------------------------------------------------

/// What a name stands for.
pub enum SymbolKind {
    Var { ty: Type, kind: VarDeclKind },
    Func { params: Vec<Type>, ret: Option<Type>, is_async: bool },
    Class(Class),
    Trait(TraitDecl),
    Enum(EnumDecl),
}

/// The mathematical form of a [`SymbolKind`].
pub enum SSymbolKind {
    Var { ty: SType, kind: VarDeclKind },
    Func { params: Seq<SType>, ret: Option<SType>, is_async: bool },
    Class(SClass),
    Trait(STraitDecl),
    Enum(SEnumDecl),
}

pub open spec fn view_symbol_kind(k: SymbolKind) -> SSymbolKind {
    match k {
        SymbolKind::Var { ty, kind } => SSymbolKind::Var { ty: view_type(ty), kind },
        SymbolKind::Func { params, ret, is_async } => SSymbolKind::Func {
            params: view_type_seq(params@),
            ret: match ret { Some(t) => Some(view_type(t)), None => None },
            is_async,
        },
        SymbolKind::Class(c) => SSymbolKind::Class(view_class(c)),
        SymbolKind::Trait(t) => SSymbolKind::Trait(view_trait_decl(t)),
        SymbolKind::Enum(e) => SSymbolKind::Enum(view_enum_decl(e)),
    }
}

impl View for SymbolKind {
    type V = SSymbolKind;

    open spec fn view(&self) -> SSymbolKind {
        view_symbol_kind(*self)
    }
}

/// A copy of a symbol.
pub fn clone_symbol_kind(k: &SymbolKind) -> (r: SymbolKind)
    ensures
        view_symbol_kind(r) == view_symbol_kind(*k),
{
    match k {
        SymbolKind::Var { ty, kind } => SymbolKind::Var { ty: clone_type(ty), kind: *kind },
        SymbolKind::Func { params, ret, is_async } => SymbolKind::Func {
            params: clone_type_vec(params),
            ret: match ret { Some(t) => Some(clone_type(t)), None => None },
            is_async: *is_async,
        },
        SymbolKind::Class(c) => SymbolKind::Class(clone_class(c)),
        SymbolKind::Trait(t) => SymbolKind::Trait(clone_trait_decl(t)),
        SymbolKind::Enum(e) => SymbolKind::Enum(clone_enum_decl(e)),
    }
}

/// A semantic error.
#[derive(Debug)]
pub enum SemaError {
    UndefinedSymbol(std::string::String, Span),
    TypeMismatch(Type, Type, Span),
    NotAFunction(Span),
    ConstAssignment(std::string::String, Span),
    InvalidAwait(Span),
    AwaitOutsideAsync(Span),
}

/// The mathematical form of a [`SemaError`].
pub enum SSemaError {
    UndefinedSymbol(Seq<char>, Span),
    TypeMismatch(SType, SType, Span),
    NotAFunction(Span),
    ConstAssignment(Seq<char>, Span),
    InvalidAwait(Span),
    AwaitOutsideAsync(Span),
}

pub open spec fn view_sema_error(e: SemaError) -> SSemaError {
    match e {
        SemaError::UndefinedSymbol(n, s) => SSemaError::UndefinedSymbol(n@, s),
        SemaError::TypeMismatch(a, b, s) => SSemaError::TypeMismatch(view_type(a), view_type(b), s),
        SemaError::NotAFunction(s) => SSemaError::NotAFunction(s),
        SemaError::ConstAssignment(n, s) => SSemaError::ConstAssignment(n@, s),
        SemaError::InvalidAwait(s) => SSemaError::InvalidAwait(s),
        SemaError::AwaitOutsideAsync(s) => SSemaError::AwaitOutsideAsync(s),
    }
}

impl View for SemaError {
    type V = SSemaError;

    open spec fn view(&self) -> SSemaError {
        view_sema_error(*self)
    }
}

pub type SemaResult<T> = Result<T, SemaError>;

// ------------------------------------------------------------------
// The analyzer's state as a mathematical value
// ------------------------------------------------------------------

/// Scopes from outermost to innermost, the classes declared so far, whether the
/// function being analyzed is `async`, and the symbol each analyzed name stands for.
#[verifier::ext_equal]
pub struct SAnalyzer {
    pub scopes: Seq<Map<Seq<char>, SSymbolKind>>,
    pub classes: Map<Seq<char>, SClass>,
    pub in_async: bool,
    pub symbols: Map<Span, SSymbolKind>,
}

/// The state after a step of the analysis, and the error the step stopped at.
pub type Step = (SAnalyzer, Option<SSemaError>);

pub open spec fn lookup<K, V>(m: Map<K, V>, k: K) -> Option<V> {
    if m.dom().contains(k) { Some(m[k]) } else { None }
}

/// What `name` stands for: its binding in the innermost scope that binds it.
pub open spec fn s_resolve(scopes: Seq<Map<Seq<char>, SSymbolKind>>, name: Seq<char>) -> Option<SSymbolKind>
    decreases scopes.len(),
{
    if scopes.len() == 0 {
        None
    } else {
        match lookup(scopes.last(), name) {
            Some(k) => Some(k),
            None => s_resolve(scopes.drop_last(), name),
        }
    }
}

/// Binds `name` to `k` in the innermost scope, replacing an earlier binding there.
pub open spec fn s_define(st: SAnalyzer, name: Seq<char>, k: SSymbolKind) -> SAnalyzer {
    let i = st.scopes.len() - 1;
    SAnalyzer {
        scopes: st.scopes.update(i, st.scopes[i].insert(name, k)),
        classes: st.classes,
        in_async: st.in_async,
        symbols: st.symbols,
    }
}

/// Records that the name at `span` stands for `k`.
pub open spec fn s_note(st: SAnalyzer, span: Span, k: SSymbolKind) -> SAnalyzer {
    SAnalyzer { scopes: st.scopes, classes: st.classes, in_async: st.in_async, symbols: st.symbols.insert(span, k) }
}

pub open spec fn s_enter(st: SAnalyzer) -> SAnalyzer {
    SAnalyzer { scopes: st.scopes.push(Map::empty()), classes: st.classes, in_async: st.in_async, symbols: st.symbols }
}

pub open spec fn s_exit(st: SAnalyzer) -> SAnalyzer {
    SAnalyzer { scopes: st.scopes.drop_last(), classes: st.classes, in_async: st.in_async, symbols: st.symbols }
}

pub open spec fn s_set_async(st: SAnalyzer, b: bool) -> SAnalyzer {
    SAnalyzer { scopes: st.scopes, classes: st.classes, in_async: b, symbols: st.symbols }
}

pub open spec fn s_add_class(st: SAnalyzer, name: Seq<char>, c: SClass) -> SAnalyzer {
    SAnalyzer { scopes: st.scopes, classes: st.classes.insert(name, c), in_async: st.in_async, symbols: st.symbols }
}

// ------------------------------------------------------------------
// Type compatibility
// ------------------------------------------------------------------

/// `a` and `b` are compatible types: `any` matches everything, named types
/// match by name, and composite types match part by part.
pub open spec fn types_eq(a: SType, b: SType) -> bool
    decreases a, 0nat,
{
    match a {
        SType::Ref(t1) => match b {
            SType::Ref(t2) => t1.sym == t2.sym,
            SType::Any => true,
            _ => a == b,
        },
        SType::Optional(t1) => match b {
            SType::Optional(t2) => types_eq(*t1, *t2),
            SType::Any => true,
            _ => a == b,
        },
        SType::ErrorUnion(t1) => match b {
            SType::ErrorUnion(t2) => types_eq(*t1, *t2),
            SType::Any => true,
            _ => a == b,
        },
        SType::Array(t1) => match b {
            SType::Array(t2) => types_eq(*t1, *t2),
            SType::Any => true,
            _ => a == b,
        },
        SType::Tuple(t1) => match b {
            SType::Tuple(t2) => t1.len() == t2.len() && types_eq_from(t1, t2, 0),
            SType::Any => true,
            _ => a == b,
        },
        SType::Object(f1) => match b {
            SType::Object(f2) => f1.len() == f2.len() && fields_eq_from(f1, f2, 0),
            SType::Any => true,
            _ => a == b,
        },
        SType::Fn(p1, r1) => match b {
            SType::Fn(p2, r2) => p1.len() == p2.len() && types_eq_from(p1, p2, 0) && types_eq(*r1, *r2),
            SType::Any => true,
            _ => a == b,
        },
        SType::Void => b is Void || b is Any,
        SType::Any => true,
        _ => b is Any || a == b,
    }
}

/// The types of `t1` from index `i` on are compatible with those of `t2`.
pub open spec fn types_eq_from(t1: Seq<SType>, t2: Seq<SType>, i: int) -> bool
    decreases t1, t1.len() - i,
{
    if i < 0 || i >= t1.len() {
        true
    } else {
        (i < t2.len() && types_eq(t1[i], t2[i])) && types_eq_from(t1, t2, i + 1)
    }
}

/// The fields of `f1` from index `i` on have the names of those of `f2` and compatible types.
pub open spec fn fields_eq_from(f1: Seq<SField>, f2: Seq<SField>, i: int) -> bool
    decreases f1, f1.len() - i,
{
    if i < 0 || i >= f1.len() {
        true
    } else {
        (i < f2.len() && f1[i].ident.sym == f2[i].ident.sym && types_eq(f1[i].ty, f2[i].ty))
            && fields_eq_from(f1, f2, i + 1)
    }
}

// ------------------------------------------------------------------
// Type inference
// ------------------------------------------------------------------

/// The span an await error points at.
pub open spec fn s_inner_span(e: SExpr) -> Span {
    match e {
        SExpr::Ident(i) => i.span,
        SExpr::Bin(b) => b.span,
        _ => Span { start: 0, end: 0 },
    }
}

/// The type of a name.
pub open spec fn infer_name(st: SAnalyzer, id: SIdent) -> Result<SType, SSemaError> {
    if id.sym == "true"@ || id.sym == "false"@ {
        Ok(SType::Bool)
    } else if id.sym == "null"@ {
        Ok(SType::Optional(Box::new(SType::Unknown)))
    } else if id.sym.len() > 0 && id.sym[0] == '@' {
        Ok(SType::Fn(Seq::empty(), Box::new(SType::Unknown)))
    } else {
        match s_resolve(st.scopes, id.sym) {
            Some(SSymbolKind::Var { ty, .. }) => Ok(ty),
            Some(SSymbolKind::Func { params, ret, .. }) => Ok(SType::Fn(params, Box::new(match ret {
                Some(t) => t,
                None => SType::I32,
            }))),
            Some(SSymbolKind::Class(c)) => Ok(SType::Ref(c.ident)),
            _ => Err(SSemaError::UndefinedSymbol(id.sym, id.span)),
        }
    }
}

/// The name assigned to by `left = ...` when it is a constant.
pub open spec fn const_target(st: SAnalyzer, left: SExpr) -> Option<Seq<char>> {
    match left {
        SExpr::Ident(id) => match s_resolve(st.scopes, id.sym) {
            Some(SSymbolKind::Var { kind: VarDeclKind::Const, .. }) => Some(id.sym),
            _ => None,
        },
        _ => None,
    }
}

/// The type of the binary expression `b` whose operands have types `l` and `r`.
pub open spec fn bin_type(st: SAnalyzer, b: SBinExpr, l: SType, r: SType) -> Result<SType, SSemaError> {
    if b.op == BinaryOp::Eq {
        match const_target(st, *b.left) {
            Some(name) => Err(SSemaError::ConstAssignment(name, b.span)),
            None => if !types_eq(l, r) { Err(SSemaError::TypeMismatch(l, r, b.span)) } else { Ok(l) },
        }
    } else if b.op == BinaryOp::Lt {
        Ok(SType::Bool)
    } else if !types_eq(l, r) {
        Err(SSemaError::TypeMismatch(l, r, b.span))
    } else {
        Ok(l)
    }
}

/// The builtins that return nothing.
pub open spec fn is_void_builtin(n: Seq<char>) -> bool {
    n == "@print"@ || n == "@fs_write_file"@ || n == "@fs_mkdir"@ || n == "@fs_remove"@ || n == "@fs_copy"@
        || n == "@net_send"@ || n == "@net_close"@ || n == "@net_listen"@
}

/// The type of an expression, or the error that inferring it meets first.
pub open spec fn infer(st: SAnalyzer, e: SExpr) -> Result<SType, SSemaError>
    decreases e, 0nat,
{
    match e {
        SExpr::Lit(l) => Ok(match l {
            SLit::Int(_) => SType::I32,
            SLit::Float(_) => SType::F32,
            SLit::Bool(_) => SType::Bool,
            SLit::Str(_) => SType::String,
            SLit::Null => SType::Unknown,
        }),
        SExpr::Ident(id) => infer_name(st, id),
        SExpr::Bin(b) => match infer(st, *b.left) {
            Err(x) => Err(x),
            Ok(l) => match infer(st, *b.right) {
                Err(x) => Err(x),
                Ok(r) => bin_type(st, b, l, r),
            },
        },
        SExpr::Call(c) => match infer(st, *c.callee) {
            Err(x) => Err(x),
            Ok(t) => match t {
                SType::Fn(_, ret) => Ok(*ret),
                _ => Err(SSemaError::NotAFunction(c.span)),
            },
        },
        SExpr::New(c) => match *c.callee {
            SExpr::Ident(id) => if st.classes.dom().contains(id.sym) {
                Ok(SType::Ref(id))
            } else {
                Err(SSemaError::UndefinedSymbol("Class"@, c.span))
            },
            _ => Err(SSemaError::UndefinedSymbol("Class"@, c.span)),
        },
        SExpr::EnumInit(x) => Ok(SType::Ref(x.enum_name)),
        SExpr::Spawn(_) => Ok(SType::PID),
        SExpr::Receive(ty) => Ok(match ty {
            Some(t) => *t,
            None => SType::I32,
        }),
        SExpr::Slice(x) => infer(st, *x.obj),
        SExpr::Question(inner) => match infer(st, *inner) {
            Err(x) => Err(x),
            Ok(t) => Ok(match t {
                SType::ErrorUnion(u) => *u,
                SType::Optional(u) => *u,
                _ => t,
            }),
        },
        SExpr::Object(fields) => match infer_fields(st, fields, 0) {
            Err(x) => Err(x),
            Ok(fs) => Ok(SType::Object(fs)),
        },
        SExpr::Array(elems) => match infer_elems(st, elems, 0) {
            Err(x) => Err(x),
            Ok(ts) => Ok(SType::Tuple(ts)),
        },
        SExpr::Await(inner) => if !st.in_async {
            Err(SSemaError::AwaitOutsideAsync(s_inner_span(*inner)))
        } else {
            infer(st, *inner)
        },
        SExpr::Builtin(call) => {
            let n = call.name;
            if is_void_builtin(n) {
                Ok(SType::Void)
            } else if n == "@fs_read_file"@ {
                Ok(SType::String)
            } else if n == "@fs_exists"@ {
                Ok(SType::Bool)
            } else if n == "@net_connect"@ {
                Ok(SType::I32)
            } else if n == "@self"@ {
                Ok(SType::PID)
            } else if n == "@shared_tensor_init"@ {
                Ok(SType::Ref(SIdent { span: Span { start: 0, end: 0 }, sym: "SharedTensor"@ }))
            } else if n == "@map"@ {
                if call.args.len() > 0 { infer(st, call.args[0]) } else { Ok(SType::Unknown) }
            } else {
                Ok(SType::Unknown)
            }
        },
        _ => Ok(SType::I32),
    }
}

/// The field types of an object literal from index `i` on.
pub open spec fn infer_fields(st: SAnalyzer, fs: Seq<SObjectField>, i: int) -> Result<Seq<SField>, SSemaError>
    decreases fs, fs.len() - i,
{
    if i < 0 || i >= fs.len() {
        Ok(Seq::empty())
    } else {
        match infer(st, fs[i].val) {
            Err(x) => Err(x),
            Ok(t) => match infer_fields(st, fs, i + 1) {
                Err(x) => Err(x),
                Ok(rest) => Ok(seq![SField { span: fs[i].key.span, ident: fs[i].key, ty: t }] + rest),
            },
        }
    }
}

/// The element types of an array literal from index `i` on.
pub open spec fn infer_elems(st: SAnalyzer, es: Seq<SExpr>, i: int) -> Result<Seq<SType>, SSemaError>
    decreases es, es.len() - i,
{
    if i < 0 || i >= es.len() {
        Ok(Seq::empty())
    } else {
        match infer(st, es[i]) {
            Err(x) => Err(x),
            Ok(t) => match infer_elems(st, es, i + 1) {
                Err(x) => Err(x),
                Ok(rest) => Ok(seq![t] + rest),
            },
        }
    }
}

// ------------------------------------------------------------------
// Patterns
// ------------------------------------------------------------------

/// The first field named `name` in `fs` from index `i` on.
pub open spec fn find_field(fs: Seq<SField>, name: Seq<char>, i: int) -> Option<SField>
    decreases fs.len() - i,
{
    if i < 0 || i >= fs.len() {
        None
    } else if fs[i].ident.sym == name {
        Some(fs[i])
    } else {
        find_field(fs, name, i + 1)
    }
}

/// Binds the names of `pat`, matched against a value of type `ty`.
pub open spec fn a_pattern(st: SAnalyzer, pat: SPattern, ty: SType, kind: VarDeclKind) -> Step
    decreases pat, 0nat,
{
    let none = Span { start: 0, end: 0 };
    match pat {
        SPattern::Ident(id) => (s_define(st, id.sym, SSymbolKind::Var { ty, kind }), None),
        SPattern::Tuple(elems) => match ty {
            SType::Tuple(tys) => if elems.len() != tys.len() {
                (st, Some(SSemaError::TypeMismatch(SType::Tuple(Seq::empty()), SType::Tuple(tys), none)))
            } else {
                a_pat_elems(st, elems, tys, kind, 0)
            },
            _ => (st, Some(SSemaError::TypeMismatch(SType::Tuple(Seq::empty()), ty, none))),
        },
        SPattern::Object(props) => match ty {
            SType::Object(fs) => a_pat_props(st, props, fs, kind, 0),
            _ => (st, Some(SSemaError::TypeMismatch(SType::Object(Seq::empty()), ty, none))),
        },
        _ => (st, None),
    }
}

pub open spec fn a_pat_elems(st: SAnalyzer, elems: Seq<SPattern>, tys: Seq<SType>, kind: VarDeclKind, i: int) -> Step
    decreases elems, elems.len() - i,
{
    if i < 0 || i >= elems.len() {
        (st, None)
    } else {
        let (s1, e1) = a_pattern(st, elems[i], tys[i], kind);
        if e1 is Some { (s1, e1) } else { a_pat_elems(s1, elems, tys, kind, i + 1) }
    }
}

pub open spec fn a_pat_props(st: SAnalyzer, props: Seq<SObjectPatProp>, fs: Seq<SField>, kind: VarDeclKind, i: int) -> Step
    decreases props, props.len() - i,
{
    if i < 0 || i >= props.len() {
        (st, None)
    } else {
        let prop = props[i];
        match find_field(fs, prop.key.sym, 0) {
            None => (st, Some(SSemaError::UndefinedSymbol(prop.key.sym, prop.key.span))),
            Some(f) => {
                let (s1, e1) = match prop.val {
                    Some(inner) => a_pattern(st, inner, f.ty, kind),
                    None => (s_define(st, prop.key.sym, SSymbolKind::Var { ty: f.ty, kind }), None),
                };
                if e1 is Some { (s1, e1) } else { a_pat_props(s1, props, fs, kind, i + 1) }
            },
        }
    }
}

// ------------------------------------------------------------------
// Statements and expressions
// ------------------------------------------------------------------

/// Records what the names in `e` stand for.
pub open spec fn a_expr(st: SAnalyzer, e: SExpr) -> Step
    decreases e, 0nat,
{
    match e {
        SExpr::Ident(id) => match s_resolve(st.scopes, id.sym) {
            Some(k) => (s_note(st, id.span, k), None),
            None => (st, None),
        },
        SExpr::Bin(b) => {
            let (s1, e1) = a_expr(st, *b.left);
            if e1 is Some { (s1, e1) } else { a_expr(s1, *b.right) }
        },
        SExpr::Call(c) => {
            let (s1, e1) = a_expr(st, *c.callee);
            if e1 is Some { (s1, e1) } else { a_exprs(s1, c.args, 0) }
        },
        SExpr::New(c) => {
            let (s1, e1) = a_expr(st, *c.callee);
            if e1 is Some { (s1, e1) } else { a_exprs(s1, c.args, 0) }
        },
        SExpr::Member(m) => a_expr(st, *m.obj),
        SExpr::Slice(x) => {
            let (s1, e1) = a_expr(st, *x.obj);
            if e1 is Some {
                (s1, e1)
            } else {
                let (s2, e2) = match x.start {
                    Some(a) => a_expr(s1, *a),
                    None => (s1, None),
                };
                if e2 is Some {
                    (s2, e2)
                } else {
                    match x.end {
                        Some(b) => a_expr(s2, *b),
                        None => (s2, None),
                    }
                }
            }
        },
        SExpr::Match(m) => {
            let (s1, e1) = a_expr(st, *m.disc);
            if e1 is Some { (s1, e1) } else { a_arms(s1, m.arms, 0) }
        },
        SExpr::Array(es) => a_exprs(st, es, 0),
        SExpr::Object(fs) => a_object_fields(st, fs, 0),
        SExpr::Await(inner) => a_expr(st, *inner),
        SExpr::Builtin(c) => a_exprs(st, c.args, 0),
        _ => (st, None),
    }
}

pub open spec fn a_exprs(st: SAnalyzer, es: Seq<SExpr>, i: int) -> Step
    decreases es, es.len() - i,
{
    if i < 0 || i >= es.len() {
        (st, None)
    } else {
        let (s1, e1) = a_expr(st, es[i]);
        if e1 is Some { (s1, e1) } else { a_exprs(s1, es, i + 1) }
    }
}

pub open spec fn a_object_fields(st: SAnalyzer, fs: Seq<SObjectField>, i: int) -> Step
    decreases fs, fs.len() - i,
{
    if i < 0 || i >= fs.len() {
        (st, None)
    } else {
        let (s1, e1) = a_expr(st, fs[i].val);
        if e1 is Some { (s1, e1) } else { a_object_fields(s1, fs, i + 1) }
    }
}

pub open spec fn a_arms(st: SAnalyzer, arms: Seq<SMatchArm>, i: int) -> Step
    decreases arms, arms.len() - i,
{
    if i < 0 || i >= arms.len() {
        (st, None)
    } else {
        let (s1, e1) = a_stmt(st, *arms[i].body);
        if e1 is Some { (s1, e1) } else { a_arms(s1, arms, i + 1) }
    }
}

/// Infers the type of `x` (to find its errors), then records its names.
pub open spec fn a_checked_expr(st: SAnalyzer, x: SExpr) -> Step
    decreases x, 1nat,
{
    match infer(st, x) {
        Err(err) => (st, Some(err)),
        Ok(_) => a_expr(st, x),
    }
}

pub open spec fn a_stmt(st: SAnalyzer, s: SStmt) -> Step
    decreases s, 0nat,
{
    match s {
        SStmt::Var(v) => match v.init {
            Some(init) => match infer(st, init) {
                Err(err) => (st, Some(err)),
                Ok(t) => {
                    let (s1, e1) = a_expr(st, init);
                    if e1 is Some {
                        (s1, e1)
                    } else {
                        a_pattern(s1, v.pat, match v.ty { Some(ty) => ty, None => t }, v.kind)
                    }
                },
            },
            None => a_pattern(st, v.pat, match v.ty { Some(ty) => ty, None => SType::Unknown }, v.kind),
        },
        SStmt::Expr(x) => a_checked_expr(st, x),
        SStmt::Block(b) => a_block(st, b),
        SStmt::If(i) => {
            let (s1, e1) = a_checked_expr(st, i.test);
            if e1 is Some {
                (s1, e1)
            } else {
                let (s2, e2) = a_stmt(s1, *i.cons);
                if e2 is Some {
                    (s2, e2)
                } else {
                    match i.alt {
                        Some(alt) => a_stmt(s2, *alt),
                        None => (s2, None),
                    }
                }
            }
        },
        SStmt::While(w) => {
            let (s1, e1) = a_checked_expr(st, w.test);
            if e1 is Some { (s1, e1) } else { a_stmt(s1, *w.body) }
        },
        SStmt::Return(r) => match r.arg {
            Some(arg) => a_checked_expr(st, arg),
            None => (st, None),
        },
        _ => (st, None),
    }
}

pub open spec fn a_stmts(st: SAnalyzer, ss: Seq<SStmt>, i: int) -> Step
    decreases ss, ss.len() - i,
{
    if i < 0 || i >= ss.len() {
        (st, None)
    } else {
        let (s1, e1) = a_stmt(st, ss[i]);
        if e1 is Some { (s1, e1) } else { a_stmts(s1, ss, i + 1) }
    }
}

/// The statements of `b` in a scope of their own.
pub open spec fn a_block(st: SAnalyzer, b: SBlockStmt) -> Step
    decreases b, 0nat,
{
    let (s1, e1) = a_stmts(s_enter(st), b.body, 0);
    if e1 is Some { (s1, e1) } else { (s_exit(s1), None) }
}

// ------------------------------------------------------------------
// Declarations and modules
// ------------------------------------------------------------------

pub open spec fn param_types(ps: Seq<SParam>) -> Seq<SType> {
    Seq::new(ps.len(), |i: int| ps[i].ty)
}

/// The symbol a function declaration binds its name to.
pub open spec fn func_symbol(f: SFunction) -> SSymbolKind {
    SSymbolKind::Func { params: param_types(f.params), ret: f.return_type, is_async: f.is_async }
}

/// Binds the parameters from index `i` on as variables.
pub open spec fn a_params(st: SAnalyzer, ps: Seq<SParam>, i: int) -> SAnalyzer
    decreases ps.len() - i,
{
    if i < 0 || i >= ps.len() {
        st
    } else {
        let k = SSymbolKind::Var { ty: ps[i].ty, kind: VarDeclKind::Let };
        a_params(s_note(s_define(st, ps[i].ident.sym, k), ps[i].ident.span, k), ps, i + 1)
    }
}

/// The bodies of the methods from index `i` on.
pub open spec fn a_methods(st: SAnalyzer, ms: Seq<SFunction>, i: int) -> Step
    decreases ms.len() - i,
{
    if i < 0 || i >= ms.len() {
        (st, None)
    } else {
        let old_async = st.in_async;
        let (s1, e1) = a_block(s_set_async(st, ms[i].is_async), ms[i].body);
        if e1 is Some { (s1, e1) } else { a_methods(s_set_async(s1, old_async), ms, i + 1) }
    }
}

pub open spec fn a_decl(st: SAnalyzer, d: SDecl) -> Step {
    match d {
        SDecl::Func(f) => {
            let k = func_symbol(f);
            let s1 = s_note(s_define(st, f.ident.sym, k), f.ident.span, k);
            let s2 = a_params(s_enter(s_set_async(s1, f.is_async)), f.params, 0);
            let (s3, e3) = a_stmts(s2, f.body.body, 0);
            if e3 is Some { (s3, e3) } else { (s_set_async(s_exit(s3), s1.in_async), None) }
        },
        SDecl::Class(c) => a_methods(st, c.methods, 0),
        _ => (st, None),
    }
}

/// The first pass over a module: the classes, traits and enums it declares, from index `i` on.
pub open spec fn a_declare(st: SAnalyzer, items: Seq<SModuleItem>, i: int) -> SAnalyzer
    decreases items.len() - i,
{
    if i < 0 || i >= items.len() {
        st
    } else {
        let s1 = match items[i] {
            SModuleItem::Decl(SDecl::Class(c)) => {
                let k = SSymbolKind::Class(c);
                s_note(s_define(s_add_class(st, c.ident.sym, c), c.ident.sym, k), c.ident.span, k)
            },
            SModuleItem::Decl(SDecl::Trait(t)) => {
                let k = SSymbolKind::Trait(t);
                s_note(s_define(st, t.ident.sym, k), t.ident.span, k)
            },
            SModuleItem::Decl(SDecl::Enum(e)) => {
                let k = SSymbolKind::Enum(e);
                s_note(s_define(st, e.ident.sym, k), e.ident.span, k)
            },
            _ => st,
        };
        a_declare(s1, items, i + 1)
    }
}

/// The second pass over a module: its declarations and statements from index `i` on.
pub open spec fn a_items(st: SAnalyzer, items: Seq<SModuleItem>, i: int) -> Step
    decreases items.len() - i,
{
    if i < 0 || i >= items.len() {
        (st, None)
    } else {
        let (s1, e1) = match items[i] {
            SModuleItem::Decl(d) => a_decl(st, d),
            SModuleItem::Stmt(s) => a_stmt(st, s),
            SModuleItem::Import(_) => (st, None),
        };
        if e1 is Some { (s1, e1) } else { a_items(s1, items, i + 1) }
    }
}

/// The analysis of a module: declarations first, then everything in order.
pub open spec fn a_module(st: SAnalyzer, m: SModule) -> Step {
    a_items(a_declare(st, m.body, 0), m.body, 0)
}

// ------------------------------------------------------------------
// Laws
// ------------------------------------------------------------------

/// A name resolves to what it was last defined as.
pub proof fn law_resolve_after_define(st: SAnalyzer, name: Seq<char>, k: SSymbolKind)
    requires
        st.scopes.len() >= 1,
    ensures
        s_resolve(s_define(st, name, k).scopes, name) == Some(k),
{
    let sc = s_define(st, name, k).scopes;
    assert(sc.last() == st.scopes.last().insert(name, k));
}

/// Defining a name leaves what every other name resolves to unchanged.
pub proof fn law_define_keeps_other_names(st: SAnalyzer, name: Seq<char>, other: Seq<char>, k: SSymbolKind)
    requires
        st.scopes.len() >= 1,
        name != other,
    ensures
        s_resolve(s_define(st, name, k).scopes, other) == s_resolve(st.scopes, other),
{
    let sc = s_define(st, name, k).scopes;
    assert(sc.drop_last() =~= st.scopes.drop_last());
    assert(lookup(sc.last(), other) == lookup(st.scopes.last(), other));
}

/// What is defined in a block is forgotten when the block ends: every name
/// resolves afterwards as it did before the block.
pub proof fn law_block_scope_ends(st: SAnalyzer, name: Seq<char>, k: SSymbolKind, n: Seq<char>)
    ensures
        s_resolve(s_exit(s_define(s_enter(st), name, k)).scopes, n) == s_resolve(st.scopes, n),
{
    assert(s_exit(s_define(s_enter(st), name, k)).scopes =~= st.scopes);
}

/// Binding parameters keeps the number of scopes, and what a name that none
/// of them carries resolves to.
proof fn lemma_params_keep(st: SAnalyzer, ps: Seq<SParam>, i: int, n: Seq<char>)
    requires
        st.scopes.len() >= 1,
        0 <= i,
        forall|k: int| i <= k < ps.len() ==> #[trigger] ps[k].ident.sym != n,
    ensures
        a_params(st, ps, i).scopes.len() == st.scopes.len(),
        s_resolve(a_params(st, ps, i).scopes, n) == s_resolve(st.scopes, n),
    decreases ps.len() - i,
{
    if i < ps.len() {
        let k = SSymbolKind::Var { ty: ps[i].ty, kind: VarDeclKind::Let };
        let s1 = s_note(s_define(st, ps[i].ident.sym, k), ps[i].ident.span, k);
        law_define_keeps_other_names(st, ps[i].ident.sym, n, k);
        lemma_params_keep(s1, ps, i + 1, n);
    }
}

/// The parameters of a function are in scope in its body: after they are
/// bound, each parameter whose name no later parameter repeats resolves to a
/// variable of its declared type.
pub proof fn law_params_in_scope(st: SAnalyzer, ps: Seq<SParam>, j: int)
    requires
        st.scopes.len() >= 1,
        0 <= j < ps.len(),
        forall|k: int| j < k < ps.len() ==> #[trigger] ps[k].ident.sym != ps[j].ident.sym,
    ensures
        s_resolve(a_params(st, ps, 0).scopes, ps[j].ident.sym)
            == Some(SSymbolKind::Var { ty: ps[j].ty, kind: VarDeclKind::Let }),
{
    lemma_params_in_scope_from(st, ps, 0, j);
}

proof fn lemma_params_in_scope_from(st: SAnalyzer, ps: Seq<SParam>, i: int, j: int)
    requires
        st.scopes.len() >= 1,
        0 <= i <= j < ps.len(),
        forall|k: int| j < k < ps.len() ==> #[trigger] ps[k].ident.sym != ps[j].ident.sym,
    ensures
        s_resolve(a_params(st, ps, i).scopes, ps[j].ident.sym)
            == Some(SSymbolKind::Var { ty: ps[j].ty, kind: VarDeclKind::Let }),
    decreases ps.len() - i,
{
    let k = SSymbolKind::Var { ty: ps[i].ty, kind: VarDeclKind::Let };
    let s1 = s_note(s_define(st, ps[i].ident.sym, k), ps[i].ident.span, k);
    if i == j {
        law_resolve_after_define(st, ps[i].ident.sym, k);
        lemma_params_keep(s1, ps, i + 1, ps[j].ident.sym);
    } else {
        lemma_params_in_scope_from(s1, ps, i + 1, j);
    }
}

/// Every type is compatible with itself.
pub proof fn law_types_eq_reflexive(t: SType)
    ensures
        types_eq(t, t),
    decreases t, 0nat,
{
    match t {
        SType::Optional(x) => law_types_eq_reflexive(*x),
        SType::ErrorUnion(x) => law_types_eq_reflexive(*x),
        SType::Array(x) => law_types_eq_reflexive(*x),
        SType::Tuple(ts) => lemma_types_eq_from_reflexive(ts, 0),
        SType::Object(fs) => lemma_fields_eq_from_reflexive(fs, 0),
        SType::Fn(ps, r) => {
            lemma_types_eq_from_reflexive(ps, 0);
            law_types_eq_reflexive(*r);
        },
        _ => {},
    }
}

proof fn lemma_types_eq_from_reflexive(ts: Seq<SType>, i: int)
    ensures
        types_eq_from(ts, ts, i),
    decreases ts, ts.len() - i,
{
    if 0 <= i < ts.len() {
        law_types_eq_reflexive(ts[i]);
        lemma_types_eq_from_reflexive(ts, i + 1);
    }
}

proof fn lemma_fields_eq_from_reflexive(fs: Seq<SField>, i: int)
    ensures
        fields_eq_from(fs, fs, i),
    decreases fs, fs.len() - i,
{
    if 0 <= i < fs.len() {
        law_types_eq_reflexive(fs[i].ty);
        lemma_fields_eq_from_reflexive(fs, i + 1);
    }
}

/// What an expression's type is, for the basic forms: a literal has the type of its
/// kind, a variable the type it was declared with, a call the return type of the
/// function called (and calling what is not a function is refused), and `await`
/// outside an `async` function is refused.
pub proof fn law_basic_types(st: SAnalyzer, v: i64, x: Seq<char>, id: SIdent, ty: SType, k: VarDeclKind, c: SCallExpr, e: SExpr)
    ensures
        infer(st, SExpr::Lit(SLit::Int(v))) == Ok::<SType, SSemaError>(SType::I32),
        infer(st, SExpr::Lit(SLit::Str(x))) == Ok::<SType, SSemaError>(SType::String),
        infer(st, SExpr::Lit(SLit::Float(x))) == Ok::<SType, SSemaError>(SType::F32),
        id.sym != "true"@ && id.sym != "false"@ && id.sym != "null"@ && !(id.sym.len() > 0 && id.sym[0] == '@')
            && s_resolve(st.scopes, id.sym) == Some(SSymbolKind::Var { ty, kind: k })
            ==> infer(st, SExpr::Ident(id)) == Ok::<SType, SSemaError>(ty),
        infer(st, *c.callee) matches Ok(SType::Fn(_, r)) ==> infer(st, SExpr::Call(c)) == Ok::<SType, SSemaError>(*r),
        infer(st, *c.callee) is Ok && !(infer(st, *c.callee)->Ok_0 is Fn)
            ==> infer(st, SExpr::Call(c)) == Err::<SType, SSemaError>(SSemaError::NotAFunction(c.span)),
        !st.in_async ==> infer(st, SExpr::Await(Box::new(e))) is Err,
{
}

/// A binary expression whose operands have types is accepted only when its
/// operands fit: an assignment to a name that is not a constant, and an arithmetic
/// operator, need compatible operand types and otherwise fail with a type mismatch
/// naming both types; an assignment and an arithmetic operator have the type of
/// their left operand, and a comparison `<` has type `bool`.
pub proof fn law_operands_must_fit(st: SAnalyzer, b: SBinExpr)
    requires
        infer(st, *b.left) is Ok,
        infer(st, *b.right) is Ok,
    ensures
        ({
            let l = infer(st, *b.left)->Ok_0;
            let r = infer(st, *b.right)->Ok_0;
            let res = infer(st, SExpr::Bin(b));
            &&& b.op != BinaryOp::Lt && res is Ok ==> types_eq(l, r) && res == Ok::<SType, SSemaError>(l)
            &&& b.op != BinaryOp::Lt && !types_eq(l, r) && (b.op == BinaryOp::Eq ==> const_target(st, *b.left) is None)
                ==> res == Err::<SType, SSemaError>(SSemaError::TypeMismatch(l, r, b.span))
            &&& b.op == BinaryOp::Lt ==> res == Ok::<SType, SSemaError>(SType::Bool)
            &&& b.op == BinaryOp::Eq && const_target(st, *b.left) is Some
                ==> res == Err::<SType, SSemaError>(SSemaError::ConstAssignment(const_target(st, *b.left)->Some_0, b.span))
        }),
{
}

/// Assigning to a constant is refused, naming the constant: a name declared with
/// `const` cannot be the target of an assignment.
pub proof fn law_constants_are_not_assigned(st: SAnalyzer, b: SBinExpr, id: SIdent, ty: SType)
    requires
        b.op == BinaryOp::Eq,
        *b.left == SExpr::Ident(id),
        s_resolve(st.scopes, id.sym) == Some(SSymbolKind::Var { ty, kind: VarDeclKind::Const }),
        infer(st, *b.left) is Ok,
        infer(st, *b.right) is Ok,
    ensures
        infer(st, SExpr::Bin(b)) == Err::<SType, SSemaError>(SSemaError::ConstAssignment(id.sym, b.span)),
{
}

/// Assigning to a variable whose type is not compatible with the assigned value
/// is refused: an accepted assignment `x = e` has operand types that fit.
pub proof fn law_assignment_keeps_types(st: SAnalyzer, b: SBinExpr)
    requires
        b.op == BinaryOp::Eq,
        infer(st, SExpr::Bin(b)) is Ok,
    ensures
        infer(st, *b.left) is Ok,
        infer(st, *b.right) is Ok,
        types_eq(infer(st, *b.left)->Ok_0, infer(st, *b.right)->Ok_0),
{
}

/// `any` is compatible with every type, on either side, and two type names are
/// compatible exactly when their names are equal, wherever they were written.
pub proof fn law_types_eq_any_and_names(t: SType, x: SIdent, y: SIdent)
    ensures
        types_eq(SType::Any, t),
        types_eq(t, SType::Any),
        types_eq(SType::Ref(x), SType::Ref(y)) == (x.sym == y.sym),
{
}

/// Tuples, objects and function types of different lengths are never compatible.
pub proof fn law_types_eq_lengths(a: Seq<SType>, b: Seq<SType>, f: Seq<SField>, g: Seq<SField>, r1: SType, r2: SType)
    ensures
        a.len() != b.len() ==> !types_eq(SType::Tuple(a), SType::Tuple(b)),
        f.len() != g.len() ==> !types_eq(SType::Object(f), SType::Object(g)),
        a.len() != b.len() ==> !types_eq(SType::Fn(a, Box::new(r1)), SType::Fn(b, Box::new(r2))),
{
}

/// Type compatibility does not depend on the order of the two types.
pub proof fn law_types_eq_symmetric(a: SType, b: SType)
    ensures
        types_eq(a, b) == types_eq(b, a),
    decreases a, 0nat,
{
    match a {
        SType::Optional(x) => match b {
            SType::Optional(y) => law_types_eq_symmetric(*x, *y),
            _ => {},
        },
        SType::ErrorUnion(x) => match b {
            SType::ErrorUnion(y) => law_types_eq_symmetric(*x, *y),
            _ => {},
        },
        SType::Array(x) => match b {
            SType::Array(y) => law_types_eq_symmetric(*x, *y),
            _ => {},
        },
        SType::Tuple(t1) => match b {
            SType::Tuple(t2) => if t1.len() == t2.len() {
                lemma_types_eq_from_symmetric(t1, t2, 0);
            },
            _ => {},
        },
        SType::Object(f1) => match b {
            SType::Object(f2) => if f1.len() == f2.len() {
                lemma_fields_eq_from_symmetric(f1, f2, 0);
            },
            _ => {},
        },
        SType::Fn(p1, r1) => match b {
            SType::Fn(p2, r2) => {
                if p1.len() == p2.len() {
                    lemma_types_eq_from_symmetric(p1, p2, 0);
                }
                law_types_eq_symmetric(*r1, *r2);
            },
            _ => {},
        },
        _ => {},
    }
}

proof fn lemma_types_eq_from_symmetric(t1: Seq<SType>, t2: Seq<SType>, i: int)
    requires
        t1.len() == t2.len(),
    ensures
        types_eq_from(t1, t2, i) == types_eq_from(t2, t1, i),
    decreases t1, t1.len() - i,
{
    if 0 <= i < t1.len() {
        law_types_eq_symmetric(t1[i], t2[i]);
        lemma_types_eq_from_symmetric(t1, t2, i + 1);
    }
}

proof fn lemma_fields_eq_from_symmetric(f1: Seq<SField>, f2: Seq<SField>, i: int)
    requires
        f1.len() == f2.len(),
    ensures
        fields_eq_from(f1, f2, i) == fields_eq_from(f2, f1, i),
    decreases f1, f1.len() - i,
{
    if 0 <= i < f1.len() {
        law_types_eq_symmetric(f1[i].ty, f2[i].ty);
        lemma_fields_eq_from_symmetric(f1, f2, i + 1);
    }
}

// ------------------------------------------------------------------
// The analyzer
// ------------------------------------------------------------------

/// The bindings of a scope, later ones replacing earlier ones of the same name.
pub open spec fn scope_map(s: Seq<(std::string::String, SymbolKind)>) -> Map<Seq<char>, SSymbolKind>
    decreases s.len(),
{
    if s.len() == 0 {
        Map::empty()
    } else {
        scope_map(s.drop_last()).insert(s.last().0@, view_symbol_kind(s.last().1))
    }
}

/// The symbols recorded at each span, later records replacing earlier ones.
pub open spec fn span_map(s: Seq<(Span, SymbolKind)>) -> Map<Span, SSymbolKind>
    decreases s.len(),
{
    if s.len() == 0 {
        Map::empty()
    } else {
        span_map(s.drop_last()).insert(s.last().0, view_symbol_kind(s.last().1))
    }
}

/// The classes by name, later ones replacing earlier ones of the same name.
pub open spec fn class_map(s: Seq<(std::string::String, Class)>) -> Map<Seq<char>, SClass>
    decreases s.len(),
{
    if s.len() == 0 {
        Map::empty()
    } else {
        class_map(s.drop_last()).insert(s.last().0@, view_class(s.last().1))
    }
}

/// The semantic analyzer of a module.
pub struct Analyzer {
    scopes: Vec<Vec<(std::string::String, SymbolKind)>>,
    classes: Vec<(std::string::String, Class)>,
    current_fn_is_async: bool,
    symbol_map: Vec<(Span, SymbolKind)>,
}

impl View for Analyzer {
    type V = SAnalyzer;

    closed spec fn view(&self) -> SAnalyzer {
        SAnalyzer {
            scopes: Seq::new(self.scopes@.len(), |i: int| scope_map(self.scopes@[i]@)),
            classes: class_map(self.classes@),
            in_async: self.current_fn_is_async,
            symbols: span_map(self.symbol_map@),
        }
    }
}

impl Analyzer {
    /// There is always an innermost scope.
    pub closed spec fn wf(&self) -> bool {
        self.scopes@.len() >= 1
    }

    /// The state of a new analyzer: one empty scope, nothing declared or recorded.
    pub open spec fn new_state() -> SAnalyzer {
        SAnalyzer {
            scopes: seq![Map::<Seq<char>, SSymbolKind>::empty()],
            classes: Map::<Seq<char>, SClass>::empty(),
            in_async: false,
            symbols: Map::<Span, SSymbolKind>::empty(),
        }
    }

    pub fn new() -> (r: Self)
        ensures
            r.wf(),
            r@ == Analyzer::new_state(),
    {
        let mut scopes: Vec<Vec<(std::string::String, SymbolKind)>> = Vec::new();
        scopes.push(Vec::new());
        let r = Analyzer { scopes, classes: Vec::new(), current_fn_is_async: false, symbol_map: Vec::new() };
        assert(r@.scopes =~= seq![Map::<Seq<char>, SSymbolKind>::empty()]);
        r
    }

    /// The symbols recorded so far, at the spans of the names that stand for them.
    pub fn symbols(&self) -> (r: &Vec<(Span, SymbolKind)>)
        ensures
            span_map(r@) == self@.symbols,
    {
        &self.symbol_map
    }

    fn enter_scope(&mut self)
        requires
            old(self).wf(),
        ensures
            final(self).wf(),
            final(self)@ == s_enter(old(self)@),
    {
        self.scopes.push(Vec::new());
        assert(self@.scopes =~= old(self)@.scopes.push(Map::empty()));
    }

    fn exit_scope(&mut self)
        requires
            old(self).wf(),
            old(self)@.scopes.len() >= 2,
        ensures
            final(self).wf(),
            final(self)@ == s_exit(old(self)@),
    {
        let _ = self.scopes.pop();
        assert(self@.scopes =~= old(self)@.scopes.drop_last());
    }

    fn set_async(&mut self, b: bool)
        ensures
            final(self).wf() == old(self).wf(),
            final(self)@ == s_set_async(old(self)@, b),
    {
        self.current_fn_is_async = b;
        assert(self@.scopes =~= old(self)@.scopes);
    }

    /// Binds `name` to `kind` in the innermost scope.
    fn define(&mut self, name: std::string::String, kind: SymbolKind, _span: Span) -> (r: SemaResult<()>)
        requires
            old(self).wf(),
        ensures
            final(self).wf(),
            r is Ok,
            final(self)@ == s_define(old(self)@, name@, view_symbol_kind(kind)),
    {
        let ghost name_v = name@;
        let ghost kind_v = view_symbol_kind(kind);
        let mut scope = self.scopes.pop().unwrap();
        let ghost old_scope = scope@;
        scope.push((name, kind));
        proof {
            assert(scope@.drop_last() =~= old_scope);
        }
        self.scopes.push(scope);
        proof {
            let i = old(self)@.scopes.len() - 1;
            assert(self@.scopes =~= old(self)@.scopes.update(i, old(self)@.scopes[i].insert(name_v, kind_v)));
        }
        Ok(())
    }

    /// Records that the name at `span` stands for `kind`.
    fn note(&mut self, span: Span, kind: SymbolKind)
        ensures
            final(self).wf() == old(self).wf(),
            final(self)@ == s_note(old(self)@, span, view_symbol_kind(kind)),
    {
        let ghost k = view_symbol_kind(kind);
        self.symbol_map.push((span, kind));
        proof {
            assert(self.symbol_map@.drop_last() =~= old(self).symbol_map@);
            assert(self@.scopes =~= old(self)@.scopes);
        }
    }

    fn add_class(&mut self, name: std::string::String, c: Class)
        ensures
            final(self).wf() == old(self).wf(),
            final(self)@ == s_add_class(old(self)@, name@, view_class(c)),
    {
        let ghost n = name@;
        let ghost cv = view_class(c);
        self.classes.push((name, c));
        proof {
            assert(self.classes@.drop_last() =~= old(self).classes@);
            assert(self@.scopes =~= old(self)@.scopes);
        }
    }

    /// What `name` stands for.
    fn resolve(&self, name: &str) -> (r: Option<&SymbolKind>)
        ensures
            match r {
                Some(k) => s_resolve(self@.scopes, name@) == Some(view_symbol_kind(*k)),
                None => s_resolve(self@.scopes, name@) is None,
            },
    {
        let ghost vs = self@.scopes;
        let mut i = self.scopes.len();
        assert(vs.subrange(0, i as int) =~= vs);
        while i > 0
            invariant
                i <= self.scopes@.len(),
                vs == self@.scopes,
                s_resolve(vs, name@) == s_resolve(vs.subrange(0, i as int), name@),
            decreases i,
        {
            assert(vs.subrange(0, i as int).drop_last() =~= vs.subrange(0, i - 1));
            assert(vs[i - 1] == scope_map(self.scopes@[i - 1]@));
            match scope_lookup(&self.scopes[i - 1], name) {
                Some(k) => {
                    return Some(k);
                },
                None => {},
            }
            i = i - 1;
        }
        assert(vs.subrange(0, 0) =~= Seq::<Map<Seq<char>, SSymbolKind>>::empty());
        None
    }

    /// A class named `name` has been declared.
    fn has_class(&self, name: &str) -> (r: bool)
        ensures
            r == self@.classes.dom().contains(name@),
    {
        let mut j = self.classes.len();
        assert(self.classes@.subrange(0, j as int) =~= self.classes@);
        while j > 0
            invariant
                j <= self.classes@.len(),
                class_map(self.classes@).dom().contains(name@)
                    == class_map(self.classes@.subrange(0, j as int)).dom().contains(name@),
            decreases j,
        {
            proof {
                assert(self.classes@.subrange(0, j as int).drop_last() =~= self.classes@.subrange(0, j - 1));
            }
            if string_eq_str(&self.classes[j - 1].0, name) {
                return true;
            }
            j = j - 1;
        }
        proof {
            assert(self.classes@.subrange(0, 0) =~= Seq::<(std::string::String, Class)>::empty());
        }
        false
    }
}

/// The binding of `name` in a scope.
fn scope_lookup<'a>(scope: &'a Vec<(std::string::String, SymbolKind)>, name: &str) -> (r: Option<&'a SymbolKind>)
    ensures
        match r {
            Some(k) => lookup(scope_map(scope@), name@) == Some(view_symbol_kind(*k)),
            None => lookup(scope_map(scope@), name@) is None,
        },
{
    let mut j = scope.len();
    assert(scope@.subrange(0, j as int) =~= scope@);
    while j > 0
        invariant
            j <= scope@.len(),
            lookup(scope_map(scope@), name@) == lookup(scope_map(scope@.subrange(0, j as int)), name@),
        decreases j,
    {
        assert(scope@.subrange(0, j as int).drop_last() =~= scope@.subrange(0, j - 1));
        if string_eq_str(&scope[j - 1].0, name) {
            return Some(&scope[j - 1].1);
        }
        j = j - 1;
    }
    assert(scope@.subrange(0, 0) =~= Seq::<(std::string::String, SymbolKind)>::empty());
    None
}

// ------------------------------------------------------------------
// Exact equality of types
// ------------------------------------------------------------------

/// The two identifiers are the same, position included.
fn ident_equal(a: &Ident, b: &Ident) -> (r: bool)
    ensures
        r == (view_ident(*a) == view_ident(*b)),
{
    a.span.start == b.span.start && a.span.end == b.span.end && string_eq(&a.sym, &b.sym)
}

/// The two types are the same.
pub fn type_equal(a: &Type, b: &Type) -> (r: bool)
    ensures
        r == (view_type(*a) == view_type(*b)),
    decreases a,
{
    match a {
        Type::I32 => matches!(b, Type::I32),
        Type::U32 => matches!(b, Type::U32),
        Type::U64 => matches!(b, Type::U64),
        Type::F32 => matches!(b, Type::F32),
        Type::F64 => matches!(b, Type::F64),
        Type::USize => matches!(b, Type::USize),
        Type::Bool => matches!(b, Type::Bool),
        Type::String => matches!(b, Type::String),
        Type::Void => matches!(b, Type::Void),
        Type::Any => matches!(b, Type::Any),
        Type::PID => matches!(b, Type::PID),
        Type::Unknown => matches!(b, Type::Unknown),
        Type::Array(x) => match b {
            Type::Array(y) => type_equal(x, y),
            _ => false,
        },
        Type::MapOf(k1, v1) => match b {
            Type::MapOf(k2, v2) => type_equal(k1, k2) && type_equal(v1, v2),
            _ => false,
        },
        Type::Tuple(x) => match b {
            Type::Tuple(y) => type_vec_equal(x, y),
            _ => false,
        },
        Type::Object(x) => match b {
            Type::Object(y) => field_vec_equal(x, y),
            _ => false,
        },
        Type::Ref(x) => match b {
            Type::Ref(y) => ident_equal(x, y),
            _ => false,
        },
        Type::Fn(p1, r1) => match b {
            Type::Fn(p2, r2) => type_vec_equal(p1, p2) && type_equal(r1, r2),
            _ => false,
        },
        Type::ErrorUnion(x) => match b {
            Type::ErrorUnion(y) => type_equal(x, y),
            _ => false,
        },
        Type::Optional(x) => match b {
            Type::Optional(y) => type_equal(x, y),
            _ => false,
        },
    }
}

fn type_vec_equal(a: &Vec<Type>, b: &Vec<Type>) -> (r: bool)
    ensures
        r == (view_type_seq(a@) == view_type_seq(b@)),
    decreases a,
{
    proof {
        lemma_view_type_seq_index(a@);
        lemma_view_type_seq_index(b@);
    }
    if a.len() != b.len() {
        return false;
    }
    let mut i: usize = 0;
    while i < a.len()
        invariant
            i <= a@.len(),
            a@.len() == b@.len(),
            view_type_seq(a@).len() == a@.len(),
            view_type_seq(b@).len() == b@.len(),
            forall|j: int| 0 <= j < a@.len() ==> #[trigger] view_type_seq(a@)[j] == view_type(a@[j]),
            forall|j: int| 0 <= j < b@.len() ==> #[trigger] view_type_seq(b@)[j] == view_type(b@[j]),
            forall|j: int| 0 <= j < i ==> view_type(#[trigger] a@[j]) == view_type(b@[j]),
        decreases a@.len() - i,
    {
        if !type_equal(&a[i], &b[i]) {
            assert(view_type_seq(a@)[i as int] != view_type_seq(b@)[i as int]);
            return false;
        }
        i = i + 1;
    }
    assert(view_type_seq(a@) =~= view_type_seq(b@));
    true
}

fn field_vec_equal(a: &Vec<Field>, b: &Vec<Field>) -> (r: bool)
    ensures
        r == (view_field_seq(a@) == view_field_seq(b@)),
    decreases a,
{
    proof {
        lemma_view_field_seq_index(a@);
        lemma_view_field_seq_index(b@);
    }
    if a.len() != b.len() {
        return false;
    }
    let mut i: usize = 0;
    while i < a.len()
        invariant
            i <= a@.len(),
            a@.len() == b@.len(),
            view_field_seq(a@).len() == a@.len(),
            view_field_seq(b@).len() == b@.len(),
            forall|j: int| 0 <= j < a@.len() ==> #[trigger] view_field_seq(a@)[j] == view_field(a@[j]),
            forall|j: int| 0 <= j < b@.len() ==> #[trigger] view_field_seq(b@)[j] == view_field(b@[j]),
            forall|j: int| 0 <= j < i ==> view_field(#[trigger] a@[j]) == view_field(b@[j]),
        decreases a@.len() - i,
    {
        let fa = &a[i];
        let fb = &b[i];
        let same = fa.span.start == fb.span.start && fa.span.end == fb.span.end
            && ident_equal(&fa.ident, &fb.ident) && type_equal(&fa.ty, &fb.ty);
        if !same {
            assert(view_field_seq(a@)[i as int] != view_field_seq(b@)[i as int]);
            return false;
        }
        i = i + 1;
    }
    assert(view_field_seq(a@) =~= view_field_seq(b@));
    true
}

/// The agreement of a type-inference result with its mathematical form.
pub open spec fn type_agrees(r: SemaResult<Type>, s: Result<SType, SSemaError>) -> bool {
    match s {
        Ok(t) => r is Ok && view_type(r->Ok_0) == t,
        Err(e) => r is Err && view_sema_error(r->Err_0) == e,
    }
}

/// The agreement of a step's result with the error the step stopped at.
pub open spec fn step_agrees(r: SemaResult<()>, e: Option<SSemaError>) -> bool {
    match e {
        None => r is Ok,
        Some(x) => r is Err && view_sema_error(r->Err_0) == x,
    }
}

impl Analyzer {
    /// `a` and `b` are compatible types.
    fn types_eq(&self, a: &Type, b: &Type) -> (r: bool)
        ensures
            r == types_eq(view_type(*a), view_type(*b)),
        decreases a,
    {
        match a {
            Type::Ref(t1) => match b {
                Type::Ref(t2) => string_eq(&t1.sym, &t2.sym),
                Type::Any => true,
                _ => type_equal(a, b),
            },
            Type::Optional(t1) => match b {
                Type::Optional(t2) => self.types_eq(t1, t2),
                Type::Any => true,
                _ => type_equal(a, b),
            },
            Type::ErrorUnion(t1) => match b {
                Type::ErrorUnion(t2) => self.types_eq(t1, t2),
                Type::Any => true,
                _ => type_equal(a, b),
            },
            Type::Array(t1) => match b {
                Type::Array(t2) => self.types_eq(t1, t2),
                Type::Any => true,
                _ => type_equal(a, b),
            },
            Type::Tuple(t1) => match b {
                Type::Tuple(t2) => {
                    proof {
                        lemma_view_type_seq_index(t1@);
                        lemma_view_type_seq_index(t2@);
                    }
                    if t1.len() != t2.len() {
                        return false;
                    }
                    self.types_eq_all(t1, t2)
                },
                Type::Any => true,
                _ => type_equal(a, b),
            },
            Type::Object(f1) => match b {
                Type::Object(f2) => {
                    proof {
                        lemma_view_field_seq_index(f1@);
                        lemma_view_field_seq_index(f2@);
                    }
                    if f1.len() != f2.len() {
                        return false;
                    }
                    self.fields_eq_all(f1, f2)
                },
                Type::Any => true,
                _ => type_equal(a, b),
            },
            Type::Fn(p1, r1) => match b {
                Type::Fn(p2, r2) => {
                    proof {
                        lemma_view_type_seq_index(p1@);
                        lemma_view_type_seq_index(p2@);
                    }
                    if p1.len() != p2.len() {
                        return false;
                    }
                    if !self.types_eq_all(p1, p2) {
                        return false;
                    }
                    self.types_eq(r1, r2)
                },
                Type::Any => true,
                _ => type_equal(a, b),
            },
            Type::Void => matches!(b, Type::Void) || matches!(b, Type::Any),
            Type::Any => true,
            _ => matches!(b, Type::Any) || type_equal(a, b),
        }
    }

    fn types_eq_all(&self, t1: &Vec<Type>, t2: &Vec<Type>) -> (r: bool)
        requires
            t1@.len() == t2@.len(),
        ensures
            r == types_eq_from(view_type_seq(t1@), view_type_seq(t2@), 0),
        decreases t1,
    {
        proof {
            lemma_view_type_seq_index(t1@);
            lemma_view_type_seq_index(t2@);
        }
        let ghost v1 = view_type_seq(t1@);
        let ghost v2 = view_type_seq(t2@);
        let mut i: usize = 0;
        while i < t1.len()
            invariant
                i <= t1@.len(),
                t1@.len() == t2@.len(),
                v1 == view_type_seq(t1@),
                v2 == view_type_seq(t2@),
                v1.len() == t1@.len(),
                v2.len() == t2@.len(),
                forall|j: int| 0 <= j < t1@.len() ==> #[trigger] v1[j] == view_type(t1@[j]),
                forall|j: int| 0 <= j < t2@.len() ==> #[trigger] v2[j] == view_type(t2@[j]),
                types_eq_from(v1, v2, 0) == types_eq_from(v1, v2, i as int),
            decreases t1@.len() - i,
        {
            if !self.types_eq(&t1[i], &t2[i]) {
                return false;
            }
            i = i + 1;
        }
        true
    }

    fn fields_eq_all(&self, f1: &Vec<Field>, f2: &Vec<Field>) -> (r: bool)
        requires
            f1@.len() == f2@.len(),
        ensures
            r == fields_eq_from(view_field_seq(f1@), view_field_seq(f2@), 0),
        decreases f1,
    {
        proof {
            lemma_view_field_seq_index(f1@);
            lemma_view_field_seq_index(f2@);
        }
        let ghost v1 = view_field_seq(f1@);
        let ghost v2 = view_field_seq(f2@);
        let mut i: usize = 0;
        while i < f1.len()
            invariant
                i <= f1@.len(),
                f1@.len() == f2@.len(),
                v1 == view_field_seq(f1@),
                v2 == view_field_seq(f2@),
                v1.len() == f1@.len(),
                v2.len() == f2@.len(),
                forall|j: int| 0 <= j < f1@.len() ==> #[trigger] v1[j] == view_field(f1@[j]),
                forall|j: int| 0 <= j < f2@.len() ==> #[trigger] v2[j] == view_field(f2@[j]),
                fields_eq_from(v1, v2, 0) == fields_eq_from(v1, v2, i as int),
            decreases f1@.len() - i,
        {
            if !string_eq(&f1[i].ident.sym, &f2[i].ident.sym) || !self.types_eq(&f1[i].ty, &f2[i].ty) {
                return false;
            }
            i = i + 1;
        }
        true
    }
}


/// The span an await error points at.
fn inner_span(e: &Expr) -> (r: Span)
    ensures
        r == s_inner_span(view_expr(*e)),
{
    match e {
        Expr::Ident(i) => i.span,
        Expr::Lit(_) => Span { start: 0, end: 0 },
        Expr::Bin(b) => b.span,
        _ => Span { start: 0, end: 0 },
    }
}

/// The builtins that return nothing.
fn is_void_builtin_name(n: &std::string::String) -> (r: bool)
    ensures
        r == is_void_builtin(n@),
{
    string_eq_str(n, "@print") || string_eq_str(n, "@fs_write_file") || string_eq_str(n, "@fs_mkdir")
        || string_eq_str(n, "@fs_remove") || string_eq_str(n, "@fs_copy") || string_eq_str(n, "@net_send")
        || string_eq_str(n, "@net_close") || string_eq_str(n, "@net_listen")
}

impl Analyzer {
    /// The type of a name.
    fn infer_ident(&self, id: &Ident) -> (r: SemaResult<Type>)
        ensures
            type_agrees(r, infer_name(self@, view_ident(*id))),
    {
        if string_eq_str(&id.sym, "true") || string_eq_str(&id.sym, "false") {
            return Ok(Type::Bool);
        }
        assert(view_type(Type::Unknown) == SType::Unknown);
        if string_eq_str(&id.sym, "null") {
            return Ok(Type::Optional(Box::new(Type::Unknown)));
        }
        if starts_with_char(id.sym.as_str(), '@') {
            assert(view_type_seq(Seq::<Type>::empty()) =~= Seq::<SType>::empty());
            return Ok(Type::Fn(Vec::new(), Box::new(Type::Unknown)));
        }
        match self.resolve(id.sym.as_str()) {
            Some(SymbolKind::Var { ty, .. }) => Ok(clone_type(ty)),
            Some(SymbolKind::Func { params, ret, .. }) => {
                let r = match ret {
                    Some(t) => clone_type(t),
                    None => Type::I32,
                };
                Ok(Type::Fn(clone_type_vec(params), Box::new(r)))
            },
            Some(SymbolKind::Class(c)) => Ok(Type::Ref(clone_ident(&c.ident))),
            _ => Err(SemaError::UndefinedSymbol(id.sym.clone(), id.span)),
        }
    }

    /// The type of an expression.
    fn infer_type(&self, expr: &Expr) -> (r: SemaResult<Type>)
        ensures
            type_agrees(r, infer(self@, view_expr(*expr))),
        decreases expr,
    {
        match expr {
            Expr::Lit(lit) => match lit {
                Lit::Int(_) => Ok(Type::I32),
                Lit::Float(_) => Ok(Type::F32),
                Lit::Bool(_) => Ok(Type::Bool),
                Lit::Str(_) => Ok(Type::String),
                Lit::Null => Ok(Type::Unknown),
            },
            Expr::Ident(ident) => self.infer_ident(ident),
            Expr::Bin(bin) => self.infer_bin(bin),
            Expr::Call(call) => {
                let callee_ty = self.infer_type(&call.callee)?;
                match callee_ty {
                    Type::Fn(ps, ret) => {
                        assert(view_type(Type::Fn(ps, ret)) == SType::Fn(view_type_seq(ps@), Box::new(view_type(*ret))));
                        Ok(*ret)
                    },
                    _ => Err(SemaError::NotAFunction(call.span)),
                }
            },
            Expr::New(call) => {
                match &*call.callee {
                    Expr::Ident(ident) => {
                        assert(view_expr(*call.callee) == SExpr::Ident(view_ident(*ident)));
                        if self.has_class(ident.sym.as_str()) {
                            return Ok(Type::Ref(clone_ident(ident)));
                        }
                    },
                    _ => {},
                }
                Err(SemaError::UndefinedSymbol(string_of_lit("Class"), call.span))
            },
            Expr::EnumInit(init) => Ok(Type::Ref(clone_ident(&init.enum_name))),
            Expr::Spawn(_) => Ok(Type::PID),
            Expr::Receive(ty) => match ty {
                Some(t) => Ok(clone_type(t)),
                None => Ok(Type::I32),
            },
            Expr::Slice(slice) => self.infer_type(&slice.obj),
            Expr::Question(inner) => {
                let inner_ty = self.infer_type(inner)?;
                match inner_ty {
                    Type::ErrorUnion(t) => Ok(*t),
                    Type::Optional(t) => Ok(*t),
                    _ => Ok(inner_ty),
                }
            },
            Expr::Object(fields) => {
                let fs = self.infer_object_fields(fields)?;
                Ok(Type::Object(fs))
            },
            Expr::Array(elements) => {
                let tys = self.infer_elements(elements)?;
                Ok(Type::Tuple(tys))
            },
            Expr::Await(inner) => {
                if !self.current_fn_is_async {
                    return Err(SemaError::AwaitOutsideAsync(inner_span(inner)));
                }
                self.infer_type(inner)
            },
            Expr::Builtin(call) => self.infer_builtin(call),
            _ => Ok(Type::I32),
        }
    }

    fn infer_bin(&self, bin: &BinExpr) -> (r: SemaResult<Type>)
        ensures
            type_agrees(r, match infer(self@, view_expr(*bin.left)) {
                Err(x) => Err(x),
                Ok(l) => match infer(self@, view_expr(*bin.right)) {
                    Err(x) => Err(x),
                    Ok(rt) => bin_type(self@, SBinExpr {
                        span: bin.span,
                        op: bin.op,
                        left: Box::new(view_expr(*bin.left)),
                        right: Box::new(view_expr(*bin.right)),
                    }, l, rt),
                },
            }),
        decreases bin,
    {
        let left = self.infer_type(&bin.left)?;
        let right = self.infer_type(&bin.right)?;
        if bin.op == BinaryOp::Eq {
            match &*bin.left {
                Expr::Ident(ident) => {
                    match self.resolve(ident.sym.as_str()) {
                        Some(SymbolKind::Var { kind: VarDeclKind::Const, .. }) => {
                            return Err(SemaError::ConstAssignment(ident.sym.clone(), bin.span));
                        },
                        _ => {},
                    }
                },
                _ => {},
            }
            if !self.types_eq(&left, &right) {
                return Err(SemaError::TypeMismatch(left, right, bin.span));
            }
            Ok(left)
        } else if bin.op == BinaryOp::Lt {
            Ok(Type::Bool)
        } else {
            if !self.types_eq(&left, &right) {
                return Err(SemaError::TypeMismatch(left, right, bin.span));
            }
            Ok(left)
        }
    }

    fn infer_builtin(&self, call: &BuiltinCall) -> (r: SemaResult<Type>)
        ensures
            type_agrees(r, infer(self@, SExpr::Builtin(SBuiltinCall {
                span: call.span,
                name: call.name@,
                args: view_expr_seq(call.args@),
            }))),
        decreases call,
    {
        let n = &call.name;
        if is_void_builtin_name(n) {
            Ok(Type::Void)
        } else if string_eq_str(n, "@fs_read_file") {
            Ok(Type::String)
        } else if string_eq_str(n, "@fs_exists") {
            Ok(Type::Bool)
        } else if string_eq_str(n, "@net_connect") {
            Ok(Type::I32)
        } else if string_eq_str(n, "@self") {
            Ok(Type::PID)
        } else if string_eq_str(n, "@shared_tensor_init") {
            Ok(Type::Ref(Ident { span: Span { start: 0, end: 0 }, sym: string_of_lit("SharedTensor") }))
        } else if string_eq_str(n, "@map") {
            proof { lemma_view_expr_seq_index(call.args@); }
            if call.args.len() > 0 {
                self.infer_type(&call.args[0])
            } else {
                Ok(Type::Unknown)
            }
        } else {
            Ok(Type::Unknown)
        }
    }

    fn infer_object_fields(&self, fields: &Vec<ObjectField>) -> (r: SemaResult<Vec<Field>>)
        ensures
            match infer_fields(self@, view_object_field_seq(fields@), 0) {
                Ok(fs) => r is Ok && view_field_seq(r->Ok_0@) == fs,
                Err(e) => r is Err && view_sema_error(r->Err_0) == e,
            },
        decreases fields,
    {
        proof { lemma_view_object_field_seq_index(fields@); }
        let ghost vf = view_object_field_seq(fields@);
        let mut fs: Vec<Field> = Vec::new();
        let mut i: usize = 0;
        while i < fields.len()
            invariant
                i <= fields@.len(),
                vf == view_object_field_seq(fields@),
                vf.len() == fields@.len(),
                forall|j: int| 0 <= j < fields@.len() ==> #[trigger] vf[j] == view_object_field(fields@[j]),
                infer_fields(self@, vf, 0) == (match infer_fields(self@, vf, i as int) {
                    Ok(rest) => Ok(view_field_seq(fs@) + rest),
                    Err(e) => Err(e),
                }),
            decreases fields@.len() - i,
        {
            let f = &fields[i];
            let ty = self.infer_type(&f.val)?;
            let field = Field { span: f.key.span, ident: clone_ident(&f.key), ty };
            proof {
                lemma_view_field_seq_push(fs@, field);
                match infer_fields(self@, vf, i + 1) {
                    Ok(rest) => {
                        assert(view_field_seq(fs@.push(field)) + rest =~= view_field_seq(fs@) + (seq![view_field(field)] + rest));
                    },
                    Err(_) => {},
                }
            }
            fs.push(field);
            i = i + 1;
        }
        proof {
            assert(view_field_seq(fs@) + Seq::<SField>::empty() =~= view_field_seq(fs@));
        }
        Ok(fs)
    }

    fn infer_elements(&self, elements: &Vec<Expr>) -> (r: SemaResult<Vec<Type>>)
        ensures
            match infer_elems(self@, view_expr_seq(elements@), 0) {
                Ok(ts) => r is Ok && view_type_seq(r->Ok_0@) == ts,
                Err(e) => r is Err && view_sema_error(r->Err_0) == e,
            },
        decreases elements,
    {
        proof { lemma_view_expr_seq_index(elements@); }
        let ghost ve = view_expr_seq(elements@);
        let mut tys: Vec<Type> = Vec::new();
        let mut i: usize = 0;
        while i < elements.len()
            invariant
                i <= elements@.len(),
                ve == view_expr_seq(elements@),
                ve.len() == elements@.len(),
                forall|j: int| 0 <= j < elements@.len() ==> #[trigger] ve[j] == view_expr(elements@[j]),
                infer_elems(self@, ve, 0) == (match infer_elems(self@, ve, i as int) {
                    Ok(rest) => Ok(view_type_seq(tys@) + rest),
                    Err(e) => Err(e),
                }),
            decreases elements@.len() - i,
        {
            let ty = self.infer_type(&elements[i])?;
            proof {
                lemma_view_type_seq_push(tys@, ty);
                match infer_elems(self@, ve, i + 1) {
                    Ok(rest) => {
                        assert(view_type_seq(tys@.push(ty)) + rest =~= view_type_seq(tys@) + (seq![view_type(ty)] + rest));
                    },
                    Err(_) => {},
                }
            }
            tys.push(ty);
            i = i + 1;
        }
        proof {
            assert(view_type_seq(tys@) + Seq::<SType>::empty() =~= view_type_seq(tys@));
        }
        Ok(tys)
    }
}


/// The first field named `name`.
fn field_named<'a>(fields: &'a Vec<Field>, name: &std::string::String) -> (r: Option<&'a Field>)
    ensures
        match r {
            Some(f) => find_field(view_field_seq(fields@), name@, 0) == Some(view_field(*f)),
            None => find_field(view_field_seq(fields@), name@, 0) is None,
        },
{
    proof { lemma_view_field_seq_index(fields@); }
    let ghost vf = view_field_seq(fields@);
    let mut i: usize = 0;
    while i < fields.len()
        invariant
            i <= fields@.len(),
            vf == view_field_seq(fields@),
            vf.len() == fields@.len(),
            forall|j: int| 0 <= j < fields@.len() ==> #[trigger] vf[j] == view_field(fields@[j]),
            find_field(vf, name@, 0) == find_field(vf, name@, i as int),
        decreases fields@.len() - i,
    {
        if string_eq(&fields[i].ident.sym, name) {
            return Some(&fields[i]);
        }
        i = i + 1;
    }
    None
}

/// The declared types of the parameters.
pub fn param_types_of(ps: &Vec<Param>) -> (r: Vec<Type>)
    ensures
        view_type_seq(r@) == param_types(view_param_seq(ps@)),
{
    proof { lemma_view_param_seq_index(ps@); }
    let mut r: Vec<Type> = Vec::new();
    let mut i: usize = 0;
    while i < ps.len()
        invariant
            i <= ps@.len(),
            view_param_seq(ps@).len() == ps@.len(),
            forall|j: int| 0 <= j < ps@.len() ==> #[trigger] view_param_seq(ps@)[j] == view_param(ps@[j]),
            view_type_seq(r@) == param_types(view_param_seq(ps@)).subrange(0, i as int),
        decreases ps@.len() - i,
    {
        let t = clone_type(&ps[i].ty);
        proof {
            lemma_view_type_seq_push(r@, t);
            assert(param_types(view_param_seq(ps@)).subrange(0, i + 1)
                =~= param_types(view_param_seq(ps@)).subrange(0, i as int).push(view_type(t)));
        }
        r.push(t);
        i = i + 1;
    }
    assert(param_types(view_param_seq(ps@)).subrange(0, ps@.len() as int) =~= param_types(view_param_seq(ps@)));
    r
}

impl Analyzer {
    fn analyze_pattern(&mut self, pat: &Pattern, ty: Type, kind: &VarDeclKind) -> (r: SemaResult<()>)
        requires
            old(self).wf(),
        ensures
            final(self).wf(),
            final(self)@ == a_pattern(old(self)@, view_pattern(*pat), view_type(ty), *kind).0,
            step_agrees(r, a_pattern(old(self)@, view_pattern(*pat), view_type(ty), *kind).1),
            final(self)@.scopes.len() == old(self)@.scopes.len(),
        decreases pat,
    {
        assert(view_type_seq(Seq::<Type>::empty()) =~= Seq::<SType>::empty());
        assert(view_field_seq(Seq::<Field>::empty()) =~= Seq::<SField>::empty());
        match pat {
            Pattern::Ident(ident) => self.define(ident.sym.clone(), SymbolKind::Var { ty, kind: *kind }, ident.span),
            Pattern::Tuple(elements) => {
                let element_types = match ty {
                    Type::Tuple(tys) => tys,
                    _ => {
                        return Err(SemaError::TypeMismatch(Type::Tuple(Vec::new()), ty, Span { start: 0, end: 0 }));
                    },
                };
                proof {
                    lemma_view_pattern_seq_index(elements@);
                    lemma_view_type_seq_index(element_types@);
                }
                if elements.len() != element_types.len() {
                    return Err(SemaError::TypeMismatch(Type::Tuple(Vec::new()), Type::Tuple(element_types), Span { start: 0, end: 0 }));
                }
                self.analyze_pattern_elems(elements, &element_types, kind)
            },
            Pattern::Object(props) => {
                let fields = match ty {
                    Type::Object(fs) => fs,
                    _ => {
                        return Err(SemaError::TypeMismatch(Type::Object(Vec::new()), ty, Span { start: 0, end: 0 }));
                    },
                };
                self.analyze_pattern_props(props, &fields, kind)
            },
            _ => Ok(()),
        }
    }

    fn analyze_pattern_elems(&mut self, elements: &Vec<Pattern>, tys: &Vec<Type>, kind: &VarDeclKind) -> (r: SemaResult<()>)
        requires
            old(self).wf(),
            elements@.len() == tys@.len(),
        ensures
            final(self).wf(),
            final(self)@ == a_pat_elems(old(self)@, view_pattern_seq(elements@), view_type_seq(tys@), *kind, 0).0,
            step_agrees(r, a_pat_elems(old(self)@, view_pattern_seq(elements@), view_type_seq(tys@), *kind, 0).1),
            final(self)@.scopes.len() == old(self)@.scopes.len(),
        decreases elements,
    {
        proof {
            lemma_view_pattern_seq_index(elements@);
            lemma_view_type_seq_index(tys@);
        }
        let ghost ve = view_pattern_seq(elements@);
        let ghost vt = view_type_seq(tys@);
        let ghost st0 = self@;
        let mut i: usize = 0;
        while i < elements.len()
            invariant
                self.wf(),
                i <= elements@.len(),
                elements@.len() == tys@.len(),
                ve == view_pattern_seq(elements@),
                vt == view_type_seq(tys@),
                ve.len() == elements@.len(),
                vt.len() == tys@.len(),
                forall|j: int| 0 <= j < elements@.len() ==> #[trigger] ve[j] == view_pattern(elements@[j]),
                forall|j: int| 0 <= j < tys@.len() ==> #[trigger] vt[j] == view_type(tys@[j]),
                a_pat_elems(st0, ve, vt, *kind, 0) == a_pat_elems(self@, ve, vt, *kind, i as int),
                self@.scopes.len() == st0.scopes.len(),
                st0 == old(self)@,
            decreases elements@.len() - i,
        {
            let t = clone_type(&tys[i]);
            self.analyze_pattern(&elements[i], t, kind)?;
            i = i + 1;
        }
        Ok(())
    }

    fn analyze_pattern_props(&mut self, props: &Vec<ObjectPatProp>, fields: &Vec<Field>, kind: &VarDeclKind) -> (r: SemaResult<()>)
        requires
            old(self).wf(),
        ensures
            final(self).wf(),
            final(self)@ == a_pat_props(old(self)@, view_object_pat_prop_seq(props@), view_field_seq(fields@), *kind, 0).0,
            step_agrees(r, a_pat_props(old(self)@, view_object_pat_prop_seq(props@), view_field_seq(fields@), *kind, 0).1),
            final(self)@.scopes.len() == old(self)@.scopes.len(),
        decreases props,
    {
        proof { lemma_view_object_pat_prop_seq_index(props@); }
        let ghost vp = view_object_pat_prop_seq(props@);
        let ghost vf = view_field_seq(fields@);
        let ghost st0 = self@;
        let mut i: usize = 0;
        while i < props.len()
            invariant
                self.wf(),
                i <= props@.len(),
                vp == view_object_pat_prop_seq(props@),
                vf == view_field_seq(fields@),
                vp.len() == props@.len(),
                forall|j: int| 0 <= j < props@.len() ==> #[trigger] vp[j] == view_object_pat_prop(props@[j]),
                a_pat_props(st0, vp, vf, *kind, 0) == a_pat_props(self@, vp, vf, *kind, i as int),
                self@.scopes.len() == st0.scopes.len(),
                st0 == old(self)@,
            decreases props@.len() - i,
        {
            let prop = &props[i];
            let field = match field_named(fields, &prop.key.sym) {
                Some(f) => f,
                None => {
                    return Err(SemaError::UndefinedSymbol(prop.key.sym.clone(), prop.key.span));
                },
            };
            match &prop.val {
                Some(inner_pat) => {
                    self.analyze_pattern(inner_pat, clone_type(&field.ty), kind)?;
                },
                None => {
                    self.define(prop.key.sym.clone(), SymbolKind::Var { ty: clone_type(&field.ty), kind: *kind }, prop.key.span)?;
                },
            }
            i = i + 1;
        }
        Ok(())
    }

    fn analyze_expr(&mut self, expr: &Expr) -> (r: SemaResult<()>)
        requires
            old(self).wf(),
        ensures
            final(self).wf(),
            final(self)@ == a_expr(old(self)@, view_expr(*expr)).0,
            step_agrees(r, a_expr(old(self)@, view_expr(*expr)).1),
            final(self)@.scopes.len() >= old(self)@.scopes.len(),
            r is Ok ==> final(self)@.scopes.len() == old(self)@.scopes.len(),
        decreases expr, 0nat,
    {
        match expr {
            Expr::Ident(ident) => {
                let found = match self.resolve(ident.sym.as_str()) {
                    Some(kind) => Some(clone_symbol_kind(kind)),
                    None => None,
                };
                match found {
                    Some(kind) => self.note(ident.span, kind),
                    None => {},
                }
                Ok(())
            },
            Expr::Bin(bin) => {
                self.analyze_expr(&bin.left)?;
                self.analyze_expr(&bin.right)
            },
            Expr::Call(call) => {
                self.analyze_expr(&call.callee)?;
                self.analyze_exprs(&call.args)
            },
            Expr::New(call) => {
                self.analyze_expr(&call.callee)?;
                self.analyze_exprs(&call.args)
            },
            Expr::Member(member) => self.analyze_expr(&member.obj),
            Expr::Slice(slice) => {
                self.analyze_expr(&slice.obj)?;
                match &slice.start {
                    Some(s) => {
                        self.analyze_expr(s)?;
                    },
                    None => {},
                }
                match &slice.end {
                    Some(e) => {
                        self.analyze_expr(e)?;
                    },
                    None => {},
                }
                Ok(())
            },
            Expr::Match(m) => {
                self.analyze_expr(&m.disc)?;
                self.analyze_arms(&m.arms)
            },
            Expr::Array(elements) => self.analyze_exprs(elements),
            Expr::Object(fields) => self.analyze_object_fields(fields),
            Expr::Await(inner) => self.analyze_expr(inner),
            Expr::Builtin(call) => self.analyze_exprs(&call.args),
            _ => Ok(()),
        }
    }

    fn analyze_exprs(&mut self, es: &Vec<Expr>) -> (r: SemaResult<()>)
        requires
            old(self).wf(),
        ensures
            final(self).wf(),
            final(self)@ == a_exprs(old(self)@, view_expr_seq(es@), 0).0,
            step_agrees(r, a_exprs(old(self)@, view_expr_seq(es@), 0).1),
            final(self)@.scopes.len() >= old(self)@.scopes.len(),
            r is Ok ==> final(self)@.scopes.len() == old(self)@.scopes.len(),
        decreases es, 0nat,
    {
        proof { lemma_view_expr_seq_index(es@); }
        let ghost ve = view_expr_seq(es@);
        let ghost st0 = self@;
        let mut i: usize = 0;
        while i < es.len()
            invariant
                self.wf(),
                i <= es@.len(),
                ve == view_expr_seq(es@),
                ve.len() == es@.len(),
                forall|j: int| 0 <= j < es@.len() ==> #[trigger] ve[j] == view_expr(es@[j]),
                a_exprs(st0, ve, 0) == a_exprs(self@, ve, i as int),
                self@.scopes.len() == st0.scopes.len(),
                st0 == old(self)@,
            decreases es@.len() - i,
        {
            self.analyze_expr(&es[i])?;
            i = i + 1;
        }
        Ok(())
    }

    fn analyze_object_fields(&mut self, fs: &Vec<ObjectField>) -> (r: SemaResult<()>)
        requires
            old(self).wf(),
        ensures
            final(self).wf(),
            final(self)@ == a_object_fields(old(self)@, view_object_field_seq(fs@), 0).0,
            step_agrees(r, a_object_fields(old(self)@, view_object_field_seq(fs@), 0).1),
            final(self)@.scopes.len() >= old(self)@.scopes.len(),
            r is Ok ==> final(self)@.scopes.len() == old(self)@.scopes.len(),
        decreases fs, 0nat,
    {
        proof { lemma_view_object_field_seq_index(fs@); }
        let ghost vf = view_object_field_seq(fs@);
        let ghost st0 = self@;
        let mut i: usize = 0;
        while i < fs.len()
            invariant
                self.wf(),
                i <= fs@.len(),
                vf == view_object_field_seq(fs@),
                vf.len() == fs@.len(),
                forall|j: int| 0 <= j < fs@.len() ==> #[trigger] vf[j] == view_object_field(fs@[j]),
                a_object_fields(st0, vf, 0) == a_object_fields(self@, vf, i as int),
                self@.scopes.len() == st0.scopes.len(),
                st0 == old(self)@,
            decreases fs@.len() - i,
        {
            self.analyze_expr(&fs[i].val)?;
            i = i + 1;
        }
        Ok(())
    }

    fn analyze_arms(&mut self, arms: &Vec<MatchArm>) -> (r: SemaResult<()>)
        requires
            old(self).wf(),
        ensures
            final(self).wf(),
            final(self)@ == a_arms(old(self)@, view_match_arm_seq(arms@), 0).0,
            step_agrees(r, a_arms(old(self)@, view_match_arm_seq(arms@), 0).1),
            final(self)@.scopes.len() >= old(self)@.scopes.len(),
            r is Ok ==> final(self)@.scopes.len() == old(self)@.scopes.len(),
        decreases arms, 0nat,
    {
        proof { lemma_view_match_arm_seq_index(arms@); }
        let ghost va = view_match_arm_seq(arms@);
        let ghost st0 = self@;
        let mut i: usize = 0;
        while i < arms.len()
            invariant
                self.wf(),
                i <= arms@.len(),
                va == view_match_arm_seq(arms@),
                va.len() == arms@.len(),
                forall|j: int| 0 <= j < arms@.len() ==> #[trigger] va[j] == view_match_arm(arms@[j]),
                a_arms(st0, va, 0) == a_arms(self@, va, i as int),
                self@.scopes.len() == st0.scopes.len(),
                st0 == old(self)@,
            decreases arms@.len() - i,
        {
            self.analyze_stmt(&arms[i].body)?;
            i = i + 1;
        }
        Ok(())
    }

    /// Infers the type of `expr` (for its errors), then records its names.
    fn analyze_checked_expr(&mut self, expr: &Expr) -> (r: SemaResult<()>)
        requires
            old(self).wf(),
        ensures
            final(self).wf(),
            final(self)@ == a_checked_expr(old(self)@, view_expr(*expr)).0,
            step_agrees(r, a_checked_expr(old(self)@, view_expr(*expr)).1),
            final(self)@.scopes.len() >= old(self)@.scopes.len(),
            r is Ok ==> final(self)@.scopes.len() == old(self)@.scopes.len(),
        decreases expr, 1nat,
    {
        self.infer_type(expr)?;
        self.analyze_expr(expr)
    }

    fn analyze_stmt(&mut self, stmt: &Stmt) -> (r: SemaResult<()>)
        requires
            old(self).wf(),
        ensures
            final(self).wf(),
            final(self)@ == a_stmt(old(self)@, view_stmt(*stmt)).0,
            step_agrees(r, a_stmt(old(self)@, view_stmt(*stmt)).1),
            final(self)@.scopes.len() >= old(self)@.scopes.len(),
            r is Ok ==> final(self)@.scopes.len() == old(self)@.scopes.len(),
        decreases stmt, 0nat,
    {
        match stmt {
            Stmt::Var(var) => {
                let mut inferred_ty = Type::Unknown;
                match &var.init {
                    Some(init) => {
                        inferred_ty = self.infer_type(init)?;
                        self.analyze_expr(init)?;
                    },
                    None => {},
                }
                let ty = match &var.ty {
                    Some(t) => clone_type(t),
                    None => inferred_ty,
                };
                self.analyze_pattern(&var.pat, ty, &var.kind)
            },
            Stmt::Expr(expr) => self.analyze_checked_expr(expr),
            Stmt::Block(block) => self.analyze_block(block),
            Stmt::If(i) => {
                self.analyze_checked_expr(&i.test)?;
                self.analyze_stmt(&i.cons)?;
                match &i.alt {
                    Some(alt) => {
                        self.analyze_stmt(alt)?;
                    },
                    None => {},
                }
                Ok(())
            },
            Stmt::While(w) => {
                self.analyze_checked_expr(&w.test)?;
                self.analyze_stmt(&w.body)
            },
            Stmt::Return(r) => {
                match &r.arg {
                    Some(arg) => self.analyze_checked_expr(arg),
                    None => Ok(()),
                }
            },
            _ => Ok(()),
        }
    }

    fn analyze_stmts(&mut self, ss: &Vec<Stmt>) -> (r: SemaResult<()>)
        requires
            old(self).wf(),
        ensures
            final(self).wf(),
            final(self)@ == a_stmts(old(self)@, view_stmt_seq(ss@), 0).0,
            step_agrees(r, a_stmts(old(self)@, view_stmt_seq(ss@), 0).1),
            final(self)@.scopes.len() >= old(self)@.scopes.len(),
            r is Ok ==> final(self)@.scopes.len() == old(self)@.scopes.len(),
        decreases ss, 0nat,
    {
        proof { lemma_view_stmt_seq_index(ss@); }
        let ghost vs = view_stmt_seq(ss@);
        let ghost st0 = self@;
        let mut i: usize = 0;
        while i < ss.len()
            invariant
                self.wf(),
                i <= ss@.len(),
                vs == view_stmt_seq(ss@),
                vs.len() == ss@.len(),
                forall|j: int| 0 <= j < ss@.len() ==> #[trigger] vs[j] == view_stmt(ss@[j]),
                a_stmts(st0, vs, 0) == a_stmts(self@, vs, i as int),
                self@.scopes.len() == st0.scopes.len(),
                st0 == old(self)@,
            decreases ss@.len() - i,
        {
            self.analyze_stmt(&ss[i])?;
            i = i + 1;
        }
        Ok(())
    }

    fn analyze_block(&mut self, block: &BlockStmt) -> (r: SemaResult<()>)
        requires
            old(self).wf(),
        ensures
            final(self).wf(),
            final(self)@ == a_block(old(self)@, view_block_stmt(*block)).0,
            step_agrees(r, a_block(old(self)@, view_block_stmt(*block)).1),
            final(self)@.scopes.len() >= old(self)@.scopes.len(),
            r is Ok ==> final(self)@.scopes.len() == old(self)@.scopes.len(),
        decreases block, 0nat,
    {
        self.enter_scope();
        self.analyze_stmts(&block.body)?;
        self.exit_scope();
        Ok(())
    }
}


impl Analyzer {
    /// Binds the parameters as variables.
    fn define_params(&mut self, ps: &Vec<Param>)
        requires
            old(self).wf(),
        ensures
            final(self).wf(),
            final(self)@ == a_params(old(self)@, view_param_seq(ps@), 0),
            final(self)@.scopes.len() == old(self)@.scopes.len(),
    {
        proof { lemma_view_param_seq_index(ps@); }
        let ghost vp = view_param_seq(ps@);
        let ghost st0 = self@;
        let mut i: usize = 0;
        while i < ps.len()
            invariant
                self.wf(),
                i <= ps@.len(),
                vp == view_param_seq(ps@),
                vp.len() == ps@.len(),
                forall|j: int| 0 <= j < ps@.len() ==> #[trigger] vp[j] == view_param(ps@[j]),
                a_params(st0, vp, 0) == a_params(self@, vp, i as int),
                self@.scopes.len() == st0.scopes.len(),
                st0 == old(self)@,
            decreases ps@.len() - i,
        {
            let p = &ps[i];
            let p_kind = SymbolKind::Var { ty: clone_type(&p.ty), kind: VarDeclKind::Let };
            let p_kind2 = clone_symbol_kind(&p_kind);
            let _ = self.define(p.ident.sym.clone(), p_kind, p.ident.span);
            self.note(p.ident.span, p_kind2);
            i = i + 1;
        }
    }

    /// The bodies of the methods, each with its own `async`-ness.
    fn analyze_methods(&mut self, ms: &Vec<Function>) -> (r: SemaResult<()>)
        requires
            old(self).wf(),
        ensures
            final(self).wf(),
            final(self)@ == a_methods(old(self)@, view_function_seq(ms@), 0).0,
            step_agrees(r, a_methods(old(self)@, view_function_seq(ms@), 0).1),
    {
        proof { lemma_view_function_seq_index(ms@); }
        let ghost vm = view_function_seq(ms@);
        let ghost st0 = self@;
        let mut i: usize = 0;
        while i < ms.len()
            invariant
                self.wf(),
                i <= ms@.len(),
                vm == view_function_seq(ms@),
                vm.len() == ms@.len(),
                forall|j: int| 0 <= j < ms@.len() ==> #[trigger] vm[j] == view_function(ms@[j]),
                a_methods(st0, vm, 0) == a_methods(self@, vm, i as int),
                st0 == old(self)@,
            decreases ms@.len() - i,
        {
            let m = &ms[i];
            let old_async = self.current_fn_is_async;
            self.set_async(m.is_async);
            self.analyze_block(&m.body)?;
            self.set_async(old_async);
            i = i + 1;
        }
        Ok(())
    }

    fn analyze_decl(&mut self, decl: &Decl) -> (r: SemaResult<()>)
        requires
            old(self).wf(),
        ensures
            final(self).wf(),
            final(self)@ == a_decl(old(self)@, view_decl(*decl)).0,
            step_agrees(r, a_decl(old(self)@, view_decl(*decl)).1),
    {
        match decl {
            Decl::Func(f) => {
                let params = param_types_of(&f.params);
                let ret = match &f.return_type {
                    Some(t) => Some(clone_type(t)),
                    None => None,
                };
                let kind = SymbolKind::Func { params, ret, is_async: f.is_async };
                let kind2 = clone_symbol_kind(&kind);
                self.define(f.ident.sym.clone(), kind, f.ident.span)?;
                self.note(f.ident.span, kind2);
                let old_async = self.current_fn_is_async;
                self.set_async(f.is_async);
                self.enter_scope();
                self.define_params(&f.params);
                self.analyze_stmts(&f.body.body)?;
                self.exit_scope();
                self.set_async(old_async);
                Ok(())
            },
            Decl::Class(c) => self.analyze_methods(&c.methods),
            _ => Ok(()),
        }
    }

    /// The first pass over a module: binds the classes, traits and enums it declares.
    fn declare_items(&mut self, items: &Vec<ModuleItem>)
        requires
            old(self).wf(),
        ensures
            final(self).wf(),
            final(self)@ == a_declare(old(self)@, view_module_item_seq(items@), 0),
    {
        proof { lemma_view_module_item_seq_index(items@); }
        let ghost vi = view_module_item_seq(items@);
        let ghost st0 = self@;
        let mut i: usize = 0;
        while i < items.len()
            invariant
                self.wf(),
                i <= items@.len(),
                vi == view_module_item_seq(items@),
                vi.len() == items@.len(),
                forall|j: int| 0 <= j < items@.len() ==> #[trigger] vi[j] == view_module_item(items@[j]),
                a_declare(st0, vi, 0) == a_declare(self@, vi, i as int),
                st0 == old(self)@,
            decreases items@.len() - i,
        {
            match &items[i] {
                ModuleItem::Decl(Decl::Class(c)) => {
                    self.add_class(c.ident.sym.clone(), clone_class(c));
                    let _ = self.define(c.ident.sym.clone(), SymbolKind::Class(clone_class(c)), c.ident.span);
                    self.note(c.ident.span, SymbolKind::Class(clone_class(c)));
                },
                ModuleItem::Decl(Decl::Trait(t)) => {
                    let _ = self.define(t.ident.sym.clone(), SymbolKind::Trait(clone_trait_decl(t)), t.ident.span);
                    self.note(t.ident.span, SymbolKind::Trait(clone_trait_decl(t)));
                },
                ModuleItem::Decl(Decl::Enum(e)) => {
                    let _ = self.define(e.ident.sym.clone(), SymbolKind::Enum(clone_enum_decl(e)), e.ident.span);
                    self.note(e.ident.span, SymbolKind::Enum(clone_enum_decl(e)));
                },
                _ => {},
            }
            i = i + 1;
        }
    }

    /// The second pass over a module: its declarations and statements in order.
    fn analyze_items(&mut self, items: &Vec<ModuleItem>) -> (r: SemaResult<()>)
        requires
            old(self).wf(),
        ensures
            final(self).wf(),
            final(self)@ == a_items(old(self)@, view_module_item_seq(items@), 0).0,
            step_agrees(r, a_items(old(self)@, view_module_item_seq(items@), 0).1),
    {
        proof { lemma_view_module_item_seq_index(items@); }
        let ghost vi = view_module_item_seq(items@);
        let ghost st0 = self@;
        let mut i: usize = 0;
        while i < items.len()
            invariant
                self.wf(),
                i <= items@.len(),
                vi == view_module_item_seq(items@),
                vi.len() == items@.len(),
                forall|j: int| 0 <= j < items@.len() ==> #[trigger] vi[j] == view_module_item(items@[j]),
                a_items(st0, vi, 0) == a_items(self@, vi, i as int),
                st0 == old(self)@,
            decreases items@.len() - i,
        {
            match &items[i] {
                ModuleItem::Decl(decl) => {
                    self.analyze_decl(decl)?;
                },
                ModuleItem::Stmt(stmt) => {
                    self.analyze_stmt(stmt)?;
                },
                ModuleItem::Import(_) => {},
            }
            i = i + 1;
        }
        Ok(())
    }

    /// Analyzes `module`: binds what it declares, then checks its declarations
    /// and statements in order, stopping at the first error. What was bound and
    /// recorded up to that error stays in the analyzer.
    pub fn analyze_module(&mut self, module: &Module) -> (r: SemaResult<()>)
        requires
            old(self).wf(),
        ensures
            final(self).wf(),
            final(self)@ == a_module(old(self)@, view_module(*module)).0,
            step_agrees(r, a_module(old(self)@, view_module(*module)).1),
    {
        self.declare_items(&module.body);
        self.analyze_items(&module.body)
    }
}


} // verus!

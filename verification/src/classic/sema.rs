//! Semantic analysis of the classic `cp` front end: scopes that refuse a name
//! defined twice, interfaces that classes must implement, and type inference
//! with member types of strings, arrays, classes and interfaces.
use vstd::prelude::*;
use crate::Span;
use crate::text::{string_eq_str, string_eq, string_of_lit};
use crate::ast::{Module, ModuleItem, Decl, Function, Class, Interface, MethodSig, Stmt, BlockStmt, VarDecl, VarDeclKind, Pattern, Expr, ArrowBody, Ident, Lit, BinaryOp, Type, Field, Param};
use crate::ast::{SModule, SModuleItem, SDecl, SFunction, SClass, SInterface, SMethodSig, SStmt, SBlockStmt, SVarDecl, SPattern, SExpr, SArrowBody, SIdent, SLit, SType, SParam, SBinExpr};
use crate::ast::{view_arrow_body, view_module, view_module_item, view_decl, view_function, view_class, view_interface, view_method_sig, view_stmt, view_block_stmt, view_var_decl, view_pattern, view_expr, view_ident, view_type, view_field, view_param};
use crate::ast::{view_type_seq, view_field_seq, view_stmt_seq, view_param_seq, view_function_seq, view_method_sig_seq, view_pattern_seq, view_ident_seq, view_module_item_seq};
use crate::ast::{lemma_view_expr_seq_index, lemma_view_type_seq_push, lemma_view_field_seq_index, lemma_view_stmt_seq_index, lemma_view_param_seq_index, lemma_view_function_seq_index, lemma_view_method_sig_seq_index, lemma_view_pattern_seq_index, lemma_view_ident_seq_index, lemma_view_module_item_seq_index};
use crate::ast::{clone_type, clone_type_vec, clone_class, clone_interface, clone_ident};
use crate::sema::{lookup, find_field, param_types, class_map, type_equal, param_types_of};

verus! {

// ------------------------------------------------------------------
// Symbols and errors
// ------------------------------------------------------------------

/// What a name stands for.
pub enum SymbolKind {
    Var { ty: Type, kind: VarDeclKind },
    Func { params: Vec<Type>, ret: Option<Type> },
    Class(Class),
    Interface(Interface),
}

/// The mathematical form of a [`SymbolKind`].
pub enum CSymbolKind {
    Var { ty: SType, kind: VarDeclKind },
    Func { params: Seq<SType>, ret: Option<SType> },
    Class(SClass),
    Interface(SInterface),
}

pub open spec fn view_symbol_kind(k: SymbolKind) -> CSymbolKind {
    match k {
        SymbolKind::Var { ty, kind } => CSymbolKind::Var { ty: view_type(ty), kind },
        SymbolKind::Func { params, ret } => CSymbolKind::Func {
            params: view_type_seq(params@),
            ret: match ret { Some(t) => Some(view_type(t)), None => None },
        },
        SymbolKind::Class(c) => CSymbolKind::Class(view_class(c)),
        SymbolKind::Interface(i) => CSymbolKind::Interface(view_interface(i)),
    }
}

impl View for SymbolKind {
    type V = CSymbolKind;

    open spec fn view(&self) -> CSymbolKind {
        view_symbol_kind(*self)
    }
}

/// A semantic error of the classic front end.
#[derive(Debug)]
pub enum SemaError {
    UndefinedSymbol(std::string::String, Span),
    DuplicateSymbol(std::string::String, Span),
    TypeMismatch(Type, Type, Span),
    MissingType(Span),
    ConstAssignment(std::string::String, Span),
    NotAFunction(Span),
    InterfaceNotSatisfied(std::string::String, std::string::String, std::string::String, Span),
}

/// The mathematical form of a [`SemaError`].
pub enum CSemaError {
    UndefinedSymbol(Seq<char>, Span),
    DuplicateSymbol(Seq<char>, Span),
    TypeMismatch(SType, SType, Span),
    MissingType(Span),
    ConstAssignment(Seq<char>, Span),
    NotAFunction(Span),
    InterfaceNotSatisfied(Seq<char>, Seq<char>, Seq<char>, Span),
}

pub open spec fn view_sema_error(e: SemaError) -> CSemaError {
    match e {
        SemaError::UndefinedSymbol(n, s) => CSemaError::UndefinedSymbol(n@, s),
        SemaError::DuplicateSymbol(n, s) => CSemaError::DuplicateSymbol(n@, s),
        SemaError::TypeMismatch(a, b, s) => CSemaError::TypeMismatch(view_type(a), view_type(b), s),
        SemaError::MissingType(s) => CSemaError::MissingType(s),
        SemaError::ConstAssignment(n, s) => CSemaError::ConstAssignment(n@, s),
        SemaError::NotAFunction(s) => CSemaError::NotAFunction(s),
        SemaError::InterfaceNotSatisfied(c, i, m, s) => CSemaError::InterfaceNotSatisfied(c@, i@, m@, s),
    }
}

impl View for SemaError {
    type V = CSemaError;

    open spec fn view(&self) -> CSemaError {
        view_sema_error(*self)
    }
}

pub type SemaResult<T> = Result<T, SemaError>;

// ------------------------------------------------------------------
// The analyzer's state as a mathematical value
// ------------------------------------------------------------------

/// Scopes from outermost to innermost, and the classes and interfaces of the
/// module by name.
#[verifier::ext_equal]
pub struct CAnalyzer {
    pub scopes: Seq<Map<Seq<char>, CSymbolKind>>,
    pub classes: Map<Seq<char>, SClass>,
    pub interfaces: Map<Seq<char>, SInterface>,
}

/// The state after a step of the analysis, and the error the step stopped at.
pub type CStep = (CAnalyzer, Option<CSemaError>);

/// What `name` stands for: its binding in the innermost scope that binds it.
pub open spec fn cs_resolve(scopes: Seq<Map<Seq<char>, CSymbolKind>>, name: Seq<char>) -> Option<CSymbolKind>
    decreases scopes.len(),
{
    if scopes.len() == 0 {
        None
    } else {
        match lookup(scopes.last(), name) {
            Some(k) => Some(k),
            None => cs_resolve(scopes.drop_last(), name),
        }
    }
}

/// Binds `name` to `k` in the innermost scope; a name already bound there is
/// refused and leaves the state as it was.
pub open spec fn cs_define(st: CAnalyzer, name: Seq<char>, k: CSymbolKind, span: Span) -> CStep {
    let i = st.scopes.len() - 1;
    if st.scopes[i].dom().contains(name) {
        (st, Some(CSemaError::DuplicateSymbol(name, span)))
    } else {
        (CAnalyzer {
            scopes: st.scopes.update(i, st.scopes[i].insert(name, k)),
            classes: st.classes,
            interfaces: st.interfaces,
        }, None)
    }
}

pub open spec fn cs_enter(st: CAnalyzer) -> CAnalyzer {
    CAnalyzer { scopes: st.scopes.push(Map::empty()), classes: st.classes, interfaces: st.interfaces }
}

pub open spec fn cs_exit(st: CAnalyzer) -> CAnalyzer {
    CAnalyzer { scopes: st.scopes.drop_last(), classes: st.classes, interfaces: st.interfaces }
}

pub open spec fn cs_add_class(st: CAnalyzer, name: Seq<char>, c: SClass) -> CAnalyzer {
    CAnalyzer { scopes: st.scopes, classes: st.classes.insert(name, c), interfaces: st.interfaces }
}

pub open spec fn cs_add_interface(st: CAnalyzer, name: Seq<char>, i: SInterface) -> CAnalyzer {
    CAnalyzer { scopes: st.scopes, classes: st.classes, interfaces: st.interfaces.insert(name, i) }
}

/// The symbol every analysis starts with: `reply(pid, i32): i32`.
pub open spec fn reply_symbol() -> CSymbolKind {
    CSymbolKind::Func { params: seq![SType::PID, SType::I32], ret: Some(SType::I32) }
}

// ------------------------------------------------------------------
// Type inference
// ------------------------------------------------------------------

/// The type of a function with these parameters and return type (`i32` when
/// none is given).
pub open spec fn fn_type(params: Seq<SParam>, ret: Option<SType>) -> SType {
    SType::Fn(param_types(params), Box::new(match ret { Some(t) => t, None => SType::I32 }))
}

/// The first method named `name` from index `i` on.
pub open spec fn find_method(ms: Seq<SFunction>, name: Seq<char>, i: int) -> Option<SFunction>
    decreases ms.len() - i,
{
    if i < 0 || i >= ms.len() {
        None
    } else if ms[i].ident.sym == name {
        Some(ms[i])
    } else {
        find_method(ms, name, i + 1)
    }
}

/// The first signature named `name` from index `i` on.
pub open spec fn find_sig(ms: Seq<SMethodSig>, name: Seq<char>, i: int) -> Option<SMethodSig>
    decreases ms.len() - i,
{
    if i < 0 || i >= ms.len() {
        None
    } else if ms[i].ident.sym == name {
        Some(ms[i])
    } else {
        find_sig(ms, name, i + 1)
    }
}

/// The type of member `prop` of a value of the class or interface `name`: a
/// field of the class, then a method of the class, then a method of the interface.
pub open spec fn cs_ref_member(st: CAnalyzer, name: Seq<char>, prop: SIdent) -> Result<SType, CSemaError> {
    let in_class: Option<SType> = if st.classes.dom().contains(name) {
        let c = st.classes[name];
        match find_field(c.fields, prop.sym, 0) {
            Some(f) => Some(f.ty),
            None => match find_method(c.methods, prop.sym, 0) {
                Some(m) => Some(fn_type(m.params, m.return_type)),
                None => None,
            },
        }
    } else {
        None
    };
    match in_class {
        Some(t) => Ok(t),
        None => {
            let in_iface: Option<SType> = if st.interfaces.dom().contains(name) {
                match find_sig(st.interfaces[name].methods, prop.sym, 0) {
                    Some(m) => Some(fn_type(m.params, m.return_type)),
                    None => None,
                }
            } else {
                None
            };
            match in_iface {
                Some(t) => Ok(t),
                None => Err(CSemaError::UndefinedSymbol(prop.sym, prop.span)),
            }
        },
    }
}

/// The type of member `prop` of a value of type `obj`.
pub open spec fn cs_member(st: CAnalyzer, obj: SType, prop: SIdent) -> Result<SType, CSemaError> {
    match obj {
        SType::String => if prop.sym == "length"@ {
            Ok(SType::USize)
        } else if prop.sym == "at"@ {
            Ok(SType::Fn(seq![SType::I32], Box::new(SType::String)))
        } else {
            Err(CSemaError::UndefinedSymbol(prop.sym, prop.span))
        },
        SType::Array(inner) => if prop.sym == "length"@ {
            Ok(SType::USize)
        } else if prop.sym == "at"@ {
            Ok(SType::Fn(seq![SType::I32], inner))
        } else if prop.sym == "map"@ {
            let callback = SType::Fn(seq![*inner], Box::new(SType::Unknown));
            Ok(SType::Fn(seq![callback], Box::new(SType::Array(Box::new(SType::Unknown)))))
        } else {
            Err(CSemaError::UndefinedSymbol(prop.sym, prop.span))
        },
        SType::Ref(id) => cs_ref_member(st, id.sym, prop),
        _ => Ok(SType::I32),
    }
}

/// The parameter types of an arrow function: `i32` for each parameter that is a name.
pub open spec fn arrow_param_types(ps: Seq<SPattern>) -> Seq<SType>
    decreases ps.len(),
{
    if ps.len() == 0 {
        Seq::empty()
    } else {
        let rest = arrow_param_types(ps.drop_last());
        if ps.last() is Ident { rest.push(SType::I32) } else { rest }
    }
}

/// The type of a name.
pub open spec fn cs_infer_name(st: CAnalyzer, id: SIdent) -> Result<SType, CSemaError> {
    if id.sym == "true"@ || id.sym == "false"@ {
        Ok(SType::Bool)
    } else {
        match cs_resolve(st.scopes, id.sym) {
            Some(CSymbolKind::Var { ty, .. }) => Ok(ty),
            Some(CSymbolKind::Func { params, ret }) => Ok(SType::Fn(params, Box::new(match ret {
                Some(t) => t,
                None => SType::I32,
            }))),
            Some(CSymbolKind::Class(c)) => Ok(SType::Ref(c.ident)),
            _ => Err(CSemaError::UndefinedSymbol(id.sym, id.span)),
        }
    }
}

/// The type of an expression, or the error that inferring it meets first.
pub open spec fn cs_infer(st: CAnalyzer, e: SExpr) -> Result<SType, CSemaError>
    decreases e,
{
    match e {
        SExpr::Lit(l) => Ok(match l {
            SLit::Int(_) => SType::I32,
            SLit::Float(_) => SType::F32,
            SLit::Bool(_) => SType::Bool,
            SLit::Str(_) => SType::String,
            SLit::Null => SType::Unknown,
        }),
        SExpr::Ident(id) => cs_infer_name(st, id),
        SExpr::Bin(b) => match cs_infer(st, *b.left) {
            Err(x) => Err(x),
            Ok(l) => match cs_infer(st, *b.right) {
                Err(x) => Err(x),
                Ok(_) => if b.op == BinaryOp::Lt { Ok(SType::Bool) } else { Ok(l) },
            },
        },
        SExpr::Call(c) => match cs_infer(st, *c.callee) {
            Err(x) => Err(x),
            Ok(t) => match t {
                SType::Fn(_, ret) => Ok(*ret),
                _ => Err(CSemaError::NotAFunction(c.span)),
            },
        },
        SExpr::New(c) => match *c.callee {
            SExpr::Ident(id) => if st.classes.dom().contains(id.sym) {
                Ok(SType::Ref(id))
            } else {
                Err(CSemaError::UndefinedSymbol("Class"@, c.span))
            },
            _ => Err(CSemaError::UndefinedSymbol("Class"@, c.span)),
        },
        SExpr::Spawn(_) => Ok(SType::PID),
        SExpr::Receive(ty) => Ok(match ty {
            Some(t) => *t,
            None => SType::I32,
        }),
        SExpr::Slice(x) => cs_infer(st, *x.obj),
        SExpr::Member(m) => match cs_infer(st, *m.obj) {
            Err(x) => Err(x),
            Ok(t) => cs_member(st, t, m.prop),
        },
        SExpr::Array(elems) => if elems.len() == 0 {
            Ok(SType::Array(Box::new(SType::Unknown)))
        } else {
            match cs_infer(st, elems[0]) {
                Err(x) => Err(x),
                Ok(t) => Ok(SType::Array(Box::new(t))),
            }
        },
        SExpr::Arrow(a) => {
            let ret: Result<SType, CSemaError> = match *a.body {
                SArrowBody::Expr(x) => cs_infer(st, x),
                SArrowBody::Block(_) => Ok(SType::I32),
            };
            match ret {
                Err(x) => Err(x),
                Ok(r) => Ok(SType::Fn(arrow_param_types(a.params), Box::new(r))),
            }
        },
        _ => Ok(SType::I32),
    }
}

// ------------------------------------------------------------------
// Patterns, statements and blocks
// ------------------------------------------------------------------

/// Binds the names of `pat`, matched against a value of type `ty`.
pub open spec fn cs_pattern(st: CAnalyzer, pat: SPattern, ty: SType, kind: VarDeclKind) -> CStep
    decreases pat, 0nat,
{
    match pat {
        SPattern::Ident(id) => cs_define(st, id.sym, CSymbolKind::Var { ty, kind }, id.span),
        SPattern::Array(elems) => match ty {
            SType::Array(inner) => cs_pat_elems(st, elems, *inner, kind, 0),
            _ => (st, Some(CSemaError::TypeMismatch(
                SType::Array(Box::new(SType::Unknown)),
                ty,
                Span { start: 0, end: 0 },
            ))),
        },
        _ => (st, None),
    }
}

pub open spec fn cs_pat_elems(st: CAnalyzer, elems: Seq<SPattern>, ty: SType, kind: VarDeclKind, i: int) -> CStep
    decreases elems, elems.len() - i,
{
    if i < 0 || i >= elems.len() {
        (st, None)
    } else {
        let (s1, e1) = cs_pattern(st, elems[i], ty, kind);
        if e1 is Some { (s1, e1) } else { cs_pat_elems(s1, elems, ty, kind, i + 1) }
    }
}

/// Some name in `ids` is `n`.
pub open spec fn names_contain(ids: Seq<SIdent>, n: Seq<char>) -> bool {
    exists|k: int| 0 <= k < ids.len() && #[trigger] ids[k].sym == n
}

/// A value of type `ty` may stand where the interface type `declared` is
/// expected: `ty` is a class that implements that interface.
pub open spec fn cs_implements(st: CAnalyzer, declared: SType, ty: SType) -> bool {
    match declared {
        SType::Ref(target) => match ty {
            SType::Ref(source) => st.interfaces.dom().contains(target.sym)
                && st.classes.dom().contains(source.sym)
                && names_contain(st.classes[source.sym].implements, st.interfaces[target.sym].ident.sym),
            _ => false,
        },
        _ => false,
    }
}

/// The type a variable declaration gives its names.
pub open spec fn cs_var_type(st: CAnalyzer, v: SVarDecl) -> Result<SType, CSemaError> {
    match v.init {
        Some(init) => match cs_infer(st, init) {
            Err(x) => Err(x),
            Ok(t) => match v.ty {
                Some(declared) => if declared != t && !cs_implements(st, declared, t) {
                    Err(CSemaError::TypeMismatch(declared, t, v.span))
                } else {
                    Ok(t)
                },
                None => Ok(t),
            },
        },
        None => match v.ty {
            Some(t) => Ok(t),
            None => Err(CSemaError::MissingType(v.span)),
        },
    }
}

pub open spec fn cs_var_decl(st: CAnalyzer, v: SVarDecl) -> CStep {
    match cs_var_type(st, v) {
        Err(x) => (st, Some(x)),
        Ok(t) => cs_pattern(st, v.pat, t, v.kind),
    }
}

/// Infers the type of `x` for its errors only.
pub open spec fn cs_checked(st: CAnalyzer, x: SExpr) -> CStep {
    match cs_infer(st, x) {
        Err(err) => (st, Some(err)),
        Ok(_) => (st, None),
    }
}

pub open spec fn cs_stmt(st: CAnalyzer, s: SStmt) -> CStep
    decreases s, 0nat,
{
    match s {
        SStmt::Var(v) => cs_var_decl(st, v),
        SStmt::Block(b) => cs_block(st, b),
        SStmt::Return(r) => match r.arg {
            Some(arg) => cs_checked(st, arg),
            None => (st, None),
        },
        SStmt::Expr(x) => cs_checked(st, x),
        SStmt::While(w) => match cs_infer(st, w.test) {
            Err(err) => (st, Some(err)),
            Ok(t) => if t != SType::Bool {
                (st, Some(CSemaError::TypeMismatch(SType::Bool, t, w.span)))
            } else {
                cs_stmt(st, *w.body)
            },
        },
        _ => (st, None),
    }
}

pub open spec fn cs_stmts(st: CAnalyzer, ss: Seq<SStmt>, i: int) -> CStep
    decreases ss, ss.len() - i,
{
    if i < 0 || i >= ss.len() {
        (st, None)
    } else {
        let (s1, e1) = cs_stmt(st, ss[i]);
        if e1 is Some { (s1, e1) } else { cs_stmts(s1, ss, i + 1) }
    }
}

/// The statements of `b` in a scope of their own.
pub open spec fn cs_block(st: CAnalyzer, b: SBlockStmt) -> CStep
    decreases b, 0nat,
{
    let (s1, e1) = cs_stmts(cs_enter(st), b.body, 0);
    if e1 is Some { (s1, e1) } else { (cs_exit(s1), None) }
}

// ------------------------------------------------------------------
// Declarations and modules
// ------------------------------------------------------------------

/// Binds the parameters from index `i` on as variables.
pub open spec fn cs_params(st: CAnalyzer, ps: Seq<SParam>, i: int) -> CStep
    decreases ps.len() - i,
{
    if i < 0 || i >= ps.len() {
        (st, None)
    } else {
        let (s1, e1) = cs_define(st, ps[i].ident.sym, CSymbolKind::Var { ty: ps[i].ty, kind: VarDeclKind::Let }, ps[i].ident.span);
        if e1 is Some { (s1, e1) } else { cs_params(s1, ps, i + 1) }
    }
}

/// The symbol a function declaration binds its name to.
pub open spec fn func_symbol(f: SFunction) -> CSymbolKind {
    CSymbolKind::Func { params: param_types(f.params), ret: f.return_type }
}

/// A function: its name in the current scope, its parameters in a scope of
/// their own, and its body.
pub open spec fn cs_function(st: CAnalyzer, f: SFunction) -> CStep {
    let (s1, e1) = cs_define(st, f.ident.sym, func_symbol(f), f.ident.span);
    if e1 is Some {
        (s1, e1)
    } else {
        let (s2, e2) = cs_params(cs_enter(s1), f.params, 0);
        if e2 is Some {
            (s2, e2)
        } else {
            let (s3, e3) = cs_block(s2, f.body);
            if e3 is Some { (s3, e3) } else { (cs_exit(s3), None) }
        }
    }
}

/// Some method in `ms` is named `n`.
pub open spec fn has_method(ms: Seq<SFunction>, n: Seq<char>) -> bool {
    exists|k: int| 0 <= k < ms.len() && #[trigger] ms[k].ident.sym == n
}

/// The first signature of `iface` from index `j` on that class `c` has no method for.
pub open spec fn cs_missing_method(c: SClass, iface: SInterface, j: int) -> Option<CSemaError>
    decreases iface.methods.len() - j,
{
    if j < 0 || j >= iface.methods.len() {
        None
    } else if !has_method(c.methods, iface.methods[j].ident.sym) {
        Some(CSemaError::InterfaceNotSatisfied(c.ident.sym, iface.ident.sym, iface.methods[j].ident.sym, c.span))
    } else {
        cs_missing_method(c, iface, j + 1)
    }
}

/// The interfaces that class `c` names from index `i` on exist, and `c` has a
/// method for each of their signatures.
pub open spec fn cs_check_impls(st: CAnalyzer, c: SClass, i: int) -> Option<CSemaError>
    decreases c.implements.len() - i,
{
    if i < 0 || i >= c.implements.len() {
        None
    } else {
        let id = c.implements[i];
        if !st.interfaces.dom().contains(id.sym) {
            Some(CSemaError::UndefinedSymbol(id.sym, id.span))
        } else {
            match cs_missing_method(c, st.interfaces[id.sym], 0) {
                Some(e) => Some(e),
                None => cs_check_impls(st, c, i + 1),
            }
        }
    }
}

pub open spec fn cs_decl(st: CAnalyzer, d: SDecl) -> CStep {
    match d {
        SDecl::Func(f) => cs_function(st, f),
        SDecl::Class(c) => (st, cs_check_impls(st, c, 0)),
        _ => (st, None),
    }
}

/// The first pass over a module: its classes and interfaces, from index `i` on.
pub open spec fn cs_declare(st: CAnalyzer, items: Seq<SModuleItem>, i: int) -> CStep
    decreases items.len() - i,
{
    if i < 0 || i >= items.len() {
        (st, None)
    } else {
        let (s1, e1) = match items[i] {
            SModuleItem::Decl(SDecl::Class(c)) =>
                cs_define(cs_add_class(st, c.ident.sym, c), c.ident.sym, CSymbolKind::Class(c), c.ident.span),
            SModuleItem::Decl(SDecl::Interface(f)) =>
                cs_define(cs_add_interface(st, f.ident.sym, f), f.ident.sym, CSymbolKind::Interface(f), f.ident.span),
            _ => (st, None),
        };
        if e1 is Some { (s1, e1) } else { cs_declare(s1, items, i + 1) }
    }
}

/// The second pass over a module: its declarations and statements from index `i` on.
pub open spec fn cs_items(st: CAnalyzer, items: Seq<SModuleItem>, i: int) -> CStep
    decreases items.len() - i,
{
    if i < 0 || i >= items.len() {
        (st, None)
    } else {
        let (s1, e1) = match items[i] {
            SModuleItem::Decl(d) => cs_decl(st, d),
            SModuleItem::Stmt(s) => cs_stmt(st, s),
            SModuleItem::Import(_) => (st, None),
        };
        if e1 is Some { (s1, e1) } else { cs_items(s1, items, i + 1) }
    }
}

/// The analysis of a module: classes and interfaces first, then everything in order.
pub open spec fn cs_module(st: CAnalyzer, m: SModule) -> CStep {
    let (s1, e1) = cs_declare(st, m.body, 0);
    if e1 is Some { (s1, e1) } else { cs_items(s1, m.body, 0) }
}

// ------------------------------------------------------------------
// Laws
// ------------------------------------------------------------------

/// The classic analyzer types a binary expression whose operands have types by its
/// operator alone: a comparison `<` is a `bool`, and every other operator,
/// assignment included, has the type of its left operand.
pub proof fn law_c_binary_types(st: CAnalyzer, b: SBinExpr)
    requires
        cs_infer(st, *b.left) is Ok,
        cs_infer(st, *b.right) is Ok,
    ensures
        b.op == BinaryOp::Lt ==> cs_infer(st, SExpr::Bin(b)) == Ok::<SType, CSemaError>(SType::Bool),
        b.op != BinaryOp::Lt ==> cs_infer(st, SExpr::Bin(b)) == cs_infer(st, *b.left),
{
}

/// After a name is defined, it resolves to what it was defined as.
pub proof fn law_resolve_after_define(st: CAnalyzer, name: Seq<char>, k: CSymbolKind, span: Span)
    requires
        st.scopes.len() >= 1,
        cs_define(st, name, k, span).1 is None,
    ensures
        cs_resolve(cs_define(st, name, k, span).0.scopes, name) == Some(k),
{
    let sc = cs_define(st, name, k, span).0.scopes;
    assert(sc.last() == st.scopes.last().insert(name, k));
}

/// A name cannot be defined twice in one scope: the second definition is
/// refused with `DuplicateSymbol` at its own span and changes nothing.
pub proof fn law_duplicate_refused(st: CAnalyzer, name: Seq<char>, k1: CSymbolKind, s1: Span, k2: CSymbolKind, s2: Span)
    requires
        st.scopes.len() >= 1,
        cs_define(st, name, k1, s1).1 is None,
    ensures
        ({
            let st1 = cs_define(st, name, k1, s1).0;
            cs_define(st1, name, k2, s2) == (st1, Some(CSemaError::DuplicateSymbol(name, s2)))
        }),
{
    let st1 = cs_define(st, name, k1, s1).0;
    let i = st.scopes.len() - 1;
    assert(st1.scopes[i].dom().contains(name));
}

/// What is defined in a block is forgotten when the block ends: every name
/// resolves afterwards as it did before the block.
pub proof fn law_block_scope_ends(st: CAnalyzer, name: Seq<char>, k: CSymbolKind, span: Span, n: Seq<char>)
    requires
        cs_define(cs_enter(st), name, k, span).1 is None,
    ensures
        cs_resolve(cs_exit(cs_define(cs_enter(st), name, k, span).0).scopes, n) == cs_resolve(st.scopes, n),
{
    assert(cs_exit(cs_define(cs_enter(st), name, k, span).0).scopes =~= st.scopes);
}

proof fn lemma_cs_params_keep(st: CAnalyzer, ps: Seq<SParam>, i: int, n: Seq<char>)
    requires
        st.scopes.len() >= 1,
        0 <= i,
        cs_params(st, ps, i).1 is None,
    ensures
        cs_params(st, ps, i).0.scopes.len() == st.scopes.len(),
        st.scopes.last().dom().contains(n) ==> cs_params(st, ps, i).0.scopes.last()[n] == st.scopes.last()[n]
            && cs_params(st, ps, i).0.scopes.last().dom().contains(n),
    decreases ps.len() - i,
{
    if i < ps.len() {
        let k = CSymbolKind::Var { ty: ps[i].ty, kind: VarDeclKind::Let };
        let s1 = cs_define(st, ps[i].ident.sym, k, ps[i].ident.span).0;
        lemma_cs_params_keep(s1, ps, i + 1, n);
    }
}

/// The parameters of a function are in scope in its body: once they are bound
/// without error, each resolves to a variable of its declared type (two
/// parameters of one name are refused).
pub proof fn law_params_in_scope(st: CAnalyzer, ps: Seq<SParam>, j: int)
    requires
        st.scopes.len() >= 1,
        0 <= j < ps.len(),
        cs_params(st, ps, 0).1 is None,
    ensures
        cs_resolve(cs_params(st, ps, 0).0.scopes, ps[j].ident.sym)
            == Some(CSymbolKind::Var { ty: ps[j].ty, kind: VarDeclKind::Let }),
{
    lemma_cs_params_in_scope_from(st, ps, 0, j);
}

proof fn lemma_cs_params_in_scope_from(st: CAnalyzer, ps: Seq<SParam>, i: int, j: int)
    requires
        st.scopes.len() >= 1,
        0 <= i <= j < ps.len(),
        cs_params(st, ps, i).1 is None,
    ensures
        cs_resolve(cs_params(st, ps, i).0.scopes, ps[j].ident.sym)
            == Some(CSymbolKind::Var { ty: ps[j].ty, kind: VarDeclKind::Let }),
    decreases ps.len() - i,
{
    let k = CSymbolKind::Var { ty: ps[i].ty, kind: VarDeclKind::Let };
    let s1 = cs_define(st, ps[i].ident.sym, k, ps[i].ident.span).0;
    if i == j {
        lemma_cs_params_keep(s1, ps, i + 1, ps[j].ident.sym);
        let fin = cs_params(s1, ps, i + 1).0;
        assert(s1.scopes.last().dom().contains(ps[j].ident.sym));
        assert(fin.scopes.last()[ps[j].ident.sym] == k);
        assert(lookup(fin.scopes.last(), ps[j].ident.sym) == Some(k));
    } else {
        lemma_cs_params_in_scope_from(s1, ps, i + 1, j);
    }
}

/// Every signature of `iface` from index `j` on has a method of `c`.
pub open spec fn sigs_covered(c: SClass, iface: SInterface, j: int) -> bool {
    forall|m: int| j <= m < iface.methods.len() ==> has_method(c.methods, #[trigger] iface.methods[m].ident.sym)
}

proof fn lemma_missing_method(c: SClass, iface: SInterface, j: int)
    requires
        0 <= j,
    ensures
        cs_missing_method(c, iface, j) is None <==> sigs_covered(c, iface, j),
    decreases iface.methods.len() - j,
{
    if j < iface.methods.len() {
        lemma_missing_method(c, iface, j + 1);
        if sigs_covered(c, iface, j) {
            assert(has_method(c.methods, iface.methods[j].ident.sym));
        }
    }
}

/// Every interface that `c` names from index `i` on exists, and `c` has a
/// method for each of its signatures.
pub open spec fn impls_covered(st: CAnalyzer, c: SClass, i: int) -> bool {
    forall|k: int| i <= k < c.implements.len() ==> {
        &&& st.interfaces.dom().contains(#[trigger] c.implements[k].sym)
        &&& sigs_covered(c, st.interfaces[c.implements[k].sym], 0)
    }
}

proof fn lemma_check_impls(st: CAnalyzer, c: SClass, i: int)
    requires
        0 <= i,
    ensures
        cs_check_impls(st, c, i) is None <==> impls_covered(st, c, i),
    decreases c.implements.len() - i,
{
    if i < c.implements.len() {
        lemma_check_impls(st, c, i + 1);
        let id = c.implements[i];
        if st.interfaces.dom().contains(id.sym) {
            lemma_missing_method(c, st.interfaces[id.sym], 0);
        }
    }
}

/// A class passes the check exactly when every interface it names exists and
/// it has a method of the same name for every signature of each of them.
pub proof fn law_class_implements_interfaces(st: CAnalyzer, c: SClass)
    ensures
        cs_decl(st, SDecl::Class(c)).1 is None <==> forall|k: int, m: int|
            0 <= k < c.implements.len() ==> {
                &&& st.interfaces.dom().contains(#[trigger] c.implements[k].sym)
                &&& (0 <= m < st.interfaces[c.implements[k].sym].methods.len() ==> has_method(
                    c.methods,
                    #[trigger] st.interfaces[c.implements[k].sym].methods[m].ident.sym,
                ))
            },
{
    lemma_check_impls(st, c, 0);
}

// ------------------------------------------------------------------
// The analyzer
// ------------------------------------------------------------------

/// The bindings of a scope, later ones replacing earlier ones of the same name.
pub open spec fn scope_map(s: Seq<(std::string::String, SymbolKind)>) -> Map<Seq<char>, CSymbolKind>
    decreases s.len(),
{
    if s.len() == 0 {
        Map::empty()
    } else {
        scope_map(s.drop_last()).insert(s.last().0@, view_symbol_kind(s.last().1))
    }
}

/// The interfaces by name, later ones replacing earlier ones of the same name.
pub open spec fn interface_map(s: Seq<(std::string::String, Interface)>) -> Map<Seq<char>, SInterface>
    decreases s.len(),
{
    if s.len() == 0 {
        Map::empty()
    } else {
        interface_map(s.drop_last()).insert(s.last().0@, view_interface(s.last().1))
    }
}

/// The names a scope binds.
pub struct Scope {
    symbols: Vec<(std::string::String, SymbolKind)>,
}

/// The semantic analyzer of the classic front end.
pub struct Analyzer {
    scopes: Vec<Scope>,
    classes: Vec<(std::string::String, Class)>,
    interfaces: Vec<(std::string::String, Interface)>,
}

impl View for Analyzer {
    type V = CAnalyzer;

    closed spec fn view(&self) -> CAnalyzer {
        CAnalyzer {
            scopes: Seq::new(self.scopes@.len(), |i: int| scope_map(self.scopes@[i].symbols@)),
            classes: class_map(self.classes@),
            interfaces: interface_map(self.interfaces@),
        }
    }
}

/// The agreement of an inferred type with the spec result.
pub open spec fn type_agrees(r: SemaResult<Type>, s: Result<SType, CSemaError>) -> bool {
    match s {
        Ok(t) => r is Ok && view_type(r->Ok_0) == t,
        Err(e) => r is Err && view_sema_error(r->Err_0) == e,
    }
}

/// The agreement of a step's result with the error the step stopped at.
pub open spec fn step_agrees(r: SemaResult<()>, e: Option<CSemaError>) -> bool {
    match e {
        None => r is Ok,
        Some(x) => r is Err && view_sema_error(r->Err_0) == x,
    }
}

/// The binding of `name` in a scope.
fn scope_find<'a>(scope: &'a Vec<(std::string::String, SymbolKind)>, name: &str) -> (r: Option<&'a SymbolKind>)
    ensures
        match r {
            Some(k) => lookup(scope_map(scope@), name@) == Some(view_symbol_kind(*k)),
            None => lookup(scope_map(scope@), name@) is None,
        },
{
    let mut j = scope.len();
    assert(scope@.subrange(0, j as int) =~= scope@);
    while j > 0
        invariant
            j <= scope@.len(),
            lookup(scope_map(scope@), name@) == lookup(scope_map(scope@.subrange(0, j as int)), name@),
        decreases j,
    {
        assert(scope@.subrange(0, j as int).drop_last() =~= scope@.subrange(0, j - 1));
        if string_eq_str(&scope[j - 1].0, name) {
            return Some(&scope[j - 1].1);
        }
        j = j - 1;
    }
    assert(scope@.subrange(0, 0) =~= Seq::<(std::string::String, SymbolKind)>::empty());
    None
}

/// The first field named `name`.
fn find_field_in<'a>(fs: &'a Vec<Field>, name: &str) -> (r: Option<&'a Field>)
    ensures
        match find_field(view_field_seq(fs@), name@, 0) {
            Some(f) => r is Some && view_field(*r->0) == f,
            None => r is None,
        },
{
    proof { lemma_view_field_seq_index(fs@); }
    let ghost v = view_field_seq(fs@);
    let mut i: usize = 0;
    while i < fs.len()
        invariant
            i <= fs@.len(),
            v == view_field_seq(fs@),
            v.len() == fs@.len(),
            forall|j: int| 0 <= j < fs@.len() ==> #[trigger] v[j] == view_field(fs@[j]),
            find_field(v, name@, 0) == find_field(v, name@, i as int),
        decreases fs@.len() - i,
    {
        if string_eq_str(&fs[i].ident.sym, name) {
            return Some(&fs[i]);
        }
        i = i + 1;
    }
    None
}

/// The first method named `name`.
fn find_method_in<'a>(ms: &'a Vec<Function>, name: &str) -> (r: Option<&'a Function>)
    ensures
        match find_method(view_function_seq(ms@), name@, 0) {
            Some(m) => r is Some && view_function(*r->0) == m,
            None => r is None,
        },
{
    proof { lemma_view_function_seq_index(ms@); }
    let ghost v = view_function_seq(ms@);
    let mut i: usize = 0;
    while i < ms.len()
        invariant
            i <= ms@.len(),
            v == view_function_seq(ms@),
            v.len() == ms@.len(),
            forall|j: int| 0 <= j < ms@.len() ==> #[trigger] v[j] == view_function(ms@[j]),
            find_method(v, name@, 0) == find_method(v, name@, i as int),
        decreases ms@.len() - i,
    {
        if string_eq_str(&ms[i].ident.sym, name) {
            return Some(&ms[i]);
        }
        i = i + 1;
    }
    None
}

/// The first signature named `name`.
fn find_sig_in<'a>(ms: &'a Vec<MethodSig>, name: &str) -> (r: Option<&'a MethodSig>)
    ensures
        match find_sig(view_method_sig_seq(ms@), name@, 0) {
            Some(m) => r is Some && view_method_sig(*r->0) == m,
            None => r is None,
        },
{
    proof { lemma_view_method_sig_seq_index(ms@); }
    let ghost v = view_method_sig_seq(ms@);
    let mut i: usize = 0;
    while i < ms.len()
        invariant
            i <= ms@.len(),
            v == view_method_sig_seq(ms@),
            v.len() == ms@.len(),
            forall|j: int| 0 <= j < ms@.len() ==> #[trigger] v[j] == view_method_sig(ms@[j]),
            find_sig(v, name@, 0) == find_sig(v, name@, i as int),
        decreases ms@.len() - i,
    {
        if string_eq_str(&ms[i].ident.sym, name) {
            return Some(&ms[i]);
        }
        i = i + 1;
    }
    None
}

/// Some method of `ms` is named `name`.
fn has_method_named(ms: &Vec<Function>, name: &std::string::String) -> (r: bool)
    ensures
        r == has_method(view_function_seq(ms@), name@),
{
    proof { lemma_view_function_seq_index(ms@); }
    let ghost v = view_function_seq(ms@);
    let mut i: usize = 0;
    while i < ms.len()
        invariant
            i <= ms@.len(),
            v == view_function_seq(ms@),
            v.len() == ms@.len(),
            forall|j: int| 0 <= j < ms@.len() ==> #[trigger] v[j] == view_function(ms@[j]),
            forall|k: int| 0 <= k < i ==> #[trigger] v[k].ident.sym != name@,
        decreases ms@.len() - i,
    {
        if string_eq(&ms[i].ident.sym, name) {
            assert(v[i as int].ident.sym == name@);
            return true;
        }
        i = i + 1;
    }
    false
}

/// Some name of `ids` is `name`.
fn names_contain_exec(ids: &Vec<Ident>, name: &std::string::String) -> (r: bool)
    ensures
        r == names_contain(view_ident_seq(ids@), name@),
{
    proof { lemma_view_ident_seq_index(ids@); }
    let ghost v = view_ident_seq(ids@);
    let mut i: usize = 0;
    while i < ids.len()
        invariant
            i <= ids@.len(),
            v == view_ident_seq(ids@),
            v.len() == ids@.len(),
            forall|j: int| 0 <= j < ids@.len() ==> #[trigger] v[j] == view_ident(ids@[j]),
            forall|k: int| 0 <= k < i ==> #[trigger] v[k].sym != name@,
        decreases ids@.len() - i,
    {
        if string_eq(&ids[i].sym, name) {
            assert(v[i as int].sym == name@);
            return true;
        }
        i = i + 1;
    }
    false
}

/// The type of a function with these parameters and return type.
fn fn_type_of(params: &Vec<Param>, ret: &Option<Type>) -> (r: Type)
    ensures
        view_type(r) == fn_type(view_param_seq(params@), match *ret { Some(t) => Some(view_type(t)), None => None }),
{
    let ps = param_types_of(params);
    let rt = match ret {
        Some(t) => clone_type(t),
        None => Type::I32,
    };
    let ghost vps = view_type_seq(ps@);
    let ghost vrt = view_type(rt);
    assert(vrt == match *ret { Some(t) => view_type(t), None => SType::I32 });
    let r = Type::Fn(ps, Box::new(rt));
    assert(view_type(r) == SType::Fn(vps, Box::new(vrt)));
    r
}

/// The parameter types of an arrow function.
fn arrow_param_types_of(ps: &Vec<Pattern>) -> (r: Vec<Type>)
    ensures
        view_type_seq(r@) == arrow_param_types(view_pattern_seq(ps@)),
{
    proof { lemma_view_pattern_seq_index(ps@); }
    let ghost v = view_pattern_seq(ps@);
    let mut r: Vec<Type> = Vec::new();
    let mut i: usize = 0;
    assert(v.subrange(0, 0) =~= Seq::<SPattern>::empty());
    assert(view_type_seq(r@) =~= Seq::<SType>::empty());
    while i < ps.len()
        invariant
            i <= ps@.len(),
            v == view_pattern_seq(ps@),
            v.len() == ps@.len(),
            forall|j: int| 0 <= j < ps@.len() ==> #[trigger] v[j] == view_pattern(ps@[j]),
            view_type_seq(r@) == arrow_param_types(v.subrange(0, i as int)),
        decreases ps@.len() - i,
    {
        assert(v.subrange(0, i + 1).drop_last() =~= v.subrange(0, i as int));
        assert(v.subrange(0, i + 1).last() == v[i as int]);
        match &ps[i] {
            Pattern::Ident(_) => {
                proof { lemma_view_type_seq_push(r@, Type::I32); }
                r.push(Type::I32);
            },
            _ => {},
        }
        i = i + 1;
    }
    assert(v.subrange(0, ps@.len() as int) =~= v);
    r
}

impl Analyzer {
    /// There is always an innermost scope.
    pub closed spec fn wf(&self) -> bool {
        self.scopes@.len() >= 1
    }

    /// The state of a new analyzer: one scope that binds `reply`, no class or interface.
    pub open spec fn new_state() -> CAnalyzer {
        CAnalyzer {
            scopes: seq![Map::<Seq<char>, CSymbolKind>::empty().insert("reply"@, reply_symbol())],
            classes: Map::<Seq<char>, SClass>::empty(),
            interfaces: Map::<Seq<char>, SInterface>::empty(),
        }
    }

    pub fn new() -> (r: Self)
        ensures
            r.wf(),
            r@ == Analyzer::new_state(),
    {
        let mut scopes: Vec<Scope> = Vec::new();
        scopes.push(Scope { symbols: Vec::new() });
        let mut analyzer = Analyzer { scopes, classes: Vec::new(), interfaces: Vec::new() };
        assert(analyzer@.scopes[0] =~= Map::<Seq<char>, CSymbolKind>::empty());
        let mut params: Vec<Type> = Vec::new();
        params.push(Type::PID);
        params.push(Type::I32);
        let reply = SymbolKind::Func { params, ret: Some(Type::I32) };
        proof {
            lemma_view_type_seq_push(Seq::<Type>::empty(), Type::PID);
            lemma_view_type_seq_push(seq![Type::PID], Type::I32);
            assert(Seq::<Type>::empty().push(Type::PID) =~= seq![Type::PID]);
            assert(seq![Type::PID].push(Type::I32) =~= seq![Type::PID, Type::I32]);
            assert(view_type_seq(Seq::<Type>::empty()) =~= Seq::<SType>::empty());
            assert(view_type(Type::PID) == SType::PID);
            assert(view_type(Type::I32) == SType::I32);
            assert(view_type_seq(seq![Type::PID]) =~= seq![SType::PID]);
            assert(view_type_seq(seq![Type::PID, Type::I32]) =~= seq![SType::PID, SType::I32]);
            assert(view_symbol_kind(reply) == reply_symbol());
        }
        let _ = analyzer.define(string_of_lit("reply"), reply, Span { start: 0, end: 0 });
        assert(analyzer@ =~= Analyzer::new_state());
        analyzer
    }

    fn enter_scope(&mut self)
        requires
            old(self).wf(),
        ensures
            final(self).wf(),
            final(self)@ == cs_enter(old(self)@),
    {
        self.scopes.push(Scope { symbols: Vec::new() });
        assert(self@.scopes =~= old(self)@.scopes.push(Map::empty()));
    }

    fn exit_scope(&mut self)
        requires
            old(self).wf(),
            old(self)@.scopes.len() >= 2,
        ensures
            final(self).wf(),
            final(self)@ == cs_exit(old(self)@),
    {
        let _ = self.scopes.pop();
        assert(self@.scopes =~= old(self)@.scopes.drop_last());
    }

    /// Binds `name` to `kind` in the innermost scope; refuses a name already
    /// bound there.
    fn define(&mut self, name: std::string::String, kind: SymbolKind, span: Span) -> (r: SemaResult<()>)
        requires
            old(self).wf(),
        ensures
            final(self).wf(),
            final(self)@ == cs_define(old(self)@, name@, view_symbol_kind(kind), span).0,
            step_agrees(r, cs_define(old(self)@, name@, view_symbol_kind(kind), span).1),
            final(self)@.scopes.len() == old(self)@.scopes.len(),
    {
        let ghost name_v = name@;
        let ghost kind_v = view_symbol_kind(kind);
        let i = self.scopes.len() - 1;
        let found = scope_find(&self.scopes[i].symbols, name.as_str()).is_some();
        if found {
            return Err(SemaError::DuplicateSymbol(name, span));
        }
        let mut scope = self.scopes.pop().unwrap();
        let ghost old_scope = scope.symbols@;
        scope.symbols.push((name, kind));
        proof {
            assert(scope.symbols@.drop_last() =~= old_scope);
        }
        self.scopes.push(scope);
        proof {
            assert(self@.scopes =~= old(self)@.scopes.update(i as int, old(self)@.scopes[i as int].insert(name_v, kind_v)));
        }
        Ok(())
    }

    fn add_class(&mut self, name: std::string::String, c: Class)
        ensures
            final(self).wf() == old(self).wf(),
            final(self)@ == cs_add_class(old(self)@, name@, view_class(c)),
    {
        self.classes.push((name, c));
        proof {
            assert(self.classes@.drop_last() =~= old(self).classes@);
            assert(self@.scopes =~= old(self)@.scopes);
        }
    }

    fn add_interface(&mut self, name: std::string::String, i: Interface)
        ensures
            final(self).wf() == old(self).wf(),
            final(self)@ == cs_add_interface(old(self)@, name@, view_interface(i)),
    {
        self.interfaces.push((name, i));
        proof {
            assert(self.interfaces@.drop_last() =~= old(self).interfaces@);
            assert(self@.scopes =~= old(self)@.scopes);
        }
    }

    /// What `name` stands for.
    fn resolve(&self, name: &str) -> (r: Option<&SymbolKind>)
        ensures
            match r {
                Some(k) => cs_resolve(self@.scopes, name@) == Some(view_symbol_kind(*k)),
                None => cs_resolve(self@.scopes, name@) is None,
            },
    {
        let ghost vs = self@.scopes;
        let mut i = self.scopes.len();
        assert(vs.subrange(0, i as int) =~= vs);
        while i > 0
            invariant
                i <= self.scopes@.len(),
                vs == self@.scopes,
                cs_resolve(vs, name@) == cs_resolve(vs.subrange(0, i as int), name@),
            decreases i,
        {
            assert(vs.subrange(0, i as int).drop_last() =~= vs.subrange(0, i - 1));
            assert(vs[i - 1] == scope_map(self.scopes@[i - 1].symbols@));
            match scope_find(&self.scopes[i - 1].symbols, name) {
                Some(k) => {
                    return Some(k);
                },
                None => {},
            }
            i = i - 1;
        }
        assert(vs.subrange(0, 0) =~= Seq::<Map<Seq<char>, CSymbolKind>>::empty());
        None
    }

    /// The class named `name`, if one was declared.
    fn get_class(&self, name: &str) -> (r: Option<&Class>)
        ensures
            match r {
                Some(c) => self@.classes.dom().contains(name@) && self@.classes[name@] == view_class(*c),
                None => !self@.classes.dom().contains(name@),
            },
    {
        let mut j = self.classes.len();
        assert(self.classes@.subrange(0, j as int) =~= self.classes@);
        while j > 0
            invariant
                j <= self.classes@.len(),
                lookup(class_map(self.classes@), name@) == lookup(class_map(self.classes@.subrange(0, j as int)), name@),
            decreases j,
        {
            proof {
                assert(self.classes@.subrange(0, j as int).drop_last() =~= self.classes@.subrange(0, j - 1));
            }
            if string_eq_str(&self.classes[j - 1].0, name) {
                return Some(&self.classes[j - 1].1);
            }
            j = j - 1;
        }
        proof {
            assert(self.classes@.subrange(0, 0) =~= Seq::<(std::string::String, Class)>::empty());
        }
        None
    }

    /// The interface named `name`, if one was declared.
    fn get_interface(&self, name: &str) -> (r: Option<&Interface>)
        ensures
            match r {
                Some(i) => self@.interfaces.dom().contains(name@) && self@.interfaces[name@] == view_interface(*i),
                None => !self@.interfaces.dom().contains(name@),
            },
    {
        let mut j = self.interfaces.len();
        assert(self.interfaces@.subrange(0, j as int) =~= self.interfaces@);
        while j > 0
            invariant
                j <= self.interfaces@.len(),
                lookup(interface_map(self.interfaces@), name@) == lookup(interface_map(self.interfaces@.subrange(0, j as int)), name@),
            decreases j,
        {
            proof {
                assert(self.interfaces@.subrange(0, j as int).drop_last() =~= self.interfaces@.subrange(0, j - 1));
            }
            if string_eq_str(&self.interfaces[j - 1].0, name) {
                return Some(&self.interfaces[j - 1].1);
            }
            j = j - 1;
        }
        proof {
            assert(self.interfaces@.subrange(0, 0) =~= Seq::<(std::string::String, Interface)>::empty());
        }
        None
    }
}


impl Analyzer {
    /// The type of a name.
    fn infer_ident(&self, id: &Ident) -> (r: SemaResult<Type>)
        ensures
            type_agrees(r, cs_infer_name(self@, view_ident(*id))),
    {
        if string_eq_str(&id.sym, "true") || string_eq_str(&id.sym, "false") {
            return Ok(Type::Bool);
        }
        match self.resolve(id.sym.as_str()) {
            Some(SymbolKind::Var { ty, .. }) => Ok(clone_type(ty)),
            Some(SymbolKind::Func { params, ret }) => {
                let ps = clone_type_vec(params);
                let rt = match ret {
                    Some(t) => clone_type(t),
                    None => Type::I32,
                };
                let ghost vps = view_type_seq(ps@);
                let ghost vrt = view_type(rt);
                let r = Type::Fn(ps, Box::new(rt));
                assert(view_type(r) == SType::Fn(vps, Box::new(vrt)));
                Ok(r)
            },
            Some(SymbolKind::Class(c)) => Ok(Type::Ref(clone_ident(&c.ident))),
            _ => Err(SemaError::UndefinedSymbol(id.sym.clone(), id.span)),
        }
    }

    /// The type of member `prop` of a value of the class or interface `name`.
    fn infer_ref_member(&self, name: &str, prop: &Ident) -> (r: SemaResult<Type>)
        ensures
            type_agrees(r, cs_ref_member(self@, name@, view_ident(*prop))),
    {
        match self.get_class(name) {
            Some(cls) => {
                match find_field_in(&cls.fields, prop.sym.as_str()) {
                    Some(f) => {
                        return Ok(clone_type(&f.ty));
                    },
                    None => {},
                }
                match find_method_in(&cls.methods, prop.sym.as_str()) {
                    Some(m) => {
                        return Ok(fn_type_of(&m.params, &m.return_type));
                    },
                    None => {},
                }
            },
            None => {},
        }
        match self.get_interface(name) {
            Some(iface) => {
                match find_sig_in(&iface.methods, prop.sym.as_str()) {
                    Some(m) => {
                        return Ok(fn_type_of(&m.params, &m.return_type));
                    },
                    None => {},
                }
            },
            None => {},
        }
        Err(SemaError::UndefinedSymbol(prop.sym.clone(), prop.span))
    }

    /// The type of member `prop` of a value of type `obj`.
    fn infer_member(&self, obj: Type, prop: &Ident) -> (r: SemaResult<Type>)
        ensures
            type_agrees(r, cs_member(self@, view_type(obj), view_ident(*prop))),
    {
        match obj {
            Type::String => {
                if string_eq_str(&prop.sym, "length") {
                    Ok(Type::USize)
                } else if string_eq_str(&prop.sym, "at") {
                    let mut ps: Vec<Type> = Vec::new();
                    ps.push(Type::I32);
                    proof {
                        lemma_view_type_seq_push(Seq::<Type>::empty(), Type::I32);
                        assert(Seq::<Type>::empty().push(Type::I32) =~= ps@);
                        assert(view_type_seq(Seq::<Type>::empty()) =~= Seq::<SType>::empty());
                        assert(view_type_seq(ps@) =~= seq![SType::I32]);
                    }
                    let r = Type::Fn(ps, Box::new(Type::String));
                    assert(view_type(r) == SType::Fn(seq![SType::I32], Box::new(SType::String)));
                    Ok(r)
                } else {
                    Err(SemaError::UndefinedSymbol(prop.sym.clone(), prop.span))
                }
            },
            Type::Array(inner) => {
                let ghost vi = view_type(*inner);
                if string_eq_str(&prop.sym, "length") {
                    Ok(Type::USize)
                } else if string_eq_str(&prop.sym, "at") {
                    let mut ps: Vec<Type> = Vec::new();
                    ps.push(Type::I32);
                    proof {
                        lemma_view_type_seq_push(Seq::<Type>::empty(), Type::I32);
                        assert(Seq::<Type>::empty().push(Type::I32) =~= ps@);
                        assert(view_type_seq(Seq::<Type>::empty()) =~= Seq::<SType>::empty());
                        assert(view_type_seq(ps@) =~= seq![SType::I32]);
                    }
                    let r = Type::Fn(ps, inner);
                    assert(view_type(r) == SType::Fn(seq![SType::I32], Box::new(vi)));
                    Ok(r)
                } else if string_eq_str(&prop.sym, "map") {
                    let mut cps: Vec<Type> = Vec::new();
                    cps.push(*inner);
                    proof {
                        lemma_view_type_seq_push(Seq::<Type>::empty(), cps@[0]);
                        assert(Seq::<Type>::empty().push(cps@[0]) =~= cps@);
                        assert(view_type_seq(Seq::<Type>::empty()) =~= Seq::<SType>::empty());
                        assert(view_type_seq(cps@) =~= seq![vi]);
                    }
                    assert(view_type(Type::Unknown) == SType::Unknown);
                    let callback = Type::Fn(cps, Box::new(Type::Unknown));
                    let ghost vc = view_type(callback);
                    assert(vc == SType::Fn(seq![vi], Box::new(SType::Unknown)));
                    let mut ps: Vec<Type> = Vec::new();
                    ps.push(callback);
                    proof {
                        lemma_view_type_seq_push(Seq::<Type>::empty(), ps@[0]);
                        assert(Seq::<Type>::empty().push(ps@[0]) =~= ps@);
                        assert(view_type_seq(ps@) =~= seq![vc]);
                    }
                    assert(view_type(Type::Unknown) == SType::Unknown);
                    let arr = Type::Array(Box::new(Type::Unknown));
                    assert(view_type(arr) == SType::Array(Box::new(SType::Unknown)));
                    let r = Type::Fn(ps, Box::new(arr));
                    assert(view_type(r) == SType::Fn(seq![vc], Box::new(SType::Array(Box::new(SType::Unknown)))));
                    Ok(r)
                } else {
                    Err(SemaError::UndefinedSymbol(prop.sym.clone(), prop.span))
                }
            },
            Type::Ref(id) => self.infer_ref_member(id.sym.as_str(), prop),
            _ => Ok(Type::I32),
        }
    }

    /// The type of an expression.
    fn infer_type(&self, expr: &Expr) -> (r: SemaResult<Type>)
        ensures
            type_agrees(r, cs_infer(self@, view_expr(*expr))),
        decreases expr, 1nat,
    {
        match expr {
            Expr::Lit(lit) => match lit {
                Lit::Int(_) => Ok(Type::I32),
                Lit::Float(_) => Ok(Type::F32),
                Lit::Bool(_) => Ok(Type::Bool),
                Lit::Str(_) => Ok(Type::String),
                Lit::Null => Ok(Type::Unknown),
            },
            Expr::Ident(ident) => self.infer_ident(ident),
            Expr::Bin(bin) => {
                let left = self.infer_type(&bin.left)?;
                let _right = self.infer_type(&bin.right)?;
                if bin.op == BinaryOp::Lt {
                    Ok(Type::Bool)
                } else {
                    Ok(left)
                }
            },
            Expr::Call(_) => self.infer_call(expr),
            Expr::New(_) => self.infer_new(expr),
            Expr::Spawn(_) => Ok(Type::PID),
            Expr::Receive(ty) => match ty {
                Some(t) => Ok(clone_type(t)),
                None => Ok(Type::I32),
            },
            Expr::Slice(slice) => self.infer_type(&slice.obj),
            Expr::Member(member) => {
                let obj_ty = self.infer_type(&member.obj)?;
                self.infer_member(obj_ty, &member.prop)
            },
            Expr::Array(_) => self.infer_array(expr),
            Expr::Arrow(_) => self.infer_arrow(expr),
            _ => Ok(Type::I32),
        }
    }

    /// The return type of the function a call calls.
    fn infer_call(&self, expr: &Expr) -> (r: SemaResult<Type>)
        requires
            expr is Call,
        ensures
            type_agrees(r, cs_infer(self@, view_expr(*expr))),
        decreases expr, 0nat,
    {
        match expr {
            Expr::Call(call) => {
                let callee_ty = self.infer_type(&call.callee)?;
                match callee_ty {
                    Type::Fn(ps, ret) => {
                        assert(view_type(Type::Fn(ps, ret)) == SType::Fn(view_type_seq(ps@), Box::new(view_type(*ret))));
                        Ok(*ret)
                    },
                    _ => Err(SemaError::NotAFunction(call.span)),
                }
            },
            _ => Ok(Type::I32),
        }
    }

    /// The class a `new` expression instantiates.
    fn infer_new(&self, expr: &Expr) -> (r: SemaResult<Type>)
        requires
            expr is New,
        ensures
            type_agrees(r, cs_infer(self@, view_expr(*expr))),
        decreases expr, 0nat,
    {
        match expr {
            Expr::New(call) => {
                match &*call.callee {
                    Expr::Ident(ident) => {
                        assert(view_expr(*call.callee) == SExpr::Ident(view_ident(*ident)));
                        if self.get_class(ident.sym.as_str()).is_some() {
                            return Ok(Type::Ref(clone_ident(ident)));
                        }
                    },
                    _ => {},
                }
                Err(SemaError::UndefinedSymbol(string_of_lit("Class"), call.span))
            },
            _ => Ok(Type::I32),
        }
    }

    /// An array of the type of the first element.
    fn infer_array(&self, expr: &Expr) -> (r: SemaResult<Type>)
        requires
            expr is Array,
        ensures
            type_agrees(r, cs_infer(self@, view_expr(*expr))),
        decreases expr, 0nat,
    {
        match expr {
            Expr::Array(elements) => {
                proof { lemma_view_expr_seq_index(elements@); }
                if elements.len() == 0 {
                    assert(view_type(Type::Unknown) == SType::Unknown);
                    let r = Type::Array(Box::new(Type::Unknown));
                    assert(view_type(r) == SType::Array(Box::new(SType::Unknown)));
                    return Ok(r);
                }
                let first_ty = self.infer_type(&elements[0])?;
                let ghost vf = view_type(first_ty);
                let r = Type::Array(Box::new(first_ty));
                assert(view_type(r) == SType::Array(Box::new(vf)));
                Ok(r)
            },
            _ => Ok(Type::I32),
        }
    }

    /// The function type of an arrow function.
    fn infer_arrow(&self, expr: &Expr) -> (r: SemaResult<Type>)
        requires
            expr is Arrow,
        ensures
            type_agrees(r, cs_infer(self@, view_expr(*expr))),
        decreases expr, 0nat,
    {
        match expr {
            Expr::Arrow(arrow) => {
                let param_tys = arrow_param_types_of(&arrow.params);
                let ret_ty = match &*arrow.body {
                    ArrowBody::Expr(e) => {
                        assert(view_arrow_body(*arrow.body) == SArrowBody::Expr(view_expr(*e)));
                        self.infer_type(e)?
                    },
                    ArrowBody::Block(b) => {
                        assert(view_arrow_body(*arrow.body) == SArrowBody::Block(view_block_stmt(*b)));
                        Type::I32
                    },
                };
                let ghost vps = view_type_seq(param_tys@);
                let ghost vr = view_type(ret_ty);
                let r = Type::Fn(param_tys, Box::new(ret_ty));
                assert(view_type(r) == SType::Fn(vps, Box::new(vr)));
                Ok(r)
            },
            _ => Ok(Type::I32),
        }
    }
}

impl Analyzer {
    fn analyze_pattern(&mut self, pat: &Pattern, ty: Type, kind: &VarDeclKind) -> (r: SemaResult<()>)
        requires
            old(self).wf(),
        ensures
            final(self).wf(),
            final(self)@ == cs_pattern(old(self)@, view_pattern(*pat), view_type(ty), *kind).0,
            step_agrees(r, cs_pattern(old(self)@, view_pattern(*pat), view_type(ty), *kind).1),
            final(self)@.scopes.len() == old(self)@.scopes.len(),
        decreases pat, 1nat,
    {
        match pat {
            Pattern::Ident(ident) => self.define(ident.sym.clone(), SymbolKind::Var { ty, kind: *kind }, ident.span),
            Pattern::Array(elements) => {
                let elem_ty = match ty {
                    Type::Array(inner) => *inner,
                    _ => {
                        assert(view_type(Type::Unknown) == SType::Unknown);
                        let expected = Type::Array(Box::new(Type::Unknown));
                        assert(view_type(expected) == SType::Array(Box::new(SType::Unknown)));
                        return Err(SemaError::TypeMismatch(expected, ty, Span { start: 0, end: 0 }));
                    },
                };
                self.analyze_pattern_elems(elements, &elem_ty, kind)
            },
            _ => Ok(()),
        }
    }

    fn analyze_pattern_elems(&mut self, elements: &Vec<Pattern>, ty: &Type, kind: &VarDeclKind) -> (r: SemaResult<()>)
        requires
            old(self).wf(),
        ensures
            final(self).wf(),
            final(self)@ == cs_pat_elems(old(self)@, view_pattern_seq(elements@), view_type(*ty), *kind, 0).0,
            step_agrees(r, cs_pat_elems(old(self)@, view_pattern_seq(elements@), view_type(*ty), *kind, 0).1),
            final(self)@.scopes.len() == old(self)@.scopes.len(),
        decreases elements, 0nat,
    {
        proof { lemma_view_pattern_seq_index(elements@); }
        let ghost ve = view_pattern_seq(elements@);
        let ghost st0 = self@;
        let mut i: usize = 0;
        while i < elements.len()
            invariant
                self.wf(),
                i <= elements@.len(),
                ve == view_pattern_seq(elements@),
                ve.len() == elements@.len(),
                forall|j: int| 0 <= j < elements@.len() ==> #[trigger] ve[j] == view_pattern(elements@[j]),
                cs_pat_elems(st0, ve, view_type(*ty), *kind, 0) == cs_pat_elems(self@, ve, view_type(*ty), *kind, i as int),
                self@.scopes.len() == st0.scopes.len(),
                st0 == old(self)@,
            decreases elements@.len() - i,
        {
            let t = clone_type(ty);
            self.analyze_pattern(&elements[i], t, kind)?;
            i = i + 1;
        }
        Ok(())
    }

    /// The type a variable declaration gives its names.
    fn var_type(&self, var: &VarDecl) -> (r: SemaResult<Type>)
        ensures
            type_agrees(r, cs_var_type(self@, view_var_decl(*var))),
    {
        match &var.init {
            Some(init) => {
                let ty = self.infer_type(init)?;
                match &var.ty {
                    Some(explicit_ty) => {
                        if !type_equal(explicit_ty, &ty) && !self.implements(explicit_ty, &ty) {
                            return Err(SemaError::TypeMismatch(clone_type(explicit_ty), ty, var.span));
                        }
                        Ok(ty)
                    },
                    None => Ok(ty),
                }
            },
            None => match &var.ty {
                Some(t) => Ok(clone_type(t)),
                None => Err(SemaError::MissingType(var.span)),
            },
        }
    }

    /// `ty` is a class that implements the interface `declared`.
    fn implements(&self, declared: &Type, ty: &Type) -> (r: bool)
        ensures
            r == cs_implements(self@, view_type(*declared), view_type(*ty)),
    {
        match (declared, ty) {
            (Type::Ref(target), Type::Ref(source)) => {
                match (self.get_interface(target.sym.as_str()), self.get_class(source.sym.as_str())) {
                    (Some(iface), Some(cls)) => names_contain_exec(&cls.implements, &iface.ident.sym),
                    _ => false,
                }
            },
            _ => false,
        }
    }

    fn analyze_var_decl(&mut self, var: &VarDecl) -> (r: SemaResult<()>)
        requires
            old(self).wf(),
        ensures
            final(self).wf(),
            final(self)@ == cs_var_decl(old(self)@, view_var_decl(*var)).0,
            step_agrees(r, cs_var_decl(old(self)@, view_var_decl(*var)).1),
            final(self)@.scopes.len() == old(self)@.scopes.len(),
    {
        let inferred_ty = self.var_type(var)?;
        self.analyze_pattern(&var.pat, inferred_ty, &var.kind)
    }

    fn analyze_stmt(&mut self, stmt: &Stmt) -> (r: SemaResult<()>)
        requires
            old(self).wf(),
        ensures
            final(self).wf(),
            final(self)@ == cs_stmt(old(self)@, view_stmt(*stmt)).0,
            step_agrees(r, cs_stmt(old(self)@, view_stmt(*stmt)).1),
            final(self)@.scopes.len() >= old(self)@.scopes.len(),
            r is Ok ==> final(self)@.scopes.len() == old(self)@.scopes.len(),
        decreases stmt, 0nat,
    {
        match stmt {
            Stmt::Var(var) => self.analyze_var_decl(var),
            Stmt::Block(block) => self.analyze_block(block),
            Stmt::Return(ret) => {
                match &ret.arg {
                    Some(expr) => {
                        self.infer_type(expr)?;
                    },
                    None => {},
                }
                Ok(())
            },
            Stmt::Expr(expr) => {
                self.infer_type(expr)?;
                Ok(())
            },
            Stmt::While(w) => {
                let test_ty = self.infer_type(&w.test)?;
                if !type_equal(&test_ty, &Type::Bool) {
                    return Err(SemaError::TypeMismatch(Type::Bool, test_ty, w.span));
                }
                self.analyze_stmt(&w.body)
            },
            _ => Ok(()),
        }
    }

    fn analyze_stmts(&mut self, ss: &Vec<Stmt>) -> (r: SemaResult<()>)
        requires
            old(self).wf(),
        ensures
            final(self).wf(),
            final(self)@ == cs_stmts(old(self)@, view_stmt_seq(ss@), 0).0,
            step_agrees(r, cs_stmts(old(self)@, view_stmt_seq(ss@), 0).1),
            final(self)@.scopes.len() >= old(self)@.scopes.len(),
            r is Ok ==> final(self)@.scopes.len() == old(self)@.scopes.len(),
        decreases ss, 0nat,
    {
        proof { lemma_view_stmt_seq_index(ss@); }
        let ghost vs = view_stmt_seq(ss@);
        let ghost st0 = self@;
        let mut i: usize = 0;
        while i < ss.len()
            invariant
                self.wf(),
                i <= ss@.len(),
                vs == view_stmt_seq(ss@),
                vs.len() == ss@.len(),
                forall|j: int| 0 <= j < ss@.len() ==> #[trigger] vs[j] == view_stmt(ss@[j]),
                cs_stmts(st0, vs, 0) == cs_stmts(self@, vs, i as int),
                self@.scopes.len() == st0.scopes.len(),
                st0 == old(self)@,
            decreases ss@.len() - i,
        {
            self.analyze_stmt(&ss[i])?;
            i = i + 1;
        }
        Ok(())
    }

    fn analyze_block(&mut self, block: &BlockStmt) -> (r: SemaResult<()>)
        requires
            old(self).wf(),
        ensures
            final(self).wf(),
            final(self)@ == cs_block(old(self)@, view_block_stmt(*block)).0,
            step_agrees(r, cs_block(old(self)@, view_block_stmt(*block)).1),
            final(self)@.scopes.len() >= old(self)@.scopes.len(),
            r is Ok ==> final(self)@.scopes.len() == old(self)@.scopes.len(),
        decreases block, 0nat,
    {
        self.enter_scope();
        self.analyze_stmts(&block.body)?;
        self.exit_scope();
        Ok(())
    }

    /// Binds the parameters as variables.
    fn define_params(&mut self, ps: &Vec<Param>) -> (r: SemaResult<()>)
        requires
            old(self).wf(),
        ensures
            final(self).wf(),
            final(self)@ == cs_params(old(self)@, view_param_seq(ps@), 0).0,
            step_agrees(r, cs_params(old(self)@, view_param_seq(ps@), 0).1),
            final(self)@.scopes.len() == old(self)@.scopes.len(),
    {
        proof { lemma_view_param_seq_index(ps@); }
        let ghost vp = view_param_seq(ps@);
        let ghost st0 = self@;
        let mut i: usize = 0;
        while i < ps.len()
            invariant
                self.wf(),
                i <= ps@.len(),
                vp == view_param_seq(ps@),
                vp.len() == ps@.len(),
                forall|j: int| 0 <= j < ps@.len() ==> #[trigger] vp[j] == view_param(ps@[j]),
                cs_params(st0, vp, 0) == cs_params(self@, vp, i as int),
                self@.scopes.len() == st0.scopes.len(),
                st0 == old(self)@,
            decreases ps@.len() - i,
        {
            let p = &ps[i];
            self.define(p.ident.sym.clone(), SymbolKind::Var { ty: clone_type(&p.ty), kind: VarDeclKind::Let }, p.ident.span)?;
            i = i + 1;
        }
        Ok(())
    }

    fn analyze_function(&mut self, func: &Function) -> (r: SemaResult<()>)
        requires
            old(self).wf(),
        ensures
            final(self).wf(),
            final(self)@ == cs_function(old(self)@, view_function(*func)).0,
            step_agrees(r, cs_function(old(self)@, view_function(*func)).1),
    {
        let param_types = param_types_of(&func.params);
        let ret = match &func.return_type {
            Some(t) => Some(clone_type(t)),
            None => None,
        };
        self.define(func.ident.sym.clone(), SymbolKind::Func { params: param_types, ret }, func.ident.span)?;
        self.enter_scope();
        self.define_params(&func.params)?;
        self.analyze_block(&func.body)?;
        self.exit_scope();
        Ok(())
    }

    /// The first signature of `iface` that `class` has no method for.
    fn missing_method(&self, class: &Class, iface: &Interface) -> (r: SemaResult<()>)
        ensures
            step_agrees(r, cs_missing_method(view_class(*class), view_interface(*iface), 0)),
    {
        proof { lemma_view_method_sig_seq_index(iface.methods@); }
        let ghost vm = view_method_sig_seq(iface.methods@);
        let mut j: usize = 0;
        while j < iface.methods.len()
            invariant
                j <= iface.methods@.len(),
                vm == view_method_sig_seq(iface.methods@),
                vm.len() == iface.methods@.len(),
                forall|k: int| 0 <= k < iface.methods@.len() ==> #[trigger] vm[k] == view_method_sig(iface.methods@[k]),
                cs_missing_method(view_class(*class), view_interface(*iface), 0)
                    == cs_missing_method(view_class(*class), view_interface(*iface), j as int),
            decreases iface.methods@.len() - j,
        {
            let m_sig = &iface.methods[j];
            if !has_method_named(&class.methods, &m_sig.ident.sym) {
                return Err(SemaError::InterfaceNotSatisfied(
                    class.ident.sym.clone(),
                    iface.ident.sym.clone(),
                    m_sig.ident.sym.clone(),
                    class.span,
                ));
            }
            j = j + 1;
        }
        Ok(())
    }

    /// Every interface that `class` names exists, and `class` has a method for
    /// each of its signatures.
    fn analyze_class(&self, class: &Class) -> (r: SemaResult<()>)
        ensures
            step_agrees(r, cs_check_impls(self@, view_class(*class), 0)),
    {
        proof { lemma_view_ident_seq_index(class.implements@); }
        let ghost vi = view_ident_seq(class.implements@);
        let mut i: usize = 0;
        while i < class.implements.len()
            invariant
                i <= class.implements@.len(),
                vi == view_ident_seq(class.implements@),
                vi.len() == class.implements@.len(),
                forall|k: int| 0 <= k < class.implements@.len() ==> #[trigger] vi[k] == view_ident(class.implements@[k]),
                cs_check_impls(self@, view_class(*class), 0) == cs_check_impls(self@, view_class(*class), i as int),
            decreases class.implements@.len() - i,
        {
            let iface_ident = &class.implements[i];
            let iface = match self.get_interface(iface_ident.sym.as_str()) {
                Some(x) => x,
                None => {
                    return Err(SemaError::UndefinedSymbol(iface_ident.sym.clone(), iface_ident.span));
                },
            };
            self.missing_method(class, iface)?;
            i = i + 1;
        }
        Ok(())
    }

    fn analyze_decl(&mut self, decl: &Decl) -> (r: SemaResult<()>)
        requires
            old(self).wf(),
        ensures
            final(self).wf(),
            final(self)@ == cs_decl(old(self)@, view_decl(*decl)).0,
            step_agrees(r, cs_decl(old(self)@, view_decl(*decl)).1),
    {
        match decl {
            Decl::Func(f) => self.analyze_function(f),
            Decl::Class(c) => self.analyze_class(c),
            _ => Ok(()),
        }
    }

    /// The first pass over a module: binds the classes and interfaces it declares.
    fn declare_items(&mut self, items: &Vec<ModuleItem>) -> (r: SemaResult<()>)
        requires
            old(self).wf(),
        ensures
            final(self).wf(),
            final(self)@ == cs_declare(old(self)@, view_module_item_seq(items@), 0).0,
            step_agrees(r, cs_declare(old(self)@, view_module_item_seq(items@), 0).1),
    {
        proof { lemma_view_module_item_seq_index(items@); }
        let ghost vi = view_module_item_seq(items@);
        let ghost st0 = self@;
        let mut i: usize = 0;
        while i < items.len()
            invariant
                self.wf(),
                i <= items@.len(),
                vi == view_module_item_seq(items@),
                vi.len() == items@.len(),
                forall|j: int| 0 <= j < items@.len() ==> #[trigger] vi[j] == view_module_item(items@[j]),
                cs_declare(st0, vi, 0) == cs_declare(self@, vi, i as int),
                st0 == old(self)@,
            decreases items@.len() - i,
        {
            match &items[i] {
                ModuleItem::Decl(Decl::Class(c)) => {
                    self.add_class(c.ident.sym.clone(), clone_class(c));
                    self.define(c.ident.sym.clone(), SymbolKind::Class(clone_class(c)), c.ident.span)?;
                },
                ModuleItem::Decl(Decl::Interface(f)) => {
                    self.add_interface(f.ident.sym.clone(), clone_interface(f));
                    self.define(f.ident.sym.clone(), SymbolKind::Interface(clone_interface(f)), f.ident.span)?;
                },
                _ => {},
            }
            i = i + 1;
        }
        Ok(())
    }

    /// The second pass over a module: its declarations and statements in order.
    fn analyze_items(&mut self, items: &Vec<ModuleItem>) -> (r: SemaResult<()>)
        requires
            old(self).wf(),
        ensures
            final(self).wf(),
            final(self)@ == cs_items(old(self)@, view_module_item_seq(items@), 0).0,
            step_agrees(r, cs_items(old(self)@, view_module_item_seq(items@), 0).1),
    {
        proof { lemma_view_module_item_seq_index(items@); }
        let ghost vi = view_module_item_seq(items@);
        let ghost st0 = self@;
        let mut i: usize = 0;
        while i < items.len()
            invariant
                self.wf(),
                i <= items@.len(),
                vi == view_module_item_seq(items@),
                vi.len() == items@.len(),
                forall|j: int| 0 <= j < items@.len() ==> #[trigger] vi[j] == view_module_item(items@[j]),
                cs_items(st0, vi, 0) == cs_items(self@, vi, i as int),
                st0 == old(self)@,
            decreases items@.len() - i,
        {
            match &items[i] {
                ModuleItem::Decl(decl) => {
                    self.analyze_decl(decl)?;
                },
                ModuleItem::Stmt(stmt) => {
                    self.analyze_stmt(stmt)?;
                },
                ModuleItem::Import(_) => {},
            }
            i = i + 1;
        }
        Ok(())
    }

    /// Analyzes `module`: binds its classes and interfaces, then checks its
    /// declarations and statements in order, stopping at the first error.
    pub fn analyze_module(&mut self, module: &Module) -> (r: SemaResult<()>)
        requires
            old(self).wf(),
        ensures
            final(self).wf(),
            final(self)@ == cs_module(old(self)@, view_module(*module)).0,
            step_agrees(r, cs_module(old(self)@, view_module(*module)).1),
    {
        self.declare_items(&module.body)?;
        self.analyze_items(&module.body)
    }
}

} // verus!

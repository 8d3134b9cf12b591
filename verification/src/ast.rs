use vstd::prelude::*;
use crate::Span;

verus! {

/// `let` or `const`.
#[derive(Debug, Clone, Copy, PartialEq, Eq, Structural)]
pub enum VarDeclKind {
    Let,
    Const,
}

/// A binary operator.
#[derive(Debug, Clone, Copy, PartialEq, Eq, Structural)]
pub enum BinaryOp {
    Add,
    Sub,
    Mul,
    Div,
    Eq,
    NotEq,
    Lt,
    Gt,
    LtEq,
    GtEq,
}

/// A parsed source file.
#[derive(Debug, PartialEq)]
pub struct Module {
    pub span: Span,
    pub body: Vec<ModuleItem>,
}

/// A top-level item of a module.
#[derive(Debug, PartialEq)]
pub enum ModuleItem {
    Import(ImportStmt),
    Decl(Decl),
    Stmt(Stmt),
}

/// `import { a, b } from "source";`
#[derive(Debug, PartialEq)]
pub struct ImportStmt {
    pub span: Span,
    pub specifiers: Vec<Ident>,
    pub source: std::string::String,
}

/// A declaration.
#[derive(Debug, PartialEq)]
pub enum Decl {
    Func(Function),
    Class(Class),
    Interface(Interface),
    Trait(TraitDecl),
    Impl(ImplDecl),
    Enum(EnumDecl),
    ErrorSet(ErrorSetDecl),
}

/// `error Name { A, B }`
#[derive(Debug, PartialEq)]
pub struct ErrorSetDecl {
    pub span: Span,
    pub ident: Ident,
    pub variants: Vec<Ident>,
}

/// A function or method.
#[derive(Debug, PartialEq)]
pub struct Function {
    pub span: Span,
    pub ident: Ident,
    pub params: Vec<Param>,
    pub return_type: Option<Type>,
    pub body: BlockStmt,
    pub is_async: bool,
}

/// A class declaration.
#[derive(Debug, PartialEq)]
pub struct Class {
    pub span: Span,
    pub ident: Ident,
    pub implements: Vec<Ident>,
    pub fields: Vec<Field>,
    pub methods: Vec<Function>,
}

/// An interface declaration.
#[derive(Debug, PartialEq)]
pub struct Interface {
    pub span: Span,
    pub ident: Ident,
    pub methods: Vec<MethodSig>,
}

/// A trait declaration.
#[derive(Debug, PartialEq)]
pub struct TraitDecl {
    pub span: Span,
    pub ident: Ident,
    pub methods: Vec<MethodSig>,
}

/// `impl Trait for Target { ... }`
#[derive(Debug, PartialEq)]
pub struct ImplDecl {
    pub span: Span,
    pub trait_name: Ident,
    pub target_name: Ident,
    pub methods: Vec<Function>,
}

/// An enum declaration.
#[derive(Debug, PartialEq)]
pub struct EnumDecl {
    pub span: Span,
    pub ident: Ident,
    pub variants: Vec<EnumVariant>,
}

/// A variant of an enum declaration.
#[derive(Debug, PartialEq)]
pub struct EnumVariant {
    pub span: Span,
    pub ident: Ident,
    pub fields: Option<Vec<Field>>,
    pub value: Option<Expr>,
}

/// A statement.
#[derive(Debug, PartialEq)]
pub enum Stmt {
    Block(BlockStmt),
    Expr(Expr),
    Var(VarDecl),
    Return(ReturnStmt),
    If(IfStmt),
    While(WhileStmt),
    Match(MatchExpr),
    Spawn(SpawnExpr),
    Defer(Box<Stmt>),
    ErrDefer(Box<Stmt>),
    ComptimeBlock(BlockStmt),
}

/// `{ ... }`
#[derive(Debug, PartialEq)]
pub struct BlockStmt {
    pub span: Span,
    pub body: Vec<Stmt>,
}

/// `let`/`const` declaration.
#[derive(Debug, PartialEq)]
pub struct VarDecl {
    pub span: Span,
    pub kind: VarDeclKind,
    pub pat: Pattern,
    pub ty: Option<Type>,
    pub init: Option<Expr>,
}

/// A binding pattern.
#[derive(Debug, PartialEq)]
pub enum Pattern {
    Ident(Ident),
    Tuple(Vec<Pattern>),
    Array(Vec<Pattern>),
    Object(Vec<ObjectPatProp>),
    Rest(Box<Pattern>),
    Enum(EnumPattern),
    Wildcard,
}

/// `key` or `key: pattern` in an object pattern.
#[derive(Debug, PartialEq)]
pub struct ObjectPatProp {
    pub key: Ident,
    pub val: Option<Pattern>,
}

/// `.Variant` or `.Variant |x|` in a match arm.
#[derive(Debug, PartialEq)]
pub struct EnumPattern {
    pub span: Span,
    pub enum_name: Ident,
    pub variant_name: Ident,
    pub fields: Option<Vec<ObjectPatProp>>,
}

/// `return expr;`
#[derive(Debug, PartialEq)]
pub struct ReturnStmt {
    pub span: Span,
    pub arg: Option<Expr>,
}

/// `if (test) cons else alt`
#[derive(Debug, PartialEq)]
pub struct IfStmt {
    pub span: Span,
    pub test: Expr,
    pub cons: Box<Stmt>,
    pub alt: Option<Box<Stmt>>,
}

/// `while (test) body`
#[derive(Debug, PartialEq)]
pub struct WhileStmt {
    pub span: Span,
    pub test: Expr,
    pub body: Box<Stmt>,
}

/// An expression.
#[derive(Debug, PartialEq)]
pub enum Expr {
    Ident(Ident),
    Lit(Lit),
    Bin(BinExpr),
    Call(CallExpr),
    New(CallExpr),
    Member(MemberExpr),
    Slice(SliceExpr),
    Match(Box<MatchExpr>),
    Spawn(Box<SpawnExpr>),
    Receive(Option<Box<Type>>),
    Zig(ZigEscapeExpr),
    Question(Box<Expr>),
    Array(Vec<Expr>),
    Object(Vec<ObjectField>),
    Arrow(Box<ArrowExpr>),
    EnumInit(EnumInitExpr),
    Template(TemplateLit),
    Await(Box<Expr>),
    Builtin(BuiltinCall),
}

/// `params => body`
#[derive(Debug, PartialEq)]
pub struct ArrowExpr {
    pub span: Span,
    pub params: Vec<Pattern>,
    pub body: Box<ArrowBody>,
}

/// The body of an arrow function.
#[derive(Debug, PartialEq)]
pub enum ArrowBody {
    Expr(Expr),
    Block(BlockStmt),
}

/// An identifier with its position.
#[derive(Debug, PartialEq)]
pub struct Ident {
    pub span: Span,
    pub sym: std::string::String,
}

/// A literal; a float literal is kept as its source text.
#[derive(Debug, PartialEq)]
pub enum Lit {
    Int(i64),
    Float(std::string::String),
    Str(std::string::String),
    Bool(bool),
    Null,
}

/// A template literal.
#[derive(Debug, PartialEq)]
pub struct TemplateLit {
    pub span: Span,
    pub parts: Vec<std::string::String>,
    pub exprs: Vec<Expr>,
}

/// `left op right`
#[derive(Debug, PartialEq)]
pub struct BinExpr {
    pub span: Span,
    pub op: BinaryOp,
    pub left: Box<Expr>,
    pub right: Box<Expr>,
}

/// A call (or `new` expression).
#[derive(Debug, PartialEq)]
pub struct CallExpr {
    pub span: Span,
    pub callee: Box<Expr>,
    pub args: Vec<Expr>,
    pub is_comptime: bool,
}

/// `obj.prop` (and `obj[i]`, as the member `at`).
#[derive(Debug, PartialEq)]
pub struct MemberExpr {
    pub span: Span,
    pub obj: Box<Expr>,
    pub prop: Ident,
}

/// `obj[start..end]`
#[derive(Debug, PartialEq)]
pub struct SliceExpr {
    pub span: Span,
    pub obj: Box<Expr>,
    pub start: Option<Box<Expr>>,
    pub end: Option<Box<Expr>>,
}

/// `match (disc) { arms }`
#[derive(Debug, PartialEq)]
pub struct MatchExpr {
    pub span: Span,
    pub disc: Box<Expr>,
    pub arms: Vec<MatchArm>,
}

/// `pattern => stmt`
#[derive(Debug, PartialEq)]
pub struct MatchArm {
    pub span: Span,
    pub pat: Pattern,
    pub body: Box<Stmt>,
}

/// `spawn callee`
#[derive(Debug, PartialEq)]
pub struct SpawnExpr {
    pub span: Span,
    pub callee: Box<Expr>,
    pub args: Vec<Expr>,
}

/// `__zig__ { raw code }`
#[derive(Debug, PartialEq)]
pub struct ZigEscapeExpr {
    pub span: Span,
    pub code: std::string::String,
}

/// `key: value` in an object literal.
#[derive(Debug, PartialEq)]
pub struct ObjectField {
    pub key: Ident,
    pub val: Expr,
}

/// `Enum.Variant { key: value }`
#[derive(Debug, PartialEq)]
pub struct EnumInitExpr {
    pub span: Span,
    pub enum_name: Ident,
    pub variant_name: Ident,
    pub fields: Option<Vec<EnumInitField>>,
}

/// `key: value` in an enum initializer.
#[derive(Debug, PartialEq)]
pub struct EnumInitField {
    pub key: Ident,
    pub val: Expr,
}

/// `@name(args)`
#[derive(Debug, PartialEq)]
pub struct BuiltinCall {
    pub span: Span,
    pub name: std::string::String,
    pub args: Vec<Expr>,
}

/// A type annotation.
#[derive(Debug, PartialEq)]
pub enum Type {
    I32,
    U32,
    U64,
    F32,
    F64,
    USize,
    Bool,
    String,
    Void,
    Any,
    PID,
    Unknown,
    Array(Box<Type>),
    MapOf(Box<Type>, Box<Type>),
    Tuple(Vec<Type>),
    Object(Vec<Field>),
    Ref(Ident),
    Fn(Vec<Type>, Box<Type>),
    ErrorUnion(Box<Type>),
    Optional(Box<Type>),
}

/// A function parameter.
#[derive(Debug, PartialEq)]
pub struct Param {
    pub span: Span,
    pub ident: Ident,
    pub ty: Type,
    pub is_comptime: bool,
}

/// A field of a class, object type or enum variant.
#[derive(Debug, PartialEq)]
pub struct Field {
    pub span: Span,
    pub ident: Ident,
    pub ty: Type,
}

/// A method signature of an interface or trait.
#[derive(Debug, PartialEq)]
pub struct MethodSig {
    pub span: Span,
    pub ident: Ident,
    pub params: Vec<Param>,
    pub return_type: Option<Type>,
}

// ------------------------------------------------------------------
// Mathematical model: the same tree with sequences in place of vectors and strings.
// ------------------------------------------------------------------

pub struct SModule {
    pub span: Span,
    pub body: Seq<SModuleItem>,
}

pub enum SModuleItem {
    Import(SImportStmt),
    Decl(SDecl),
    Stmt(SStmt),
}

pub struct SImportStmt {
    pub span: Span,
    pub specifiers: Seq<SIdent>,
    pub source: Seq<char>,
}

pub enum SDecl {
    Func(SFunction),
    Class(SClass),
    Interface(SInterface),
    Trait(STraitDecl),
    Impl(SImplDecl),
    Enum(SEnumDecl),
    ErrorSet(SErrorSetDecl),
}

pub struct SErrorSetDecl {
    pub span: Span,
    pub ident: SIdent,
    pub variants: Seq<SIdent>,
}

pub struct SFunction {
    pub span: Span,
    pub ident: SIdent,
    pub params: Seq<SParam>,
    pub return_type: Option<SType>,
    pub body: SBlockStmt,
    pub is_async: bool,
}

pub struct SClass {
    pub span: Span,
    pub ident: SIdent,
    pub implements: Seq<SIdent>,
    pub fields: Seq<SField>,
    pub methods: Seq<SFunction>,
}

pub struct SInterface {
    pub span: Span,
    pub ident: SIdent,
    pub methods: Seq<SMethodSig>,
}

pub struct STraitDecl {
    pub span: Span,
    pub ident: SIdent,
    pub methods: Seq<SMethodSig>,
}

pub struct SImplDecl {
    pub span: Span,
    pub trait_name: SIdent,
    pub target_name: SIdent,
    pub methods: Seq<SFunction>,
}

pub struct SEnumDecl {
    pub span: Span,
    pub ident: SIdent,
    pub variants: Seq<SEnumVariant>,
}

pub struct SEnumVariant {
    pub span: Span,
    pub ident: SIdent,
    pub fields: Option<Seq<SField>>,
    pub value: Option<SExpr>,
}

pub enum SStmt {
    Block(SBlockStmt),
    Expr(SExpr),
    Var(SVarDecl),
    Return(SReturnStmt),
    If(SIfStmt),
    While(SWhileStmt),
    Match(SMatchExpr),
    Spawn(SSpawnExpr),
    Defer(Box<SStmt>),
    ErrDefer(Box<SStmt>),
    ComptimeBlock(SBlockStmt),
}

pub struct SBlockStmt {
    pub span: Span,
    pub body: Seq<SStmt>,
}

pub struct SVarDecl {
    pub span: Span,
    pub kind: VarDeclKind,
    pub pat: SPattern,
    pub ty: Option<SType>,
    pub init: Option<SExpr>,
}

pub enum SPattern {
    Ident(SIdent),
    Tuple(Seq<SPattern>),
    Array(Seq<SPattern>),
    Object(Seq<SObjectPatProp>),
    Rest(Box<SPattern>),
    Enum(SEnumPattern),
    Wildcard,
}

pub struct SObjectPatProp {
    pub key: SIdent,
    pub val: Option<SPattern>,
}

pub struct SEnumPattern {
    pub span: Span,
    pub enum_name: SIdent,
    pub variant_name: SIdent,
    pub fields: Option<Seq<SObjectPatProp>>,
}

pub struct SReturnStmt {
    pub span: Span,
    pub arg: Option<SExpr>,
}

pub struct SIfStmt {
    pub span: Span,
    pub test: SExpr,
    pub cons: Box<SStmt>,
    pub alt: Option<Box<SStmt>>,
}

pub struct SWhileStmt {
    pub span: Span,
    pub test: SExpr,
    pub body: Box<SStmt>,
}

pub enum SExpr {
    Ident(SIdent),
    Lit(SLit),
    Bin(SBinExpr),
    Call(SCallExpr),
    New(SCallExpr),
    Member(SMemberExpr),
    Slice(SSliceExpr),
    Match(Box<SMatchExpr>),
    Spawn(Box<SSpawnExpr>),
    Receive(Option<Box<SType>>),
    Zig(SZigEscapeExpr),
    Question(Box<SExpr>),
    Array(Seq<SExpr>),
    Object(Seq<SObjectField>),
    Arrow(Box<SArrowExpr>),
    EnumInit(SEnumInitExpr),
    Template(STemplateLit),
    Await(Box<SExpr>),
    Builtin(SBuiltinCall),
}

pub struct SArrowExpr {
    pub span: Span,
    pub params: Seq<SPattern>,
    pub body: Box<SArrowBody>,
}

pub enum SArrowBody {
    Expr(SExpr),
    Block(SBlockStmt),
}

pub struct SIdent {
    pub span: Span,
    pub sym: Seq<char>,
}

pub enum SLit {
    Int(i64),
    Float(Seq<char>),
    Str(Seq<char>),
    Bool(bool),
    Null,
}

pub struct STemplateLit {
    pub span: Span,
    pub parts: Seq<Seq<char>>,
    pub exprs: Seq<SExpr>,
}

pub struct SBinExpr {
    pub span: Span,
    pub op: BinaryOp,
    pub left: Box<SExpr>,
    pub right: Box<SExpr>,
}

pub struct SCallExpr {
    pub span: Span,
    pub callee: Box<SExpr>,
    pub args: Seq<SExpr>,
    pub is_comptime: bool,
}

pub struct SMemberExpr {
    pub span: Span,
    pub obj: Box<SExpr>,
    pub prop: SIdent,
}

pub struct SSliceExpr {
    pub span: Span,
    pub obj: Box<SExpr>,
    pub start: Option<Box<SExpr>>,
    pub end: Option<Box<SExpr>>,
}

pub struct SMatchExpr {
    pub span: Span,
    pub disc: Box<SExpr>,
    pub arms: Seq<SMatchArm>,
}

pub struct SMatchArm {
    pub span: Span,
    pub pat: SPattern,
    pub body: Box<SStmt>,
}

pub struct SSpawnExpr {
    pub span: Span,
    pub callee: Box<SExpr>,
    pub args: Seq<SExpr>,
}

pub struct SZigEscapeExpr {
    pub span: Span,
    pub code: Seq<char>,
}

pub struct SObjectField {
    pub key: SIdent,
    pub val: SExpr,
}

pub struct SEnumInitExpr {
    pub span: Span,
    pub enum_name: SIdent,
    pub variant_name: SIdent,
    pub fields: Option<Seq<SEnumInitField>>,
}

pub struct SEnumInitField {
    pub key: SIdent,
    pub val: SExpr,
}

pub struct SBuiltinCall {
    pub span: Span,
    pub name: Seq<char>,
    pub args: Seq<SExpr>,
}

pub enum SType {
    I32,
    U32,
    U64,
    F32,
    F64,
    USize,
    Bool,
    String,
    Void,
    Any,
    PID,
    Unknown,
    Array(Box<SType>),
    MapOf(Box<SType>, Box<SType>),
    Tuple(Seq<SType>),
    Object(Seq<SField>),
    Ref(SIdent),
    Fn(Seq<SType>, Box<SType>),
    ErrorUnion(Box<SType>),
    Optional(Box<SType>),
}

pub struct SParam {
    pub span: Span,
    pub ident: SIdent,
    pub ty: SType,
    pub is_comptime: bool,
}

pub struct SField {
    pub span: Span,
    pub ident: SIdent,
    pub ty: SType,
}

pub struct SMethodSig {
    pub span: Span,
    pub ident: SIdent,
    pub params: Seq<SParam>,
    pub return_type: Option<SType>,
}

pub open spec fn view_module(x: Module) -> SModule
    decreases x,
{
    SModule { span: x.span, body: view_module_item_seq(x.body@) }
}

pub open spec fn view_module_item(x: ModuleItem) -> SModuleItem
    decreases x,
{
    match x {
        ModuleItem::Import(a0) => SModuleItem::Import(SImportStmt { span: a0.span, specifiers: view_ident_seq(a0.specifiers@), source: a0.source@ }),
        ModuleItem::Decl(a0) => SModuleItem::Decl(view_decl(a0)),
        ModuleItem::Stmt(a0) => SModuleItem::Stmt(view_stmt(a0)),
    }
}

pub open spec fn view_import_stmt(x: ImportStmt) -> SImportStmt
    decreases x,
{
    SImportStmt { span: x.span, specifiers: view_ident_seq(x.specifiers@), source: x.source@ }
}

pub open spec fn view_decl(x: Decl) -> SDecl
    decreases x,
{
    match x {
        Decl::Func(a0) => SDecl::Func(SFunction { span: a0.span, ident: view_ident(a0.ident), params: view_param_seq(a0.params@), return_type: match a0.return_type { Some(y) => Some(view_type(y)), None => None }, body: view_block_stmt(a0.body), is_async: a0.is_async }),
        Decl::Class(a0) => SDecl::Class(SClass { span: a0.span, ident: view_ident(a0.ident), implements: view_ident_seq(a0.implements@), fields: view_field_seq(a0.fields@), methods: view_function_seq(a0.methods@) }),
        Decl::Interface(a0) => SDecl::Interface(SInterface { span: a0.span, ident: view_ident(a0.ident), methods: view_method_sig_seq(a0.methods@) }),
        Decl::Trait(a0) => SDecl::Trait(STraitDecl { span: a0.span, ident: view_ident(a0.ident), methods: view_method_sig_seq(a0.methods@) }),
        Decl::Impl(a0) => SDecl::Impl(SImplDecl { span: a0.span, trait_name: view_ident(a0.trait_name), target_name: view_ident(a0.target_name), methods: view_function_seq(a0.methods@) }),
        Decl::Enum(a0) => SDecl::Enum(SEnumDecl { span: a0.span, ident: view_ident(a0.ident), variants: view_enum_variant_seq(a0.variants@) }),
        Decl::ErrorSet(a0) => SDecl::ErrorSet(SErrorSetDecl { span: a0.span, ident: view_ident(a0.ident), variants: view_ident_seq(a0.variants@) }),
    }
}

pub open spec fn view_error_set_decl(x: ErrorSetDecl) -> SErrorSetDecl
    decreases x,
{
    SErrorSetDecl { span: x.span, ident: view_ident(x.ident), variants: view_ident_seq(x.variants@) }
}

pub open spec fn view_function(x: Function) -> SFunction
    decreases x,
{
    SFunction { span: x.span, ident: view_ident(x.ident), params: view_param_seq(x.params@), return_type: match x.return_type { Some(y) => Some(view_type(y)), None => None }, body: view_block_stmt(x.body), is_async: x.is_async }
}

pub open spec fn view_class(x: Class) -> SClass
    decreases x,
{
    SClass { span: x.span, ident: view_ident(x.ident), implements: view_ident_seq(x.implements@), fields: view_field_seq(x.fields@), methods: view_function_seq(x.methods@) }
}

pub open spec fn view_interface(x: Interface) -> SInterface
    decreases x,
{
    SInterface { span: x.span, ident: view_ident(x.ident), methods: view_method_sig_seq(x.methods@) }
}

pub open spec fn view_trait_decl(x: TraitDecl) -> STraitDecl
    decreases x,
{
    STraitDecl { span: x.span, ident: view_ident(x.ident), methods: view_method_sig_seq(x.methods@) }
}

pub open spec fn view_impl_decl(x: ImplDecl) -> SImplDecl
    decreases x,
{
    SImplDecl { span: x.span, trait_name: view_ident(x.trait_name), target_name: view_ident(x.target_name), methods: view_function_seq(x.methods@) }
}

pub open spec fn view_enum_decl(x: EnumDecl) -> SEnumDecl
    decreases x,
{
    SEnumDecl { span: x.span, ident: view_ident(x.ident), variants: view_enum_variant_seq(x.variants@) }
}

pub open spec fn view_enum_variant(x: EnumVariant) -> SEnumVariant
    decreases x,
{
    SEnumVariant { span: x.span, ident: view_ident(x.ident), fields: match x.fields { Some(y) => Some(view_field_seq(y@)), None => None }, value: match x.value { Some(y) => Some(view_expr(y)), None => None } }
}

pub open spec fn view_stmt(x: Stmt) -> SStmt
    decreases x,
{
    match x {
        Stmt::Block(a0) => SStmt::Block(SBlockStmt { span: a0.span, body: view_stmt_seq(a0.body@) }),
        Stmt::Expr(a0) => SStmt::Expr(view_expr(a0)),
        Stmt::Var(a0) => SStmt::Var(SVarDecl { span: a0.span, kind: a0.kind, pat: view_pattern(a0.pat), ty: match a0.ty { Some(y) => Some(view_type(y)), None => None }, init: match a0.init { Some(y) => Some(view_expr(y)), None => None } }),
        Stmt::Return(a0) => SStmt::Return(SReturnStmt { span: a0.span, arg: match a0.arg { Some(y) => Some(view_expr(y)), None => None } }),
        Stmt::If(a0) => SStmt::If(SIfStmt { span: a0.span, test: view_expr(a0.test), cons: Box::new(view_stmt(*a0.cons)), alt: match a0.alt { Some(y) => Some(Box::new(view_stmt(*y))), None => None } }),
        Stmt::While(a0) => SStmt::While(SWhileStmt { span: a0.span, test: view_expr(a0.test), body: Box::new(view_stmt(*a0.body)) }),
        Stmt::Match(a0) => SStmt::Match(SMatchExpr { span: a0.span, disc: Box::new(view_expr(*a0.disc)), arms: view_match_arm_seq(a0.arms@) }),
        Stmt::Spawn(a0) => SStmt::Spawn(SSpawnExpr { span: a0.span, callee: Box::new(view_expr(*a0.callee)), args: view_expr_seq(a0.args@) }),
        Stmt::Defer(a0) => SStmt::Defer(Box::new(view_stmt(*a0))),
        Stmt::ErrDefer(a0) => SStmt::ErrDefer(Box::new(view_stmt(*a0))),
        Stmt::ComptimeBlock(a0) => SStmt::ComptimeBlock(SBlockStmt { span: a0.span, body: view_stmt_seq(a0.body@) }),
    }
}

pub open spec fn view_block_stmt(x: BlockStmt) -> SBlockStmt
    decreases x,
{
    SBlockStmt { span: x.span, body: view_stmt_seq(x.body@) }
}

pub open spec fn view_var_decl(x: VarDecl) -> SVarDecl
    decreases x,
{
    SVarDecl { span: x.span, kind: x.kind, pat: view_pattern(x.pat), ty: match x.ty { Some(y) => Some(view_type(y)), None => None }, init: match x.init { Some(y) => Some(view_expr(y)), None => None } }
}

pub open spec fn view_pattern(x: Pattern) -> SPattern
    decreases x,
{
    match x {
        Pattern::Ident(a0) => SPattern::Ident(view_ident(a0)),
        Pattern::Tuple(a0) => SPattern::Tuple(view_pattern_seq(a0@)),
        Pattern::Array(a0) => SPattern::Array(view_pattern_seq(a0@)),
        Pattern::Rest(a0) => SPattern::Rest(Box::new(view_pattern(*a0))),
        Pattern::Object(a0) => SPattern::Object(view_object_pat_prop_seq(a0@)),
        Pattern::Enum(a0) => SPattern::Enum(SEnumPattern { span: a0.span, enum_name: view_ident(a0.enum_name), variant_name: view_ident(a0.variant_name), fields: match a0.fields { Some(y) => Some(view_object_pat_prop_seq(y@)), None => None } }),
        Pattern::Wildcard => SPattern::Wildcard,
    }
}

pub open spec fn view_object_pat_prop(x: ObjectPatProp) -> SObjectPatProp
    decreases x,
{
    SObjectPatProp { key: view_ident(x.key), val: match x.val { Some(y) => Some(view_pattern(y)), None => None } }
}

pub open spec fn view_enum_pattern(x: EnumPattern) -> SEnumPattern
    decreases x,
{
    SEnumPattern { span: x.span, enum_name: view_ident(x.enum_name), variant_name: view_ident(x.variant_name), fields: match x.fields { Some(y) => Some(view_object_pat_prop_seq(y@)), None => None } }
}

pub open spec fn view_return_stmt(x: ReturnStmt) -> SReturnStmt
    decreases x,
{
    SReturnStmt { span: x.span, arg: match x.arg { Some(y) => Some(view_expr(y)), None => None } }
}

pub open spec fn view_if_stmt(x: IfStmt) -> SIfStmt
    decreases x,
{
    SIfStmt { span: x.span, test: view_expr(x.test), cons: Box::new(view_stmt(*x.cons)), alt: match x.alt { Some(y) => Some(Box::new(view_stmt(*y))), None => None } }
}

pub open spec fn view_while_stmt(x: WhileStmt) -> SWhileStmt
    decreases x,
{
    SWhileStmt { span: x.span, test: view_expr(x.test), body: Box::new(view_stmt(*x.body)) }
}

pub open spec fn view_expr(x: Expr) -> SExpr
    decreases x,
{
    match x {
        Expr::Ident(a0) => SExpr::Ident(view_ident(a0)),
        Expr::Lit(a0) => SExpr::Lit(view_lit(a0)),
        Expr::Bin(a0) => SExpr::Bin(SBinExpr { span: a0.span, op: a0.op, left: Box::new(view_expr(*a0.left)), right: Box::new(view_expr(*a0.right)) }),
        Expr::Call(a0) => SExpr::Call(SCallExpr { span: a0.span, callee: Box::new(view_expr(*a0.callee)), args: view_expr_seq(a0.args@), is_comptime: a0.is_comptime }),
        Expr::New(a0) => SExpr::New(SCallExpr { span: a0.span, callee: Box::new(view_expr(*a0.callee)), args: view_expr_seq(a0.args@), is_comptime: a0.is_comptime }),
        Expr::Member(a0) => SExpr::Member(SMemberExpr { span: a0.span, obj: Box::new(view_expr(*a0.obj)), prop: view_ident(a0.prop) }),
        Expr::Slice(a0) => SExpr::Slice(SSliceExpr { span: a0.span, obj: Box::new(view_expr(*a0.obj)), start: match a0.start { Some(y) => Some(Box::new(view_expr(*y))), None => None }, end: match a0.end { Some(y) => Some(Box::new(view_expr(*y))), None => None } }),
        Expr::Match(a0) => SExpr::Match(Box::new(SMatchExpr { span: (*a0).span, disc: Box::new(view_expr(*(*a0).disc)), arms: view_match_arm_seq((*a0).arms@) })),
        Expr::Spawn(a0) => SExpr::Spawn(Box::new(SSpawnExpr { span: (*a0).span, callee: Box::new(view_expr(*(*a0).callee)), args: view_expr_seq((*a0).args@) })),
        Expr::Receive(a0) => SExpr::Receive(match a0 { Some(y) => Some(Box::new(view_type(*y))), None => None }),
        Expr::Zig(a0) => SExpr::Zig(SZigEscapeExpr { span: a0.span, code: a0.code@ }),
        Expr::Question(a0) => SExpr::Question(Box::new(view_expr(*a0))),
        Expr::Array(a0) => SExpr::Array(view_expr_seq(a0@)),
        Expr::Object(a0) => SExpr::Object(view_object_field_seq(a0@)),
        Expr::Arrow(a0) => SExpr::Arrow(Box::new(SArrowExpr { span: (*a0).span, params: view_pattern_seq((*a0).params@), body: Box::new(view_arrow_body(*(*a0).body)) })),
        Expr::EnumInit(a0) => SExpr::EnumInit(SEnumInitExpr { span: a0.span, enum_name: view_ident(a0.enum_name), variant_name: view_ident(a0.variant_name), fields: match a0.fields { Some(y) => Some(view_enum_init_field_seq(y@)), None => None } }),
        Expr::Template(a0) => SExpr::Template(STemplateLit { span: a0.span, parts: view_string_seq(a0.parts@), exprs: view_expr_seq(a0.exprs@) }),
        Expr::Await(a0) => SExpr::Await(Box::new(view_expr(*a0))),
        Expr::Builtin(a0) => SExpr::Builtin(SBuiltinCall { span: a0.span, name: a0.name@, args: view_expr_seq(a0.args@) }),
    }
}

pub open spec fn view_arrow_expr(x: ArrowExpr) -> SArrowExpr
    decreases x,
{
    SArrowExpr { span: x.span, params: view_pattern_seq(x.params@), body: Box::new(view_arrow_body(*x.body)) }
}

pub open spec fn view_arrow_body(x: ArrowBody) -> SArrowBody
    decreases x,
{
    match x {
        ArrowBody::Expr(a0) => SArrowBody::Expr(view_expr(a0)),
        ArrowBody::Block(a0) => SArrowBody::Block(SBlockStmt { span: a0.span, body: view_stmt_seq(a0.body@) }),
    }
}

pub open spec fn view_ident(x: Ident) -> SIdent
    decreases x,
{
    SIdent { span: x.span, sym: x.sym@ }
}

pub open spec fn view_lit(x: Lit) -> SLit
    decreases x,
{
    match x {
        Lit::Int(a0) => SLit::Int(a0),
        Lit::Float(a0) => SLit::Float(a0@),
        Lit::Str(a0) => SLit::Str(a0@),
        Lit::Bool(a0) => SLit::Bool(a0),
        Lit::Null => SLit::Null,
    }
}

pub open spec fn view_template_lit(x: TemplateLit) -> STemplateLit
    decreases x,
{
    STemplateLit { span: x.span, parts: view_string_seq(x.parts@), exprs: view_expr_seq(x.exprs@) }
}

pub open spec fn view_bin_expr(x: BinExpr) -> SBinExpr
    decreases x,
{
    SBinExpr { span: x.span, op: x.op, left: Box::new(view_expr(*x.left)), right: Box::new(view_expr(*x.right)) }
}

pub open spec fn view_call_expr(x: CallExpr) -> SCallExpr
    decreases x,
{
    SCallExpr { span: x.span, callee: Box::new(view_expr(*x.callee)), args: view_expr_seq(x.args@), is_comptime: x.is_comptime }
}

pub open spec fn view_member_expr(x: MemberExpr) -> SMemberExpr
    decreases x,
{
    SMemberExpr { span: x.span, obj: Box::new(view_expr(*x.obj)), prop: view_ident(x.prop) }
}

pub open spec fn view_slice_expr(x: SliceExpr) -> SSliceExpr
    decreases x,
{
    SSliceExpr { span: x.span, obj: Box::new(view_expr(*x.obj)), start: match x.start { Some(y) => Some(Box::new(view_expr(*y))), None => None }, end: match x.end { Some(y) => Some(Box::new(view_expr(*y))), None => None } }
}

pub open spec fn view_match_expr(x: MatchExpr) -> SMatchExpr
    decreases x,
{
    SMatchExpr { span: x.span, disc: Box::new(view_expr(*x.disc)), arms: view_match_arm_seq(x.arms@) }
}

pub open spec fn view_match_arm(x: MatchArm) -> SMatchArm
    decreases x,
{
    SMatchArm { span: x.span, pat: view_pattern(x.pat), body: Box::new(view_stmt(*x.body)) }
}

pub open spec fn view_spawn_expr(x: SpawnExpr) -> SSpawnExpr
    decreases x,
{
    SSpawnExpr { span: x.span, callee: Box::new(view_expr(*x.callee)), args: view_expr_seq(x.args@) }
}

pub open spec fn view_zig_escape_expr(x: ZigEscapeExpr) -> SZigEscapeExpr
    decreases x,
{
    SZigEscapeExpr { span: x.span, code: x.code@ }
}

pub open spec fn view_object_field(x: ObjectField) -> SObjectField
    decreases x,
{
    SObjectField { key: view_ident(x.key), val: view_expr(x.val) }
}

pub open spec fn view_enum_init_expr(x: EnumInitExpr) -> SEnumInitExpr
    decreases x,
{
    SEnumInitExpr { span: x.span, enum_name: view_ident(x.enum_name), variant_name: view_ident(x.variant_name), fields: match x.fields { Some(y) => Some(view_enum_init_field_seq(y@)), None => None } }
}

pub open spec fn view_enum_init_field(x: EnumInitField) -> SEnumInitField
    decreases x,
{
    SEnumInitField { key: view_ident(x.key), val: view_expr(x.val) }
}

pub open spec fn view_builtin_call(x: BuiltinCall) -> SBuiltinCall
    decreases x,
{
    SBuiltinCall { span: x.span, name: x.name@, args: view_expr_seq(x.args@) }
}

pub open spec fn view_type(x: Type) -> SType
    decreases x,
{
    match x {
        Type::I32 => SType::I32,
        Type::U32 => SType::U32,
        Type::U64 => SType::U64,
        Type::F32 => SType::F32,
        Type::F64 => SType::F64,
        Type::USize => SType::USize,
        Type::Bool => SType::Bool,
        Type::String => SType::String,
        Type::Void => SType::Void,
        Type::Any => SType::Any,
        Type::PID => SType::PID,
        Type::Unknown => SType::Unknown,
        Type::Array(a0) => SType::Array(Box::new(view_type(*a0))),
        Type::MapOf(a0, a1) => SType::MapOf(Box::new(view_type(*a0)), Box::new(view_type(*a1))),
        Type::Tuple(a0) => SType::Tuple(view_type_seq(a0@)),
        Type::Object(a0) => SType::Object(view_field_seq(a0@)),
        Type::Ref(a0) => SType::Ref(view_ident(a0)),
        Type::Fn(a0, a1) => SType::Fn(view_type_seq(a0@), Box::new(view_type(*a1))),
        Type::ErrorUnion(a0) => SType::ErrorUnion(Box::new(view_type(*a0))),
        Type::Optional(a0) => SType::Optional(Box::new(view_type(*a0))),
    }
}

pub open spec fn view_param(x: Param) -> SParam
    decreases x,
{
    SParam { span: x.span, ident: view_ident(x.ident), ty: view_type(x.ty), is_comptime: x.is_comptime }
}

pub open spec fn view_field(x: Field) -> SField
    decreases x,
{
    SField { span: x.span, ident: view_ident(x.ident), ty: view_type(x.ty) }
}

pub open spec fn view_method_sig(x: MethodSig) -> SMethodSig
    decreases x,
{
    SMethodSig { span: x.span, ident: view_ident(x.ident), params: view_param_seq(x.params@), return_type: match x.return_type { Some(y) => Some(view_type(y)), None => None } }
}

pub open spec fn view_enum_init_field_seq(s: Seq<EnumInitField>) -> Seq<SEnumInitField>
    decreases s,
{
    if s.len() == 0 { Seq::empty() } else { seq![view_enum_init_field(s[0])] + view_enum_init_field_seq(s.drop_first()) }
}

pub open spec fn view_enum_variant_seq(s: Seq<EnumVariant>) -> Seq<SEnumVariant>
    decreases s,
{
    if s.len() == 0 { Seq::empty() } else { seq![view_enum_variant(s[0])] + view_enum_variant_seq(s.drop_first()) }
}

pub open spec fn view_expr_seq(s: Seq<Expr>) -> Seq<SExpr>
    decreases s,
{
    if s.len() == 0 { Seq::empty() } else { seq![view_expr(s[0])] + view_expr_seq(s.drop_first()) }
}

pub open spec fn view_field_seq(s: Seq<Field>) -> Seq<SField>
    decreases s,
{
    if s.len() == 0 { Seq::empty() } else { seq![view_field(s[0])] + view_field_seq(s.drop_first()) }
}

pub open spec fn view_function_seq(s: Seq<Function>) -> Seq<SFunction>
    decreases s,
{
    if s.len() == 0 { Seq::empty() } else { seq![view_function(s[0])] + view_function_seq(s.drop_first()) }
}

pub open spec fn view_ident_seq(s: Seq<Ident>) -> Seq<SIdent>
    decreases s,
{
    if s.len() == 0 { Seq::empty() } else { seq![view_ident(s[0])] + view_ident_seq(s.drop_first()) }
}

pub open spec fn view_match_arm_seq(s: Seq<MatchArm>) -> Seq<SMatchArm>
    decreases s,
{
    if s.len() == 0 { Seq::empty() } else { seq![view_match_arm(s[0])] + view_match_arm_seq(s.drop_first()) }
}

pub open spec fn view_method_sig_seq(s: Seq<MethodSig>) -> Seq<SMethodSig>
    decreases s,
{
    if s.len() == 0 { Seq::empty() } else { seq![view_method_sig(s[0])] + view_method_sig_seq(s.drop_first()) }
}

pub open spec fn view_module_item_seq(s: Seq<ModuleItem>) -> Seq<SModuleItem>
    decreases s,
{
    if s.len() == 0 { Seq::empty() } else { seq![view_module_item(s[0])] + view_module_item_seq(s.drop_first()) }
}

pub open spec fn view_object_field_seq(s: Seq<ObjectField>) -> Seq<SObjectField>
    decreases s,
{
    if s.len() == 0 { Seq::empty() } else { seq![view_object_field(s[0])] + view_object_field_seq(s.drop_first()) }
}

pub open spec fn view_object_pat_prop_seq(s: Seq<ObjectPatProp>) -> Seq<SObjectPatProp>
    decreases s,
{
    if s.len() == 0 { Seq::empty() } else { seq![view_object_pat_prop(s[0])] + view_object_pat_prop_seq(s.drop_first()) }
}

pub open spec fn view_param_seq(s: Seq<Param>) -> Seq<SParam>
    decreases s,
{
    if s.len() == 0 { Seq::empty() } else { seq![view_param(s[0])] + view_param_seq(s.drop_first()) }
}

pub open spec fn view_pattern_seq(s: Seq<Pattern>) -> Seq<SPattern>
    decreases s,
{
    if s.len() == 0 { Seq::empty() } else { seq![view_pattern(s[0])] + view_pattern_seq(s.drop_first()) }
}

pub open spec fn view_stmt_seq(s: Seq<Stmt>) -> Seq<SStmt>
    decreases s,
{
    if s.len() == 0 { Seq::empty() } else { seq![view_stmt(s[0])] + view_stmt_seq(s.drop_first()) }
}

pub open spec fn view_string_seq(s: Seq<std::string::String>) -> Seq<Seq<char>>
    decreases s.len(),
{
    if s.len() == 0 { Seq::empty() } else { seq![s[0]@] + view_string_seq(s.drop_first()) }
}

pub open spec fn view_type_seq(s: Seq<Type>) -> Seq<SType>
    decreases s,
{
    if s.len() == 0 { Seq::empty() } else { seq![view_type(s[0])] + view_type_seq(s.drop_first()) }
}

impl View for Module {
    type V = SModule;

    open spec fn view(&self) -> SModule {
        view_module(*self)
    }
}

impl View for ModuleItem {
    type V = SModuleItem;

    open spec fn view(&self) -> SModuleItem {
        view_module_item(*self)
    }
}

impl View for ImportStmt {
    type V = SImportStmt;

    open spec fn view(&self) -> SImportStmt {
        view_import_stmt(*self)
    }
}

impl View for Decl {
    type V = SDecl;

    open spec fn view(&self) -> SDecl {
        view_decl(*self)
    }
}

impl View for ErrorSetDecl {
    type V = SErrorSetDecl;

    open spec fn view(&self) -> SErrorSetDecl {
        view_error_set_decl(*self)
    }
}

impl View for Function {
    type V = SFunction;

    open spec fn view(&self) -> SFunction {
        view_function(*self)
    }
}

impl View for Class {
    type V = SClass;

    open spec fn view(&self) -> SClass {
        view_class(*self)
    }
}

impl View for Interface {
    type V = SInterface;

    open spec fn view(&self) -> SInterface {
        view_interface(*self)
    }
}

impl View for TraitDecl {
    type V = STraitDecl;

    open spec fn view(&self) -> STraitDecl {
        view_trait_decl(*self)
    }
}

impl View for ImplDecl {
    type V = SImplDecl;

    open spec fn view(&self) -> SImplDecl {
        view_impl_decl(*self)
    }
}

impl View for EnumDecl {
    type V = SEnumDecl;

    open spec fn view(&self) -> SEnumDecl {
        view_enum_decl(*self)
    }
}

impl View for EnumVariant {
    type V = SEnumVariant;

    open spec fn view(&self) -> SEnumVariant {
        view_enum_variant(*self)
    }
}

impl View for Stmt {
    type V = SStmt;

    open spec fn view(&self) -> SStmt {
        view_stmt(*self)
    }
}

impl View for BlockStmt {
    type V = SBlockStmt;

    open spec fn view(&self) -> SBlockStmt {
        view_block_stmt(*self)
    }
}

impl View for VarDecl {
    type V = SVarDecl;

    open spec fn view(&self) -> SVarDecl {
        view_var_decl(*self)
    }
}

impl View for Pattern {
    type V = SPattern;

    open spec fn view(&self) -> SPattern {
        view_pattern(*self)
    }
}

impl View for ObjectPatProp {
    type V = SObjectPatProp;

    open spec fn view(&self) -> SObjectPatProp {
        view_object_pat_prop(*self)
    }
}

impl View for EnumPattern {
    type V = SEnumPattern;

    open spec fn view(&self) -> SEnumPattern {
        view_enum_pattern(*self)
    }
}

impl View for ReturnStmt {
    type V = SReturnStmt;

    open spec fn view(&self) -> SReturnStmt {
        view_return_stmt(*self)
    }
}

impl View for IfStmt {
    type V = SIfStmt;

    open spec fn view(&self) -> SIfStmt {
        view_if_stmt(*self)
    }
}

impl View for WhileStmt {
    type V = SWhileStmt;

    open spec fn view(&self) -> SWhileStmt {
        view_while_stmt(*self)
    }
}

impl View for Expr {
    type V = SExpr;

    open spec fn view(&self) -> SExpr {
        view_expr(*self)
    }
}

impl View for ArrowExpr {
    type V = SArrowExpr;

    open spec fn view(&self) -> SArrowExpr {
        view_arrow_expr(*self)
    }
}

impl View for ArrowBody {
    type V = SArrowBody;

    open spec fn view(&self) -> SArrowBody {
        view_arrow_body(*self)
    }
}

impl View for Ident {
    type V = SIdent;

    open spec fn view(&self) -> SIdent {
        view_ident(*self)
    }
}

impl View for Lit {
    type V = SLit;

    open spec fn view(&self) -> SLit {
        view_lit(*self)
    }
}

impl View for TemplateLit {
    type V = STemplateLit;

    open spec fn view(&self) -> STemplateLit {
        view_template_lit(*self)
    }
}

impl View for BinExpr {
    type V = SBinExpr;

    open spec fn view(&self) -> SBinExpr {
        view_bin_expr(*self)
    }
}

impl View for CallExpr {
    type V = SCallExpr;

    open spec fn view(&self) -> SCallExpr {
        view_call_expr(*self)
    }
}

impl View for MemberExpr {
    type V = SMemberExpr;

    open spec fn view(&self) -> SMemberExpr {
        view_member_expr(*self)
    }
}

impl View for SliceExpr {
    type V = SSliceExpr;

    open spec fn view(&self) -> SSliceExpr {
        view_slice_expr(*self)
    }
}

impl View for MatchExpr {
    type V = SMatchExpr;

    open spec fn view(&self) -> SMatchExpr {
        view_match_expr(*self)
    }
}

impl View for MatchArm {
    type V = SMatchArm;

    open spec fn view(&self) -> SMatchArm {
        view_match_arm(*self)
    }
}

impl View for SpawnExpr {
    type V = SSpawnExpr;

    open spec fn view(&self) -> SSpawnExpr {
        view_spawn_expr(*self)
    }
}

impl View for ZigEscapeExpr {
    type V = SZigEscapeExpr;

    open spec fn view(&self) -> SZigEscapeExpr {
        view_zig_escape_expr(*self)
    }
}

impl View for ObjectField {
    type V = SObjectField;

    open spec fn view(&self) -> SObjectField {
        view_object_field(*self)
    }
}

impl View for EnumInitExpr {
    type V = SEnumInitExpr;

    open spec fn view(&self) -> SEnumInitExpr {
        view_enum_init_expr(*self)
    }
}

impl View for EnumInitField {
    type V = SEnumInitField;

    open spec fn view(&self) -> SEnumInitField {
        view_enum_init_field(*self)
    }
}

impl View for BuiltinCall {
    type V = SBuiltinCall;

    open spec fn view(&self) -> SBuiltinCall {
        view_builtin_call(*self)
    }
}

impl View for Type {
    type V = SType;

    open spec fn view(&self) -> SType {
        view_type(*self)
    }
}

impl View for Param {
    type V = SParam;

    open spec fn view(&self) -> SParam {
        view_param(*self)
    }
}

impl View for Field {
    type V = SField;

    open spec fn view(&self) -> SField {
        view_field(*self)
    }
}

impl View for MethodSig {
    type V = SMethodSig;

    open spec fn view(&self) -> SMethodSig {
        view_method_sig(*self)
    }
}

// ------------------------------------------------------------------
// Lemmas on the sequence views
// ------------------------------------------------------------------
pub proof fn lemma_view_enum_init_field_seq_push(s: Seq<EnumInitField>, x: EnumInitField)
    ensures
        view_enum_init_field_seq(s.push(x)) == view_enum_init_field_seq(s).push(view_enum_init_field(x)),
        view_enum_init_field_seq(s).len() == s.len(),
    decreases s.len(),
{
    if s.len() == 0 {
        assert(s.push(x).drop_first() =~= s);
        assert(view_enum_init_field_seq(s.push(x)) =~= view_enum_init_field_seq(s).push(view_enum_init_field(x)));
    } else {
        lemma_view_enum_init_field_seq_push(s.drop_first(), x);
        assert(s.push(x).drop_first() =~= s.drop_first().push(x));
        assert(view_enum_init_field_seq(s.push(x)) =~= view_enum_init_field_seq(s).push(view_enum_init_field(x)));
    }
}

pub proof fn lemma_view_enum_variant_seq_push(s: Seq<EnumVariant>, x: EnumVariant)
    ensures
        view_enum_variant_seq(s.push(x)) == view_enum_variant_seq(s).push(view_enum_variant(x)),
        view_enum_variant_seq(s).len() == s.len(),
    decreases s.len(),
{
    if s.len() == 0 {
        assert(s.push(x).drop_first() =~= s);
        assert(view_enum_variant_seq(s.push(x)) =~= view_enum_variant_seq(s).push(view_enum_variant(x)));
    } else {
        lemma_view_enum_variant_seq_push(s.drop_first(), x);
        assert(s.push(x).drop_first() =~= s.drop_first().push(x));
        assert(view_enum_variant_seq(s.push(x)) =~= view_enum_variant_seq(s).push(view_enum_variant(x)));
    }
}

pub proof fn lemma_view_expr_seq_push(s: Seq<Expr>, x: Expr)
    ensures
        view_expr_seq(s.push(x)) == view_expr_seq(s).push(view_expr(x)),
        view_expr_seq(s).len() == s.len(),
    decreases s.len(),
{
    if s.len() == 0 {
        assert(s.push(x).drop_first() =~= s);
        assert(view_expr_seq(s.push(x)) =~= view_expr_seq(s).push(view_expr(x)));
    } else {
        lemma_view_expr_seq_push(s.drop_first(), x);
        assert(s.push(x).drop_first() =~= s.drop_first().push(x));
        assert(view_expr_seq(s.push(x)) =~= view_expr_seq(s).push(view_expr(x)));
    }
}

pub proof fn lemma_view_field_seq_push(s: Seq<Field>, x: Field)
    ensures
        view_field_seq(s.push(x)) == view_field_seq(s).push(view_field(x)),
        view_field_seq(s).len() == s.len(),
    decreases s.len(),
{
    if s.len() == 0 {
        assert(s.push(x).drop_first() =~= s);
        assert(view_field_seq(s.push(x)) =~= view_field_seq(s).push(view_field(x)));
    } else {
        lemma_view_field_seq_push(s.drop_first(), x);
        assert(s.push(x).drop_first() =~= s.drop_first().push(x));
        assert(view_field_seq(s.push(x)) =~= view_field_seq(s).push(view_field(x)));
    }
}

pub proof fn lemma_view_function_seq_push(s: Seq<Function>, x: Function)
    ensures
        view_function_seq(s.push(x)) == view_function_seq(s).push(view_function(x)),
        view_function_seq(s).len() == s.len(),
    decreases s.len(),
{
    if s.len() == 0 {
        assert(s.push(x).drop_first() =~= s);
        assert(view_function_seq(s.push(x)) =~= view_function_seq(s).push(view_function(x)));
    } else {
        lemma_view_function_seq_push(s.drop_first(), x);
        assert(s.push(x).drop_first() =~= s.drop_first().push(x));
        assert(view_function_seq(s.push(x)) =~= view_function_seq(s).push(view_function(x)));
    }
}

pub proof fn lemma_view_ident_seq_push(s: Seq<Ident>, x: Ident)
    ensures
        view_ident_seq(s.push(x)) == view_ident_seq(s).push(view_ident(x)),
        view_ident_seq(s).len() == s.len(),
    decreases s.len(),
{
    if s.len() == 0 {
        assert(s.push(x).drop_first() =~= s);
        assert(view_ident_seq(s.push(x)) =~= view_ident_seq(s).push(view_ident(x)));
    } else {
        lemma_view_ident_seq_push(s.drop_first(), x);
        assert(s.push(x).drop_first() =~= s.drop_first().push(x));
        assert(view_ident_seq(s.push(x)) =~= view_ident_seq(s).push(view_ident(x)));
    }
}

pub proof fn lemma_view_match_arm_seq_push(s: Seq<MatchArm>, x: MatchArm)
    ensures
        view_match_arm_seq(s.push(x)) == view_match_arm_seq(s).push(view_match_arm(x)),
        view_match_arm_seq(s).len() == s.len(),
    decreases s.len(),
{
    if s.len() == 0 {
        assert(s.push(x).drop_first() =~= s);
        assert(view_match_arm_seq(s.push(x)) =~= view_match_arm_seq(s).push(view_match_arm(x)));
    } else {
        lemma_view_match_arm_seq_push(s.drop_first(), x);
        assert(s.push(x).drop_first() =~= s.drop_first().push(x));
        assert(view_match_arm_seq(s.push(x)) =~= view_match_arm_seq(s).push(view_match_arm(x)));
    }
}

pub proof fn lemma_view_method_sig_seq_push(s: Seq<MethodSig>, x: MethodSig)
    ensures
        view_method_sig_seq(s.push(x)) == view_method_sig_seq(s).push(view_method_sig(x)),
        view_method_sig_seq(s).len() == s.len(),
    decreases s.len(),
{
    if s.len() == 0 {
        assert(s.push(x).drop_first() =~= s);
        assert(view_method_sig_seq(s.push(x)) =~= view_method_sig_seq(s).push(view_method_sig(x)));
    } else {
        lemma_view_method_sig_seq_push(s.drop_first(), x);
        assert(s.push(x).drop_first() =~= s.drop_first().push(x));
        assert(view_method_sig_seq(s.push(x)) =~= view_method_sig_seq(s).push(view_method_sig(x)));
    }
}

pub proof fn lemma_view_module_item_seq_push(s: Seq<ModuleItem>, x: ModuleItem)
    ensures
        view_module_item_seq(s.push(x)) == view_module_item_seq(s).push(view_module_item(x)),
        view_module_item_seq(s).len() == s.len(),
    decreases s.len(),
{
    if s.len() == 0 {
        assert(s.push(x).drop_first() =~= s);
        assert(view_module_item_seq(s.push(x)) =~= view_module_item_seq(s).push(view_module_item(x)));
    } else {
        lemma_view_module_item_seq_push(s.drop_first(), x);
        assert(s.push(x).drop_first() =~= s.drop_first().push(x));
        assert(view_module_item_seq(s.push(x)) =~= view_module_item_seq(s).push(view_module_item(x)));
    }
}

pub proof fn lemma_view_object_field_seq_push(s: Seq<ObjectField>, x: ObjectField)
    ensures
        view_object_field_seq(s.push(x)) == view_object_field_seq(s).push(view_object_field(x)),
        view_object_field_seq(s).len() == s.len(),
    decreases s.len(),
{
    if s.len() == 0 {
        assert(s.push(x).drop_first() =~= s);
        assert(view_object_field_seq(s.push(x)) =~= view_object_field_seq(s).push(view_object_field(x)));
    } else {
        lemma_view_object_field_seq_push(s.drop_first(), x);
        assert(s.push(x).drop_first() =~= s.drop_first().push(x));
        assert(view_object_field_seq(s.push(x)) =~= view_object_field_seq(s).push(view_object_field(x)));
    }
}

pub proof fn lemma_view_object_pat_prop_seq_push(s: Seq<ObjectPatProp>, x: ObjectPatProp)
    ensures
        view_object_pat_prop_seq(s.push(x)) == view_object_pat_prop_seq(s).push(view_object_pat_prop(x)),
        view_object_pat_prop_seq(s).len() == s.len(),
    decreases s.len(),
{
    if s.len() == 0 {
        assert(s.push(x).drop_first() =~= s);
        assert(view_object_pat_prop_seq(s.push(x)) =~= view_object_pat_prop_seq(s).push(view_object_pat_prop(x)));
    } else {
        lemma_view_object_pat_prop_seq_push(s.drop_first(), x);
        assert(s.push(x).drop_first() =~= s.drop_first().push(x));
        assert(view_object_pat_prop_seq(s.push(x)) =~= view_object_pat_prop_seq(s).push(view_object_pat_prop(x)));
    }
}

pub proof fn lemma_view_param_seq_push(s: Seq<Param>, x: Param)
    ensures
        view_param_seq(s.push(x)) == view_param_seq(s).push(view_param(x)),
        view_param_seq(s).len() == s.len(),
    decreases s.len(),
{
    if s.len() == 0 {
        assert(s.push(x).drop_first() =~= s);
        assert(view_param_seq(s.push(x)) =~= view_param_seq(s).push(view_param(x)));
    } else {
        lemma_view_param_seq_push(s.drop_first(), x);
        assert(s.push(x).drop_first() =~= s.drop_first().push(x));
        assert(view_param_seq(s.push(x)) =~= view_param_seq(s).push(view_param(x)));
    }
}

pub proof fn lemma_view_pattern_seq_push(s: Seq<Pattern>, x: Pattern)
    ensures
        view_pattern_seq(s.push(x)) == view_pattern_seq(s).push(view_pattern(x)),
        view_pattern_seq(s).len() == s.len(),
    decreases s.len(),
{
    if s.len() == 0 {
        assert(s.push(x).drop_first() =~= s);
        assert(view_pattern_seq(s.push(x)) =~= view_pattern_seq(s).push(view_pattern(x)));
    } else {
        lemma_view_pattern_seq_push(s.drop_first(), x);
        assert(s.push(x).drop_first() =~= s.drop_first().push(x));
        assert(view_pattern_seq(s.push(x)) =~= view_pattern_seq(s).push(view_pattern(x)));
    }
}

pub proof fn lemma_view_stmt_seq_push(s: Seq<Stmt>, x: Stmt)
    ensures
        view_stmt_seq(s.push(x)) == view_stmt_seq(s).push(view_stmt(x)),
        view_stmt_seq(s).len() == s.len(),
    decreases s.len(),
{
    if s.len() == 0 {
        assert(s.push(x).drop_first() =~= s);
        assert(view_stmt_seq(s.push(x)) =~= view_stmt_seq(s).push(view_stmt(x)));
    } else {
        lemma_view_stmt_seq_push(s.drop_first(), x);
        assert(s.push(x).drop_first() =~= s.drop_first().push(x));
        assert(view_stmt_seq(s.push(x)) =~= view_stmt_seq(s).push(view_stmt(x)));
    }
}

pub proof fn lemma_view_string_seq_push(s: Seq<std::string::String>, x: std::string::String)
    ensures
        view_string_seq(s.push(x)) == view_string_seq(s).push(x@),
        view_string_seq(s).len() == s.len(),
    decreases s.len(),
{
    if s.len() == 0 {
        assert(s.push(x).drop_first() =~= s);
        assert(view_string_seq(s.push(x)) =~= view_string_seq(s).push(x@));
    } else {
        lemma_view_string_seq_push(s.drop_first(), x);
        assert(s.push(x).drop_first() =~= s.drop_first().push(x));
        assert(view_string_seq(s.push(x)) =~= view_string_seq(s).push(x@));
    }
}

pub proof fn lemma_view_type_seq_push(s: Seq<Type>, x: Type)
    ensures
        view_type_seq(s.push(x)) == view_type_seq(s).push(view_type(x)),
        view_type_seq(s).len() == s.len(),
    decreases s.len(),
{
    if s.len() == 0 {
        assert(s.push(x).drop_first() =~= s);
        assert(view_type_seq(s.push(x)) =~= view_type_seq(s).push(view_type(x)));
    } else {
        lemma_view_type_seq_push(s.drop_first(), x);
        assert(s.push(x).drop_first() =~= s.drop_first().push(x));
        assert(view_type_seq(s.push(x)) =~= view_type_seq(s).push(view_type(x)));
    }
}


/// The view of a sequence of expressions is taken element by element.
pub proof fn lemma_view_expr_seq_index(s: Seq<Expr>)
    ensures
        view_expr_seq(s).len() == s.len(),
        forall|i: int| 0 <= i < s.len() ==> #[trigger] view_expr_seq(s)[i] == view_expr(s[i]),
    decreases s.len(),
{
    if s.len() > 0 {
        lemma_view_expr_seq_index(s.drop_first());
        assert forall|i: int| 0 <= i < s.len() implies #[trigger] view_expr_seq(s)[i] == view_expr(s[i]) by {
            if i > 0 {
                assert(view_expr_seq(s)[i] == view_expr_seq(s.drop_first())[i - 1]);
            }
        }
    }
}

/// The view of a sequence is taken element by element.
pub proof fn lemma_view_enum_init_field_seq_index(s: Seq<EnumInitField>)
    ensures
        view_enum_init_field_seq(s).len() == s.len(),
        forall|i: int| 0 <= i < s.len() ==> #[trigger] view_enum_init_field_seq(s)[i] == view_enum_init_field(s[i]),
    decreases s.len(),
{
    if s.len() > 0 {
        lemma_view_enum_init_field_seq_index(s.drop_first());
        assert forall|i: int| 0 <= i < s.len() implies #[trigger] view_enum_init_field_seq(s)[i] == view_enum_init_field(s[i]) by {
            if i > 0 {
                assert(view_enum_init_field_seq(s)[i] == view_enum_init_field_seq(s.drop_first())[i - 1]);
            }
        }
    }
}

/// The view of a sequence is taken element by element.
pub proof fn lemma_view_enum_variant_seq_index(s: Seq<EnumVariant>)
    ensures
        view_enum_variant_seq(s).len() == s.len(),
        forall|i: int| 0 <= i < s.len() ==> #[trigger] view_enum_variant_seq(s)[i] == view_enum_variant(s[i]),
    decreases s.len(),
{
    if s.len() > 0 {
        lemma_view_enum_variant_seq_index(s.drop_first());
        assert forall|i: int| 0 <= i < s.len() implies #[trigger] view_enum_variant_seq(s)[i] == view_enum_variant(s[i]) by {
            if i > 0 {
                assert(view_enum_variant_seq(s)[i] == view_enum_variant_seq(s.drop_first())[i - 1]);
            }
        }
    }
}

/// The view of a sequence is taken element by element.
pub proof fn lemma_view_field_seq_index(s: Seq<Field>)
    ensures
        view_field_seq(s).len() == s.len(),
        forall|i: int| 0 <= i < s.len() ==> #[trigger] view_field_seq(s)[i] == view_field(s[i]),
    decreases s.len(),
{
    if s.len() > 0 {
        lemma_view_field_seq_index(s.drop_first());
        assert forall|i: int| 0 <= i < s.len() implies #[trigger] view_field_seq(s)[i] == view_field(s[i]) by {
            if i > 0 {
                assert(view_field_seq(s)[i] == view_field_seq(s.drop_first())[i - 1]);
            }
        }
    }
}

/// The view of a sequence is taken element by element.
pub proof fn lemma_view_function_seq_index(s: Seq<Function>)
    ensures
        view_function_seq(s).len() == s.len(),
        forall|i: int| 0 <= i < s.len() ==> #[trigger] view_function_seq(s)[i] == view_function(s[i]),
    decreases s.len(),
{
    if s.len() > 0 {
        lemma_view_function_seq_index(s.drop_first());
        assert forall|i: int| 0 <= i < s.len() implies #[trigger] view_function_seq(s)[i] == view_function(s[i]) by {
            if i > 0 {
                assert(view_function_seq(s)[i] == view_function_seq(s.drop_first())[i - 1]);
            }
        }
    }
}

/// The view of a sequence is taken element by element.
pub proof fn lemma_view_ident_seq_index(s: Seq<Ident>)
    ensures
        view_ident_seq(s).len() == s.len(),
        forall|i: int| 0 <= i < s.len() ==> #[trigger] view_ident_seq(s)[i] == view_ident(s[i]),
    decreases s.len(),
{
    if s.len() > 0 {
        lemma_view_ident_seq_index(s.drop_first());
        assert forall|i: int| 0 <= i < s.len() implies #[trigger] view_ident_seq(s)[i] == view_ident(s[i]) by {
            if i > 0 {
                assert(view_ident_seq(s)[i] == view_ident_seq(s.drop_first())[i - 1]);
            }
        }
    }
}

/// The view of a sequence is taken element by element.
pub proof fn lemma_view_match_arm_seq_index(s: Seq<MatchArm>)
    ensures
        view_match_arm_seq(s).len() == s.len(),
        forall|i: int| 0 <= i < s.len() ==> #[trigger] view_match_arm_seq(s)[i] == view_match_arm(s[i]),
    decreases s.len(),
{
    if s.len() > 0 {
        lemma_view_match_arm_seq_index(s.drop_first());
        assert forall|i: int| 0 <= i < s.len() implies #[trigger] view_match_arm_seq(s)[i] == view_match_arm(s[i]) by {
            if i > 0 {
                assert(view_match_arm_seq(s)[i] == view_match_arm_seq(s.drop_first())[i - 1]);
            }
        }
    }
}

/// The view of a sequence is taken element by element.
pub proof fn lemma_view_method_sig_seq_index(s: Seq<MethodSig>)
    ensures
        view_method_sig_seq(s).len() == s.len(),
        forall|i: int| 0 <= i < s.len() ==> #[trigger] view_method_sig_seq(s)[i] == view_method_sig(s[i]),
    decreases s.len(),
{
    if s.len() > 0 {
        lemma_view_method_sig_seq_index(s.drop_first());
        assert forall|i: int| 0 <= i < s.len() implies #[trigger] view_method_sig_seq(s)[i] == view_method_sig(s[i]) by {
            if i > 0 {
                assert(view_method_sig_seq(s)[i] == view_method_sig_seq(s.drop_first())[i - 1]);
            }
        }
    }
}

/// The view of a sequence is taken element by element.
pub proof fn lemma_view_module_item_seq_index(s: Seq<ModuleItem>)
    ensures
        view_module_item_seq(s).len() == s.len(),
        forall|i: int| 0 <= i < s.len() ==> #[trigger] view_module_item_seq(s)[i] == view_module_item(s[i]),
    decreases s.len(),
{
    if s.len() > 0 {
        lemma_view_module_item_seq_index(s.drop_first());
        assert forall|i: int| 0 <= i < s.len() implies #[trigger] view_module_item_seq(s)[i] == view_module_item(s[i]) by {
            if i > 0 {
                assert(view_module_item_seq(s)[i] == view_module_item_seq(s.drop_first())[i - 1]);
            }
        }
    }
}

/// The view of a sequence is taken element by element.
pub proof fn lemma_view_object_field_seq_index(s: Seq<ObjectField>)
    ensures
        view_object_field_seq(s).len() == s.len(),
        forall|i: int| 0 <= i < s.len() ==> #[trigger] view_object_field_seq(s)[i] == view_object_field(s[i]),
    decreases s.len(),
{
    if s.len() > 0 {
        lemma_view_object_field_seq_index(s.drop_first());
        assert forall|i: int| 0 <= i < s.len() implies #[trigger] view_object_field_seq(s)[i] == view_object_field(s[i]) by {
            if i > 0 {
                assert(view_object_field_seq(s)[i] == view_object_field_seq(s.drop_first())[i - 1]);
            }
        }
    }
}

/// The view of a sequence is taken element by element.
pub proof fn lemma_view_object_pat_prop_seq_index(s: Seq<ObjectPatProp>)
    ensures
        view_object_pat_prop_seq(s).len() == s.len(),
        forall|i: int| 0 <= i < s.len() ==> #[trigger] view_object_pat_prop_seq(s)[i] == view_object_pat_prop(s[i]),
    decreases s.len(),
{
    if s.len() > 0 {
        lemma_view_object_pat_prop_seq_index(s.drop_first());
        assert forall|i: int| 0 <= i < s.len() implies #[trigger] view_object_pat_prop_seq(s)[i] == view_object_pat_prop(s[i]) by {
            if i > 0 {
                assert(view_object_pat_prop_seq(s)[i] == view_object_pat_prop_seq(s.drop_first())[i - 1]);
            }
        }
    }
}

/// The view of a sequence is taken element by element.
pub proof fn lemma_view_param_seq_index(s: Seq<Param>)
    ensures
        view_param_seq(s).len() == s.len(),
        forall|i: int| 0 <= i < s.len() ==> #[trigger] view_param_seq(s)[i] == view_param(s[i]),
    decreases s.len(),
{
    if s.len() > 0 {
        lemma_view_param_seq_index(s.drop_first());
        assert forall|i: int| 0 <= i < s.len() implies #[trigger] view_param_seq(s)[i] == view_param(s[i]) by {
            if i > 0 {
                assert(view_param_seq(s)[i] == view_param_seq(s.drop_first())[i - 1]);
            }
        }
    }
}

/// The view of a sequence is taken element by element.
pub proof fn lemma_view_pattern_seq_index(s: Seq<Pattern>)
    ensures
        view_pattern_seq(s).len() == s.len(),
        forall|i: int| 0 <= i < s.len() ==> #[trigger] view_pattern_seq(s)[i] == view_pattern(s[i]),
    decreases s.len(),
{
    if s.len() > 0 {
        lemma_view_pattern_seq_index(s.drop_first());
        assert forall|i: int| 0 <= i < s.len() implies #[trigger] view_pattern_seq(s)[i] == view_pattern(s[i]) by {
            if i > 0 {
                assert(view_pattern_seq(s)[i] == view_pattern_seq(s.drop_first())[i - 1]);
            }
        }
    }
}

/// The view of a sequence is taken element by element.
pub proof fn lemma_view_stmt_seq_index(s: Seq<Stmt>)
    ensures
        view_stmt_seq(s).len() == s.len(),
        forall|i: int| 0 <= i < s.len() ==> #[trigger] view_stmt_seq(s)[i] == view_stmt(s[i]),
    decreases s.len(),
{
    if s.len() > 0 {
        lemma_view_stmt_seq_index(s.drop_first());
        assert forall|i: int| 0 <= i < s.len() implies #[trigger] view_stmt_seq(s)[i] == view_stmt(s[i]) by {
            if i > 0 {
                assert(view_stmt_seq(s)[i] == view_stmt_seq(s.drop_first())[i - 1]);
            }
        }
    }
}

/// The view of a sequence is taken element by element.
pub proof fn lemma_view_string_seq_index(s: Seq<std::string::String>)
    ensures
        view_string_seq(s).len() == s.len(),
        forall|i: int| 0 <= i < s.len() ==> #[trigger] view_string_seq(s)[i] == s[i]@,
    decreases s.len(),
{
    if s.len() > 0 {
        lemma_view_string_seq_index(s.drop_first());
        assert forall|i: int| 0 <= i < s.len() implies #[trigger] view_string_seq(s)[i] == s[i]@ by {
            if i > 0 {
                assert(view_string_seq(s)[i] == view_string_seq(s.drop_first())[i - 1]);
            }
        }
    }
}

/// The view of a sequence is taken element by element.
pub proof fn lemma_view_type_seq_index(s: Seq<Type>)
    ensures
        view_type_seq(s).len() == s.len(),
        forall|i: int| 0 <= i < s.len() ==> #[trigger] view_type_seq(s)[i] == view_type(s[i]),
    decreases s.len(),
{
    if s.len() > 0 {
        lemma_view_type_seq_index(s.drop_first());
        assert forall|i: int| 0 <= i < s.len() implies #[trigger] view_type_seq(s)[i] == view_type(s[i]) by {
            if i > 0 {
                assert(view_type_seq(s)[i] == view_type_seq(s.drop_first())[i - 1]);
            }
        }
    }
}

// ------------------------------------------------------------------
// Copies
// ------------------------------------------------------------------

/// A copy of the function.
pub fn clone_function(x: &Function) -> (r: Function)
    ensures
        view_function(r) == view_function(*x),
    decreases x,
{
    Function { span: x.span, ident: clone_ident(&x.ident), params: clone_param_vec(&x.params), return_type: match &x.return_type { Some(y) => Some(clone_type(y)), None => None }, body: clone_block_stmt(&x.body), is_async: x.is_async }
}

/// A copy of the class.
pub fn clone_class(x: &Class) -> (r: Class)
    ensures
        view_class(r) == view_class(*x),
    decreases x,
{
    Class { span: x.span, ident: clone_ident(&x.ident), implements: clone_ident_vec(&x.implements), fields: clone_field_vec(&x.fields), methods: clone_function_vec(&x.methods) }
}

/// A copy of the trait decl.
pub fn clone_trait_decl(x: &TraitDecl) -> (r: TraitDecl)
    ensures
        view_trait_decl(r) == view_trait_decl(*x),
    decreases x,
{
    TraitDecl { span: x.span, ident: clone_ident(&x.ident), methods: clone_method_sig_vec(&x.methods) }
}

/// A copy of the interface.
pub fn clone_interface(x: &Interface) -> (r: Interface)
    ensures
        view_interface(r) == view_interface(*x),
{
    Interface { span: x.span, ident: clone_ident(&x.ident), methods: clone_method_sig_vec(&x.methods) }
}

/// A copy of the enum decl.
pub fn clone_enum_decl(x: &EnumDecl) -> (r: EnumDecl)
    ensures
        view_enum_decl(r) == view_enum_decl(*x),
    decreases x,
{
    EnumDecl { span: x.span, ident: clone_ident(&x.ident), variants: clone_enum_variant_vec(&x.variants) }
}

/// A copy of the enum variant.
pub fn clone_enum_variant(x: &EnumVariant) -> (r: EnumVariant)
    ensures
        view_enum_variant(r) == view_enum_variant(*x),
    decreases x,
{
    EnumVariant { span: x.span, ident: clone_ident(&x.ident), fields: match &x.fields { Some(y) => Some(clone_field_vec(y)), None => None }, value: match &x.value { Some(y) => Some(clone_expr(y)), None => None } }
}

/// A copy of the stmt.
pub fn clone_stmt(x: &Stmt) -> (r: Stmt)
    ensures
        view_stmt(r) == view_stmt(*x),
    decreases x,
{
    match x {
        Stmt::Block(a0) => Stmt::Block(clone_block_stmt(a0)),
        Stmt::Expr(a0) => Stmt::Expr(clone_expr(a0)),
        Stmt::Var(a0) => Stmt::Var(clone_var_decl(a0)),
        Stmt::Return(a0) => Stmt::Return(clone_return_stmt(a0)),
        Stmt::If(a0) => Stmt::If(clone_if_stmt(a0)),
        Stmt::While(a0) => Stmt::While(clone_while_stmt(a0)),
        Stmt::Match(a0) => Stmt::Match(clone_match_expr(a0)),
        Stmt::Spawn(a0) => Stmt::Spawn(clone_spawn_expr(a0)),
        Stmt::Defer(a0) => Stmt::Defer(Box::new(clone_stmt(&**a0))),
        Stmt::ErrDefer(a0) => Stmt::ErrDefer(Box::new(clone_stmt(&**a0))),
        Stmt::ComptimeBlock(a0) => Stmt::ComptimeBlock(clone_block_stmt(a0)),
    }
}

/// A copy of the block stmt.
pub fn clone_block_stmt(x: &BlockStmt) -> (r: BlockStmt)
    ensures
        view_block_stmt(r) == view_block_stmt(*x),
    decreases x,
{
    BlockStmt { span: x.span, body: clone_stmt_vec(&x.body) }
}

/// A copy of the var decl.
pub fn clone_var_decl(x: &VarDecl) -> (r: VarDecl)
    ensures
        view_var_decl(r) == view_var_decl(*x),
    decreases x,
{
    VarDecl { span: x.span, kind: x.kind, pat: clone_pattern(&x.pat), ty: match &x.ty { Some(y) => Some(clone_type(y)), None => None }, init: match &x.init { Some(y) => Some(clone_expr(y)), None => None } }
}

/// A copy of the pattern.
pub fn clone_pattern(x: &Pattern) -> (r: Pattern)
    ensures
        view_pattern(r) == view_pattern(*x),
    decreases x,
{
    match x {
        Pattern::Ident(a0) => Pattern::Ident(clone_ident(a0)),
        Pattern::Tuple(a0) => Pattern::Tuple(clone_pattern_vec(a0)),
        Pattern::Array(a0) => Pattern::Array(clone_pattern_vec(a0)),
        Pattern::Rest(a0) => Pattern::Rest(Box::new(clone_pattern(a0))),
        Pattern::Object(a0) => Pattern::Object(clone_object_pat_prop_vec(a0)),
        Pattern::Enum(a0) => Pattern::Enum(clone_enum_pattern(a0)),
        Pattern::Wildcard => Pattern::Wildcard,
    }
}

/// A copy of the object pat prop.
pub fn clone_object_pat_prop(x: &ObjectPatProp) -> (r: ObjectPatProp)
    ensures
        view_object_pat_prop(r) == view_object_pat_prop(*x),
    decreases x,
{
    ObjectPatProp { key: clone_ident(&x.key), val: match &x.val { Some(y) => Some(clone_pattern(y)), None => None } }
}

/// A copy of the enum pattern.
pub fn clone_enum_pattern(x: &EnumPattern) -> (r: EnumPattern)
    ensures
        view_enum_pattern(r) == view_enum_pattern(*x),
    decreases x,
{
    EnumPattern { span: x.span, enum_name: clone_ident(&x.enum_name), variant_name: clone_ident(&x.variant_name), fields: match &x.fields { Some(y) => Some(clone_object_pat_prop_vec(y)), None => None } }
}

/// A copy of the return stmt.
pub fn clone_return_stmt(x: &ReturnStmt) -> (r: ReturnStmt)
    ensures
        view_return_stmt(r) == view_return_stmt(*x),
    decreases x,
{
    ReturnStmt { span: x.span, arg: match &x.arg { Some(y) => Some(clone_expr(y)), None => None } }
}

/// A copy of the if stmt.
pub fn clone_if_stmt(x: &IfStmt) -> (r: IfStmt)
    ensures
        view_if_stmt(r) == view_if_stmt(*x),
    decreases x,
{
    IfStmt { span: x.span, test: clone_expr(&x.test), cons: Box::new(clone_stmt(&*x.cons)), alt: match &x.alt { Some(y) => Some(Box::new(clone_stmt(&**y))), None => None } }
}

/// A copy of the while stmt.
pub fn clone_while_stmt(x: &WhileStmt) -> (r: WhileStmt)
    ensures
        view_while_stmt(r) == view_while_stmt(*x),
    decreases x,
{
    WhileStmt { span: x.span, test: clone_expr(&x.test), body: Box::new(clone_stmt(&*x.body)) }
}

/// A copy of the expr.
pub fn clone_expr(x: &Expr) -> (r: Expr)
    ensures
        view_expr(r) == view_expr(*x),
    decreases x,
{
    match x {
        Expr::Ident(a0) => Expr::Ident(clone_ident(a0)),
        Expr::Lit(a0) => Expr::Lit(clone_lit(a0)),
        Expr::Bin(a0) => Expr::Bin(clone_bin_expr(a0)),
        Expr::Call(a0) => Expr::Call(clone_call_expr(a0)),
        Expr::New(a0) => Expr::New(clone_call_expr(a0)),
        Expr::Member(a0) => Expr::Member(clone_member_expr(a0)),
        Expr::Slice(a0) => Expr::Slice(clone_slice_expr(a0)),
        Expr::Match(a0) => Expr::Match(Box::new(clone_match_expr(&**a0))),
        Expr::Spawn(a0) => Expr::Spawn(Box::new(clone_spawn_expr(&**a0))),
        Expr::Receive(a0) => Expr::Receive(match a0 { Some(y) => Some(Box::new(clone_type(&**y))), None => None }),
        Expr::Zig(a0) => Expr::Zig(clone_zig_escape_expr(a0)),
        Expr::Question(a0) => Expr::Question(Box::new(clone_expr(&**a0))),
        Expr::Array(a0) => Expr::Array(clone_expr_vec(a0)),
        Expr::Object(a0) => Expr::Object(clone_object_field_vec(a0)),
        Expr::Arrow(a0) => Expr::Arrow(Box::new(clone_arrow_expr(&**a0))),
        Expr::EnumInit(a0) => Expr::EnumInit(clone_enum_init_expr(a0)),
        Expr::Template(a0) => Expr::Template(clone_template_lit(a0)),
        Expr::Await(a0) => Expr::Await(Box::new(clone_expr(&**a0))),
        Expr::Builtin(a0) => Expr::Builtin(clone_builtin_call(a0)),
    }
}

/// A copy of the arrow expr.
pub fn clone_arrow_expr(x: &ArrowExpr) -> (r: ArrowExpr)
    ensures
        view_arrow_expr(r) == view_arrow_expr(*x),
    decreases x,
{
    ArrowExpr { span: x.span, params: clone_pattern_vec(&x.params), body: Box::new(clone_arrow_body(&*x.body)) }
}

/// A copy of the arrow body.
pub fn clone_arrow_body(x: &ArrowBody) -> (r: ArrowBody)
    ensures
        view_arrow_body(r) == view_arrow_body(*x),
    decreases x,
{
    match x {
        ArrowBody::Expr(a0) => ArrowBody::Expr(clone_expr(a0)),
        ArrowBody::Block(a0) => ArrowBody::Block(clone_block_stmt(a0)),
    }
}

/// A copy of the ident.
pub fn clone_ident(x: &Ident) -> (r: Ident)
    ensures
        view_ident(r) == view_ident(*x),
    decreases x,
{
    Ident { span: x.span, sym: x.sym.clone() }
}

/// A copy of the lit.
pub fn clone_lit(x: &Lit) -> (r: Lit)
    ensures
        view_lit(r) == view_lit(*x),
    decreases x,
{
    match x {
        Lit::Int(a0) => Lit::Int(*a0),
        Lit::Float(a0) => Lit::Float(a0.clone()),
        Lit::Str(a0) => Lit::Str(a0.clone()),
        Lit::Bool(a0) => Lit::Bool(*a0),
        Lit::Null => Lit::Null,
    }
}

/// A copy of the template lit.
pub fn clone_template_lit(x: &TemplateLit) -> (r: TemplateLit)
    ensures
        view_template_lit(r) == view_template_lit(*x),
    decreases x,
{
    TemplateLit { span: x.span, parts: clone_string_vec(&x.parts), exprs: clone_expr_vec(&x.exprs) }
}

/// A copy of the bin expr.
pub fn clone_bin_expr(x: &BinExpr) -> (r: BinExpr)
    ensures
        view_bin_expr(r) == view_bin_expr(*x),
    decreases x,
{
    BinExpr { span: x.span, op: x.op, left: Box::new(clone_expr(&*x.left)), right: Box::new(clone_expr(&*x.right)) }
}

/// A copy of the call expr.
pub fn clone_call_expr(x: &CallExpr) -> (r: CallExpr)
    ensures
        view_call_expr(r) == view_call_expr(*x),
    decreases x,
{
    CallExpr { span: x.span, callee: Box::new(clone_expr(&*x.callee)), args: clone_expr_vec(&x.args), is_comptime: x.is_comptime }
}

/// A copy of the member expr.
pub fn clone_member_expr(x: &MemberExpr) -> (r: MemberExpr)
    ensures
        view_member_expr(r) == view_member_expr(*x),
    decreases x,
{
    MemberExpr { span: x.span, obj: Box::new(clone_expr(&*x.obj)), prop: clone_ident(&x.prop) }
}

/// A copy of the slice expr.
pub fn clone_slice_expr(x: &SliceExpr) -> (r: SliceExpr)
    ensures
        view_slice_expr(r) == view_slice_expr(*x),
    decreases x,
{
    SliceExpr { span: x.span, obj: Box::new(clone_expr(&*x.obj)), start: match &x.start { Some(y) => Some(Box::new(clone_expr(&**y))), None => None }, end: match &x.end { Some(y) => Some(Box::new(clone_expr(&**y))), None => None } }
}

/// A copy of the match expr.
pub fn clone_match_expr(x: &MatchExpr) -> (r: MatchExpr)
    ensures
        view_match_expr(r) == view_match_expr(*x),
    decreases x,
{
    MatchExpr { span: x.span, disc: Box::new(clone_expr(&*x.disc)), arms: clone_match_arm_vec(&x.arms) }
}

/// A copy of the match arm.
pub fn clone_match_arm(x: &MatchArm) -> (r: MatchArm)
    ensures
        view_match_arm(r) == view_match_arm(*x),
    decreases x,
{
    MatchArm { span: x.span, pat: clone_pattern(&x.pat), body: Box::new(clone_stmt(&*x.body)) }
}

/// A copy of the spawn expr.
pub fn clone_spawn_expr(x: &SpawnExpr) -> (r: SpawnExpr)
    ensures
        view_spawn_expr(r) == view_spawn_expr(*x),
    decreases x,
{
    SpawnExpr { span: x.span, callee: Box::new(clone_expr(&*x.callee)), args: clone_expr_vec(&x.args) }
}

/// A copy of the zig escape expr.
pub fn clone_zig_escape_expr(x: &ZigEscapeExpr) -> (r: ZigEscapeExpr)
    ensures
        view_zig_escape_expr(r) == view_zig_escape_expr(*x),
    decreases x,
{
    ZigEscapeExpr { span: x.span, code: x.code.clone() }
}

/// A copy of the object field.
pub fn clone_object_field(x: &ObjectField) -> (r: ObjectField)
    ensures
        view_object_field(r) == view_object_field(*x),
    decreases x,
{
    ObjectField { key: clone_ident(&x.key), val: clone_expr(&x.val) }
}

/// A copy of the enum init expr.
pub fn clone_enum_init_expr(x: &EnumInitExpr) -> (r: EnumInitExpr)
    ensures
        view_enum_init_expr(r) == view_enum_init_expr(*x),
    decreases x,
{
    EnumInitExpr { span: x.span, enum_name: clone_ident(&x.enum_name), variant_name: clone_ident(&x.variant_name), fields: match &x.fields { Some(y) => Some(clone_enum_init_field_vec(y)), None => None } }
}

/// A copy of the enum init field.
pub fn clone_enum_init_field(x: &EnumInitField) -> (r: EnumInitField)
    ensures
        view_enum_init_field(r) == view_enum_init_field(*x),
    decreases x,
{
    EnumInitField { key: clone_ident(&x.key), val: clone_expr(&x.val) }
}

/// A copy of the builtin call.
pub fn clone_builtin_call(x: &BuiltinCall) -> (r: BuiltinCall)
    ensures
        view_builtin_call(r) == view_builtin_call(*x),
    decreases x,
{
    BuiltinCall { span: x.span, name: x.name.clone(), args: clone_expr_vec(&x.args) }
}

/// A copy of the type.
pub fn clone_type(x: &Type) -> (r: Type)
    ensures
        view_type(r) == view_type(*x),
    decreases x,
{
    match x {
        Type::I32 => Type::I32,
        Type::U32 => Type::U32,
        Type::U64 => Type::U64,
        Type::F32 => Type::F32,
        Type::F64 => Type::F64,
        Type::USize => Type::USize,
        Type::Bool => Type::Bool,
        Type::String => Type::String,
        Type::Void => Type::Void,
        Type::Any => Type::Any,
        Type::PID => Type::PID,
        Type::Unknown => Type::Unknown,
        Type::Array(a0) => Type::Array(Box::new(clone_type(&**a0))),
        Type::MapOf(a0, a1) => Type::MapOf(Box::new(clone_type(&**a0)), Box::new(clone_type(&**a1))),
        Type::Tuple(a0) => Type::Tuple(clone_type_vec(a0)),
        Type::Object(a0) => Type::Object(clone_field_vec(a0)),
        Type::Ref(a0) => Type::Ref(clone_ident(a0)),
        Type::Fn(a0, a1) => Type::Fn(clone_type_vec(a0), Box::new(clone_type(&**a1))),
        Type::ErrorUnion(a0) => Type::ErrorUnion(Box::new(clone_type(&**a0))),
        Type::Optional(a0) => Type::Optional(Box::new(clone_type(&**a0))),
    }
}

/// A copy of the param.
pub fn clone_param(x: &Param) -> (r: Param)
    ensures
        view_param(r) == view_param(*x),
    decreases x,
{
    Param { span: x.span, ident: clone_ident(&x.ident), ty: clone_type(&x.ty), is_comptime: x.is_comptime }
}

/// A copy of the field.
pub fn clone_field(x: &Field) -> (r: Field)
    ensures
        view_field(r) == view_field(*x),
    decreases x,
{
    Field { span: x.span, ident: clone_ident(&x.ident), ty: clone_type(&x.ty) }
}

/// A copy of the method sig.
pub fn clone_method_sig(x: &MethodSig) -> (r: MethodSig)
    ensures
        view_method_sig(r) == view_method_sig(*x),
    decreases x,
{
    MethodSig { span: x.span, ident: clone_ident(&x.ident), params: clone_param_vec(&x.params), return_type: match &x.return_type { Some(y) => Some(clone_type(y)), None => None } }
}

/// A copy of each element, in order.
pub fn clone_enum_init_field_vec(v: &Vec<EnumInitField>) -> (r: Vec<EnumInitField>)
    ensures
        view_enum_init_field_seq(r@) == view_enum_init_field_seq(v@),
    decreases v,
{
    let mut r: Vec<EnumInitField> = Vec::new();
    let mut i: usize = 0;
    while i < v.len()
        invariant
            i <= v@.len(),
            view_enum_init_field_seq(r@) == view_enum_init_field_seq(v@.subrange(0, i as int)),
        decreases v@.len() - i,
    {
        let e = clone_enum_init_field(&v[i]);
        proof {
            lemma_view_enum_init_field_seq_push(r@, e);
            lemma_view_enum_init_field_seq_push(v@.subrange(0, i as int), v@[i as int]);
            assert(v@.subrange(0, i + 1) =~= v@.subrange(0, i as int).push(v@[i as int]));
        }
        r.push(e);
        i = i + 1;
    }
    assert(v@.subrange(0, v@.len() as int) =~= v@);
    r
}

/// A copy of each element, in order.
pub fn clone_enum_variant_vec(v: &Vec<EnumVariant>) -> (r: Vec<EnumVariant>)
    ensures
        view_enum_variant_seq(r@) == view_enum_variant_seq(v@),
    decreases v,
{
    let mut r: Vec<EnumVariant> = Vec::new();
    let mut i: usize = 0;
    while i < v.len()
        invariant
            i <= v@.len(),
            view_enum_variant_seq(r@) == view_enum_variant_seq(v@.subrange(0, i as int)),
        decreases v@.len() - i,
    {
        let e = clone_enum_variant(&v[i]);
        proof {
            lemma_view_enum_variant_seq_push(r@, e);
            lemma_view_enum_variant_seq_push(v@.subrange(0, i as int), v@[i as int]);
            assert(v@.subrange(0, i + 1) =~= v@.subrange(0, i as int).push(v@[i as int]));
        }
        r.push(e);
        i = i + 1;
    }
    assert(v@.subrange(0, v@.len() as int) =~= v@);
    r
}

/// A copy of each element, in order.
pub fn clone_expr_vec(v: &Vec<Expr>) -> (r: Vec<Expr>)
    ensures
        view_expr_seq(r@) == view_expr_seq(v@),
    decreases v,
{
    let mut r: Vec<Expr> = Vec::new();
    let mut i: usize = 0;
    while i < v.len()
        invariant
            i <= v@.len(),
            view_expr_seq(r@) == view_expr_seq(v@.subrange(0, i as int)),
        decreases v@.len() - i,
    {
        let e = clone_expr(&v[i]);
        proof {
            lemma_view_expr_seq_push(r@, e);
            lemma_view_expr_seq_push(v@.subrange(0, i as int), v@[i as int]);
            assert(v@.subrange(0, i + 1) =~= v@.subrange(0, i as int).push(v@[i as int]));
        }
        r.push(e);
        i = i + 1;
    }
    assert(v@.subrange(0, v@.len() as int) =~= v@);
    r
}

/// A copy of each element, in order.
pub fn clone_field_vec(v: &Vec<Field>) -> (r: Vec<Field>)
    ensures
        view_field_seq(r@) == view_field_seq(v@),
    decreases v,
{
    let mut r: Vec<Field> = Vec::new();
    let mut i: usize = 0;
    while i < v.len()
        invariant
            i <= v@.len(),
            view_field_seq(r@) == view_field_seq(v@.subrange(0, i as int)),
        decreases v@.len() - i,
    {
        let e = clone_field(&v[i]);
        proof {
            lemma_view_field_seq_push(r@, e);
            lemma_view_field_seq_push(v@.subrange(0, i as int), v@[i as int]);
            assert(v@.subrange(0, i + 1) =~= v@.subrange(0, i as int).push(v@[i as int]));
        }
        r.push(e);
        i = i + 1;
    }
    assert(v@.subrange(0, v@.len() as int) =~= v@);
    r
}

/// A copy of each element, in order.
pub fn clone_function_vec(v: &Vec<Function>) -> (r: Vec<Function>)
    ensures
        view_function_seq(r@) == view_function_seq(v@),
    decreases v,
{
    let mut r: Vec<Function> = Vec::new();
    let mut i: usize = 0;
    while i < v.len()
        invariant
            i <= v@.len(),
            view_function_seq(r@) == view_function_seq(v@.subrange(0, i as int)),
        decreases v@.len() - i,
    {
        let e = clone_function(&v[i]);
        proof {
            lemma_view_function_seq_push(r@, e);
            lemma_view_function_seq_push(v@.subrange(0, i as int), v@[i as int]);
            assert(v@.subrange(0, i + 1) =~= v@.subrange(0, i as int).push(v@[i as int]));
        }
        r.push(e);
        i = i + 1;
    }
    assert(v@.subrange(0, v@.len() as int) =~= v@);
    r
}

/// A copy of each element, in order.
pub fn clone_ident_vec(v: &Vec<Ident>) -> (r: Vec<Ident>)
    ensures
        view_ident_seq(r@) == view_ident_seq(v@),
    decreases v,
{
    let mut r: Vec<Ident> = Vec::new();
    let mut i: usize = 0;
    while i < v.len()
        invariant
            i <= v@.len(),
            view_ident_seq(r@) == view_ident_seq(v@.subrange(0, i as int)),
        decreases v@.len() - i,
    {
        let e = clone_ident(&v[i]);
        proof {
            lemma_view_ident_seq_push(r@, e);
            lemma_view_ident_seq_push(v@.subrange(0, i as int), v@[i as int]);
            assert(v@.subrange(0, i + 1) =~= v@.subrange(0, i as int).push(v@[i as int]));
        }
        r.push(e);
        i = i + 1;
    }
    assert(v@.subrange(0, v@.len() as int) =~= v@);
    r
}

/// A copy of each element, in order.
pub fn clone_match_arm_vec(v: &Vec<MatchArm>) -> (r: Vec<MatchArm>)
    ensures
        view_match_arm_seq(r@) == view_match_arm_seq(v@),
    decreases v,
{
    let mut r: Vec<MatchArm> = Vec::new();
    let mut i: usize = 0;
    while i < v.len()
        invariant
            i <= v@.len(),
            view_match_arm_seq(r@) == view_match_arm_seq(v@.subrange(0, i as int)),
        decreases v@.len() - i,
    {
        let e = clone_match_arm(&v[i]);
        proof {
            lemma_view_match_arm_seq_push(r@, e);
            lemma_view_match_arm_seq_push(v@.subrange(0, i as int), v@[i as int]);
            assert(v@.subrange(0, i + 1) =~= v@.subrange(0, i as int).push(v@[i as int]));
        }
        r.push(e);
        i = i + 1;
    }
    assert(v@.subrange(0, v@.len() as int) =~= v@);
    r
}

/// A copy of each element, in order.
pub fn clone_method_sig_vec(v: &Vec<MethodSig>) -> (r: Vec<MethodSig>)
    ensures
        view_method_sig_seq(r@) == view_method_sig_seq(v@),
    decreases v,
{
    let mut r: Vec<MethodSig> = Vec::new();
    let mut i: usize = 0;
    while i < v.len()
        invariant
            i <= v@.len(),
            view_method_sig_seq(r@) == view_method_sig_seq(v@.subrange(0, i as int)),
        decreases v@.len() - i,
    {
        let e = clone_method_sig(&v[i]);
        proof {
            lemma_view_method_sig_seq_push(r@, e);
            lemma_view_method_sig_seq_push(v@.subrange(0, i as int), v@[i as int]);
            assert(v@.subrange(0, i + 1) =~= v@.subrange(0, i as int).push(v@[i as int]));
        }
        r.push(e);
        i = i + 1;
    }
    assert(v@.subrange(0, v@.len() as int) =~= v@);
    r
}

/// A copy of each element, in order.
pub fn clone_object_field_vec(v: &Vec<ObjectField>) -> (r: Vec<ObjectField>)
    ensures
        view_object_field_seq(r@) == view_object_field_seq(v@),
    decreases v,
{
    let mut r: Vec<ObjectField> = Vec::new();
    let mut i: usize = 0;
    while i < v.len()
        invariant
            i <= v@.len(),
            view_object_field_seq(r@) == view_object_field_seq(v@.subrange(0, i as int)),
        decreases v@.len() - i,
    {
        let e = clone_object_field(&v[i]);
        proof {
            lemma_view_object_field_seq_push(r@, e);
            lemma_view_object_field_seq_push(v@.subrange(0, i as int), v@[i as int]);
            assert(v@.subrange(0, i + 1) =~= v@.subrange(0, i as int).push(v@[i as int]));
        }
        r.push(e);
        i = i + 1;
    }
    assert(v@.subrange(0, v@.len() as int) =~= v@);
    r
}

/// A copy of each element, in order.
pub fn clone_object_pat_prop_vec(v: &Vec<ObjectPatProp>) -> (r: Vec<ObjectPatProp>)
    ensures
        view_object_pat_prop_seq(r@) == view_object_pat_prop_seq(v@),
    decreases v,
{
    let mut r: Vec<ObjectPatProp> = Vec::new();
    let mut i: usize = 0;
    while i < v.len()
        invariant
            i <= v@.len(),
            view_object_pat_prop_seq(r@) == view_object_pat_prop_seq(v@.subrange(0, i as int)),
        decreases v@.len() - i,
    {
        let e = clone_object_pat_prop(&v[i]);
        proof {
            lemma_view_object_pat_prop_seq_push(r@, e);
            lemma_view_object_pat_prop_seq_push(v@.subrange(0, i as int), v@[i as int]);
            assert(v@.subrange(0, i + 1) =~= v@.subrange(0, i as int).push(v@[i as int]));
        }
        r.push(e);
        i = i + 1;
    }
    assert(v@.subrange(0, v@.len() as int) =~= v@);
    r
}

/// A copy of each element, in order.
pub fn clone_param_vec(v: &Vec<Param>) -> (r: Vec<Param>)
    ensures
        view_param_seq(r@) == view_param_seq(v@),
    decreases v,
{
    let mut r: Vec<Param> = Vec::new();
    let mut i: usize = 0;
    while i < v.len()
        invariant
            i <= v@.len(),
            view_param_seq(r@) == view_param_seq(v@.subrange(0, i as int)),
        decreases v@.len() - i,
    {
        let e = clone_param(&v[i]);
        proof {
            lemma_view_param_seq_push(r@, e);
            lemma_view_param_seq_push(v@.subrange(0, i as int), v@[i as int]);
            assert(v@.subrange(0, i + 1) =~= v@.subrange(0, i as int).push(v@[i as int]));
        }
        r.push(e);
        i = i + 1;
    }
    assert(v@.subrange(0, v@.len() as int) =~= v@);
    r
}

/// A copy of each element, in order.
pub fn clone_pattern_vec(v: &Vec<Pattern>) -> (r: Vec<Pattern>)
    ensures
        view_pattern_seq(r@) == view_pattern_seq(v@),
    decreases v,
{
    let mut r: Vec<Pattern> = Vec::new();
    let mut i: usize = 0;
    while i < v.len()
        invariant
            i <= v@.len(),
            view_pattern_seq(r@) == view_pattern_seq(v@.subrange(0, i as int)),
        decreases v@.len() - i,
    {
        let e = clone_pattern(&v[i]);
        proof {
            lemma_view_pattern_seq_push(r@, e);
            lemma_view_pattern_seq_push(v@.subrange(0, i as int), v@[i as int]);
            assert(v@.subrange(0, i + 1) =~= v@.subrange(0, i as int).push(v@[i as int]));
        }
        r.push(e);
        i = i + 1;
    }
    assert(v@.subrange(0, v@.len() as int) =~= v@);
    r
}

/// A copy of each element, in order.
pub fn clone_stmt_vec(v: &Vec<Stmt>) -> (r: Vec<Stmt>)
    ensures
        view_stmt_seq(r@) == view_stmt_seq(v@),
    decreases v,
{
    let mut r: Vec<Stmt> = Vec::new();
    let mut i: usize = 0;
    while i < v.len()
        invariant
            i <= v@.len(),
            view_stmt_seq(r@) == view_stmt_seq(v@.subrange(0, i as int)),
        decreases v@.len() - i,
    {
        let e = clone_stmt(&v[i]);
        proof {
            lemma_view_stmt_seq_push(r@, e);
            lemma_view_stmt_seq_push(v@.subrange(0, i as int), v@[i as int]);
            assert(v@.subrange(0, i + 1) =~= v@.subrange(0, i as int).push(v@[i as int]));
        }
        r.push(e);
        i = i + 1;
    }
    assert(v@.subrange(0, v@.len() as int) =~= v@);
    r
}

/// A copy of each element, in order.
pub fn clone_string_vec(v: &Vec<std::string::String>) -> (r: Vec<std::string::String>)
    ensures
        view_string_seq(r@) == view_string_seq(v@),
    decreases v,
{
    let mut r: Vec<std::string::String> = Vec::new();
    let mut i: usize = 0;
    while i < v.len()
        invariant
            i <= v@.len(),
            view_string_seq(r@) == view_string_seq(v@.subrange(0, i as int)),
        decreases v@.len() - i,
    {
        let e = v[i].clone();
        proof {
            lemma_view_string_seq_push(r@, e);
            lemma_view_string_seq_push(v@.subrange(0, i as int), v@[i as int]);
            assert(v@.subrange(0, i + 1) =~= v@.subrange(0, i as int).push(v@[i as int]));
        }
        r.push(e);
        i = i + 1;
    }
    assert(v@.subrange(0, v@.len() as int) =~= v@);
    r
}

/// A copy of each element, in order.
pub fn clone_type_vec(v: &Vec<Type>) -> (r: Vec<Type>)
    ensures
        view_type_seq(r@) == view_type_seq(v@),
    decreases v,
{
    let mut r: Vec<Type> = Vec::new();
    let mut i: usize = 0;
    while i < v.len()
        invariant
            i <= v@.len(),
            view_type_seq(r@) == view_type_seq(v@.subrange(0, i as int)),
        decreases v@.len() - i,
    {
        let e = clone_type(&v[i]);
        proof {
            lemma_view_type_seq_push(r@, e);
            lemma_view_type_seq_push(v@.subrange(0, i as int), v@[i as int]);
            assert(v@.subrange(0, i + 1) =~= v@.subrange(0, i as int).push(v@[i as int]));
        }
        r.push(e);
        i = i + 1;
    }
    assert(v@.subrange(0, v@.len() as int) =~= v@);
    r
}

} // verus!

//! Emits the `.d.cp` type definitions of a module: its imports and the
//! signatures of what it declares, without bodies.
use vstd::prelude::*;
use crate::text::{push_char, push_str, string_eq_str, string_of_lit};
use crate::ast::{Module, ModuleItem, ImportStmt, Decl, Function, Class, TraitDecl, Interface, EnumDecl, EnumVariant, ErrorSetDecl, Expr, Lit, Ident, Type, Param, Field, MethodSig};
use crate::ast::{SModule, SModuleItem, SImportStmt, SDecl, SFunction, SClass, STraitDecl, SInterface, SEnumDecl, SEnumVariant, SErrorSetDecl, SExpr, SLit, SIdent, SType, SParam, SField, SMethodSig};
use crate::ast::{view_module, view_module_item, view_import_stmt, view_decl, view_function, view_class, view_trait_decl, view_interface, view_enum_decl, view_enum_variant, view_error_set_decl, view_ident, view_type, view_param, view_field, view_method_sig};
use crate::ast::{view_module_item_seq, view_ident_seq, view_type_seq, view_field_seq, view_param_seq, view_function_seq, view_method_sig_seq, view_enum_variant_seq};
use crate::ast::{lemma_view_module_item_seq_index, lemma_view_ident_seq_index, lemma_view_type_seq_index, lemma_view_field_seq_index, lemma_view_param_seq_index, lemma_view_function_seq_index, lemma_view_method_sig_seq_index, lemma_view_enum_variant_seq_index};

verus! {

// ------------------------------------------------------------------
// The text, as spec functions
// ------------------------------------------------------------------

/// `sep` after every part but the last.
pub open spec fn sep_after(len: int, i: int, sep: Seq<char>) -> Seq<char> {
    if i < len - 1 { sep } else { Seq::empty() }
}

/// The decimal digit `d`.
pub open spec fn digit_char(d: nat) -> char {
    if d == 0 { '0' } else if d == 1 { '1' } else if d == 2 { '2' } else if d == 3 { '3' }
    else if d == 4 { '4' } else if d == 5 { '5' } else if d == 6 { '6' } else if d == 7 { '7' }
    else if d == 8 { '8' } else { '9' }
}

/// The decimal digits of `n`, most significant first.
pub open spec fn nat_text(n: nat) -> Seq<char>
    decreases n,
{
    if n < 10 { seq![digit_char(n)] } else { nat_text(n / 10).push(digit_char(n % 10)) }
}

/// `n` in decimal, with a leading `-` when negative.
pub open spec fn int_text(n: int) -> Seq<char> {
    if n < 0 { seq!['-'] + nat_text((-n) as nat) } else { nat_text(n as nat) }
}

/// A type as it is written in type definitions.
pub open spec fn type_text(t: SType) -> Seq<char>
    decreases t, 0nat,
{
    match t {
        SType::I32 => "i32"@,
        SType::U32 => "u32"@,
        SType::U64 => "u64"@,
        SType::F32 => "f32"@,
        SType::F64 => "f64"@,
        SType::USize => "usize"@,
        SType::Bool => "bool"@,
        SType::String => "string"@,
        SType::Void => "void"@,
        SType::Any => "any"@,
        SType::PID => "PID"@,
        SType::Unknown => "unknown"@,
        SType::Array(inner) => "[]"@ + type_text(*inner),
        SType::MapOf(k, v) => "Map<"@ + type_text(*k) + ", "@ + type_text(*v) + ">"@,
        SType::Tuple(elems) => "["@ + type_list_text(elems, 0) + "]"@,
        SType::Object(fields) => "{ "@ + field_list_text(fields, 0) + " }"@,
        SType::Ref(id) => id.sym,
        SType::Fn(params, ret) => "("@ + type_list_text(params, 0) + ") => "@ + type_text(*ret),
        SType::ErrorUnion(inner) => "!"@ + type_text(*inner),
        SType::Optional(inner) => "?"@ + type_text(*inner),
    }
}

/// The types from index `i` on, separated by `, `.
pub open spec fn type_list_text(ts: Seq<SType>, i: int) -> Seq<char>
    decreases ts, ts.len() - i,
{
    if i < 0 || i >= ts.len() {
        Seq::empty()
    } else {
        type_text(ts[i]) + sep_after(ts.len() as int, i, ", "@) + type_list_text(ts, i + 1)
    }
}

/// `name: type` for the fields from index `i` on, separated by `, `.
pub open spec fn field_list_text(fs: Seq<SField>, i: int) -> Seq<char>
    decreases fs, fs.len() - i,
{
    if i < 0 || i >= fs.len() {
        Seq::empty()
    } else {
        fs[i].ident.sym + ": "@ + type_text(fs[i].ty) + sep_after(fs.len() as int, i, ", "@)
            + field_list_text(fs, i + 1)
    }
}

/// The names from index `i` on, separated by `, `.
pub open spec fn name_list_text(ids: Seq<SIdent>, i: int) -> Seq<char>
    decreases ids.len() - i,
{
    if i < 0 || i >= ids.len() {
        Seq::empty()
    } else {
        ids[i].sym + sep_after(ids.len() as int, i, ", "@) + name_list_text(ids, i + 1)
    }
}

/// The parameters from index `i` on, separated by `, `.
pub open spec fn params_text(ps: Seq<SParam>, i: int) -> Seq<char>
    decreases ps.len() - i,
{
    if i < 0 || i >= ps.len() {
        Seq::empty()
    } else {
        (if ps[i].is_comptime { "comptime "@ } else { Seq::empty() }) + ps[i].ident.sym + ": "@
            + type_text(ps[i].ty) + sep_after(ps.len() as int, i, ", "@) + params_text(ps, i + 1)
    }
}

pub open spec fn import_text(imp: SImportStmt) -> Seq<char> {
    "import { "@ + name_list_text(imp.specifiers, 0) + " } from \""@ + imp.source + "\";\n"@
}

/// `: type` when there is a return type.
pub open spec fn return_text(ret: Option<SType>) -> Seq<char> {
    match ret {
        Some(t) => ": "@ + type_text(t),
        None => Seq::empty(),
    }
}

/// The signature of a function, ending in `;` and a newline.
pub open spec fn function_text(f: SFunction) -> Seq<char> {
    (if f.is_async { "async "@ } else { Seq::empty() }) + "fn "@ + f.ident.sym + "("@
        + params_text(f.params, 0) + ")"@ + return_text(f.return_type) + ";\n"@
}

/// A method signature of a trait or interface, indented.
pub open spec fn method_sig_text(m: SMethodSig) -> Seq<char> {
    "    fn "@ + m.ident.sym + "("@ + params_text(m.params, 0) + ")"@ + return_text(m.return_type) + ";\n"@
}

pub open spec fn method_sigs_text(ms: Seq<SMethodSig>, i: int) -> Seq<char>
    decreases ms.len() - i,
{
    if i < 0 || i >= ms.len() { Seq::empty() } else { method_sig_text(ms[i]) + method_sigs_text(ms, i + 1) }
}

/// The fields of a class, one per line.
pub open spec fn class_fields_text(fs: Seq<SField>, i: int) -> Seq<char>
    decreases fs.len() - i,
{
    if i < 0 || i >= fs.len() {
        Seq::empty()
    } else {
        "    "@ + fs[i].ident.sym + ": "@ + type_text(fs[i].ty) + ",\n"@ + class_fields_text(fs, i + 1)
    }
}

/// The method signatures of a class, indented.
pub open spec fn class_methods_text(ms: Seq<SFunction>, i: int) -> Seq<char>
    decreases ms.len() - i,
{
    if i < 0 || i >= ms.len() { Seq::empty() } else { "    "@ + function_text(ms[i]) + class_methods_text(ms, i + 1) }
}

pub open spec fn class_text(c: SClass) -> Seq<char> {
    "export class "@ + c.ident.sym + " "@
        + (if c.implements.len() > 0 { "implements "@ + name_list_text(c.implements, 0) + " "@ } else { Seq::empty() })
        + "{\n"@ + class_fields_text(c.fields, 0) + class_methods_text(c.methods, 0) + "}\n\n"@
}

/// ` = n` for a variant whose value is an integer literal.
pub open spec fn variant_value_text(v: Option<SExpr>) -> Seq<char> {
    match v {
        Some(SExpr::Lit(SLit::Int(n))) => " = "@ + int_text(n as int),
        _ => Seq::empty(),
    }
}

pub open spec fn variant_text(v: SEnumVariant, last: bool) -> Seq<char> {
    "    "@ + v.ident.sym + variant_value_text(v.value)
        + (match v.fields {
            Some(fs) => " { "@ + field_list_text(fs, 0) + " }"@,
            None => Seq::empty(),
        })
        + (if last { "\n"@ } else { ",\n"@ })
}

pub open spec fn variants_text(vs: Seq<SEnumVariant>, i: int) -> Seq<char>
    decreases vs.len() - i,
{
    if i < 0 || i >= vs.len() {
        Seq::empty()
    } else {
        variant_text(vs[i], i == vs.len() - 1) + variants_text(vs, i + 1)
    }
}

/// The type definitions a declaration contributes (none for `main` and impls).
pub open spec fn decl_text(d: SDecl) -> Seq<char> {
    match d {
        SDecl::Func(f) => if f.ident.sym != "main"@ { "export "@ + function_text(f) } else { Seq::empty() },
        SDecl::Class(c) => class_text(c),
        SDecl::Trait(t) => "export trait "@ + t.ident.sym + " {\n"@ + method_sigs_text(t.methods, 0) + "}\n\n"@,
        SDecl::Interface(i) => "export interface "@ + i.ident.sym + " {\n"@ + method_sigs_text(i.methods, 0) + "}\n\n"@,
        SDecl::Enum(e) => "export enum "@ + e.ident.sym + " {\n"@ + variants_text(e.variants, 0) + "}\n\n"@,
        SDecl::ErrorSet(e) => "export error "@ + e.ident.sym + " { "@ + name_list_text(e.variants, 0) + " }\n\n"@,
        SDecl::Impl(_) => Seq::empty(),
    }
}

pub open spec fn item_text(it: SModuleItem) -> Seq<char> {
    match it {
        SModuleItem::Decl(d) => decl_text(d),
        SModuleItem::Import(imp) => import_text(imp),
        SModuleItem::Stmt(_) => Seq::empty(),
    }
}

pub open spec fn items_text(items: Seq<SModuleItem>, i: int) -> Seq<char>
    decreases items.len() - i,
{
    if i < 0 || i >= items.len() { Seq::empty() } else { item_text(items[i]) + items_text(items, i + 1) }
}

/// The type definitions of a module.
pub open spec fn module_text(m: SModule) -> Seq<char> {
    "// Type definitions for CP\n\n"@ + items_text(m.body, 0)
}

// ------------------------------------------------------------------
// Laws of the text
// ------------------------------------------------------------------

proof fn lemma_class_fields_shift(a: Seq<SField>, b: Seq<SField>, j: int)
    requires
        0 <= j <= b.len(),
    ensures
        class_fields_text(a + b, a.len() + j) == class_fields_text(b, j),
    decreases b.len() - j,
{
    if j < b.len() {
        lemma_class_fields_shift(a, b, j + 1);
        assert((a + b)[a.len() + j] == b[j]);
    }
}

proof fn lemma_class_fields_concat(a: Seq<SField>, b: Seq<SField>, i: int)
    requires
        0 <= i <= a.len(),
    ensures
        class_fields_text(a + b, i) == class_fields_text(a, i) + class_fields_text(b, 0),
    decreases a.len() - i,
{
    if i < a.len() {
        lemma_class_fields_concat(a, b, i + 1);
        assert((a + b)[i] == a[i]);
        assert(class_fields_text(a + b, i) =~= class_fields_text(a, i) + class_fields_text(b, 0));
    } else {
        lemma_class_fields_shift(a, b, 0);
        assert(class_fields_text(a, i) =~= Seq::<char>::empty());
        assert(class_fields_text(a + b, i) =~= class_fields_text(a, i) + class_fields_text(b, 0));
    }
}

proof fn lemma_methods_shift(a: Seq<SFunction>, b: Seq<SFunction>, j: int)
    requires
        0 <= j <= b.len(),
    ensures
        class_methods_text(a + b, a.len() + j) == class_methods_text(b, j),
    decreases b.len() - j,
{
    if j < b.len() {
        lemma_methods_shift(a, b, j + 1);
        assert((a + b)[a.len() + j] == b[j]);
    }
}

proof fn lemma_methods_concat(a: Seq<SFunction>, b: Seq<SFunction>, i: int)
    requires
        0 <= i <= a.len(),
    ensures
        class_methods_text(a + b, i) == class_methods_text(a, i) + class_methods_text(b, 0),
    decreases a.len() - i,
{
    if i < a.len() {
        lemma_methods_concat(a, b, i + 1);
        assert((a + b)[i] == a[i]);
        assert(class_methods_text(a + b, i) =~= class_methods_text(a, i) + class_methods_text(b, 0));
    } else {
        lemma_methods_shift(a, b, 0);
        assert(class_methods_text(a, i) =~= Seq::<char>::empty());
        assert(class_methods_text(a + b, i) =~= class_methods_text(a, i) + class_methods_text(b, 0));
    }
}

proof fn lemma_sigs_shift(a: Seq<SMethodSig>, b: Seq<SMethodSig>, j: int)
    requires
        0 <= j <= b.len(),
    ensures
        method_sigs_text(a + b, a.len() + j) == method_sigs_text(b, j),
    decreases b.len() - j,
{
    if j < b.len() {
        lemma_sigs_shift(a, b, j + 1);
        assert((a + b)[a.len() + j] == b[j]);
    }
}

proof fn lemma_sigs_concat(a: Seq<SMethodSig>, b: Seq<SMethodSig>, i: int)
    requires
        0 <= i <= a.len(),
    ensures
        method_sigs_text(a + b, i) == method_sigs_text(a, i) + method_sigs_text(b, 0),
    decreases a.len() - i,
{
    if i < a.len() {
        lemma_sigs_concat(a, b, i + 1);
        assert((a + b)[i] == a[i]);
        assert(method_sigs_text(a + b, i) =~= method_sigs_text(a, i) + method_sigs_text(b, 0));
    } else {
        lemma_sigs_shift(a, b, 0);
        assert(method_sigs_text(a, i) =~= Seq::<char>::empty());
        assert(method_sigs_text(a + b, i) =~= method_sigs_text(a, i) + method_sigs_text(b, 0));
    }
}

proof fn lemma_items_shift(a: Seq<SModuleItem>, b: Seq<SModuleItem>, j: int)
    requires
        0 <= j <= b.len(),
    ensures
        items_text(a + b, a.len() + j) == items_text(b, j),
    decreases b.len() - j,
{
    if j < b.len() {
        lemma_items_shift(a, b, j + 1);
        assert((a + b)[a.len() + j] == b[j]);
    }
}

proof fn lemma_items_concat(a: Seq<SModuleItem>, b: Seq<SModuleItem>, i: int)
    requires
        0 <= i <= a.len(),
    ensures
        items_text(a + b, i) == items_text(a, i) + items_text(b, 0),
    decreases a.len() - i,
{
    if i < a.len() {
        lemma_items_concat(a, b, i + 1);
        assert((a + b)[i] == a[i]);
        assert(items_text(a + b, i) =~= items_text(a, i) + items_text(b, 0));
    } else {
        lemma_items_shift(a, b, 0);
        assert(items_text(a, i) =~= Seq::<char>::empty());
        assert(items_text(a + b, i) =~= items_text(a, i) + items_text(b, 0));
    }
}

/// Nothing is dropped or reordered: the type definitions of the items `a` then `b`
/// are those of `a` followed by those of `b`, and likewise for the methods of a class
/// and the signatures of a trait or interface; one item gives its own text, and
/// one method its indented signature.
pub proof fn law_texts_concatenate(
    a: Seq<SModuleItem>, b: Seq<SModuleItem>, it: SModuleItem,
    ma: Seq<SFunction>, mb: Seq<SFunction>, f: SFunction,
    sa: Seq<SMethodSig>, sb: Seq<SMethodSig>,
)
    ensures
        items_text(a + b, 0) == items_text(a, 0) + items_text(b, 0),
        items_text(seq![it], 0) == item_text(it),
        class_methods_text(ma + mb, 0) == class_methods_text(ma, 0) + class_methods_text(mb, 0),
        class_methods_text(seq![f], 0) == seq![' ', ' ', ' ', ' '] + function_text(f),
        method_sigs_text(sa + sb, 0) == method_sigs_text(sa, 0) + method_sigs_text(sb, 0),
{
    lemma_items_concat(a, b, 0);
    lemma_methods_concat(ma, mb, 0);
    lemma_sigs_concat(sa, sb, 0);
    reveal_strlit("    ");
    assert(items_text(seq![it], 1) =~= Seq::<char>::empty());
    assert(items_text(seq![it], 0) =~= item_text(it));
    assert(class_methods_text(seq![f], 1) =~= Seq::<char>::empty());
    assert(class_methods_text(seq![f], 0) =~= seq![' ', ' ', ' ', ' '] + function_text(f));
}

proof fn lemma_names_shift(a: Seq<SIdent>, b: Seq<SIdent>, j: int)
    requires
        0 <= j <= b.len(),
    ensures
        name_list_text(a + b, a.len() + j) == name_list_text(b, j),
    decreases b.len() - j,
{
    if j < b.len() {
        lemma_names_shift(a, b, j + 1);
        assert((a + b)[a.len() + j] == b[j]);
        assert(name_list_text(a + b, a.len() + j) =~= name_list_text(b, j));
    }
}

proof fn lemma_names_concat(a: Seq<SIdent>, b: Seq<SIdent>, i: int)
    requires
        0 <= i < a.len(),
        b.len() > 0,
    ensures
        name_list_text(a + b, i) == name_list_text(a, i) + ", "@ + name_list_text(b, 0),
    decreases a.len() - i,
{
    reveal_strlit(", ");
    assert((a + b)[i] == a[i]);
    if i < a.len() - 1 {
        lemma_names_concat(a, b, i + 1);
        assert(name_list_text(a + b, i) =~= name_list_text(a, i) + ", "@ + name_list_text(b, 0));
    } else {
        lemma_names_shift(a, b, 0);
        assert(name_list_text(a, i + 1) =~= Seq::<char>::empty());
        assert(name_list_text(a + b, i) =~= name_list_text(a, i) + ", "@ + name_list_text(b, 0));
    }
}

proof fn lemma_types_shift(a: Seq<SType>, b: Seq<SType>, j: int)
    requires
        0 <= j <= b.len(),
    ensures
        type_list_text(a + b, a.len() + j) == type_list_text(b, j),
    decreases b.len() - j,
{
    if j < b.len() {
        lemma_types_shift(a, b, j + 1);
        assert((a + b)[a.len() + j] == b[j]);
        assert(type_list_text(a + b, a.len() + j) =~= type_list_text(b, j));
    }
}

proof fn lemma_types_concat(a: Seq<SType>, b: Seq<SType>, i: int)
    requires
        0 <= i < a.len(),
        b.len() > 0,
    ensures
        type_list_text(a + b, i) == type_list_text(a, i) + ", "@ + type_list_text(b, 0),
    decreases a.len() - i,
{
    reveal_strlit(", ");
    assert((a + b)[i] == a[i]);
    if i < a.len() - 1 {
        lemma_types_concat(a, b, i + 1);
        assert(type_list_text(a + b, i) =~= type_list_text(a, i) + ", "@ + type_list_text(b, 0));
    } else {
        lemma_types_shift(a, b, 0);
        assert(type_list_text(a, i + 1) =~= Seq::<char>::empty());
        assert(type_list_text(a + b, i) =~= type_list_text(a, i) + ", "@ + type_list_text(b, 0));
    }
}

proof fn lemma_fieldlist_shift(a: Seq<SField>, b: Seq<SField>, j: int)
    requires
        0 <= j <= b.len(),
    ensures
        field_list_text(a + b, a.len() + j) == field_list_text(b, j),
    decreases b.len() - j,
{
    if j < b.len() {
        lemma_fieldlist_shift(a, b, j + 1);
        assert((a + b)[a.len() + j] == b[j]);
        assert(field_list_text(a + b, a.len() + j) =~= field_list_text(b, j));
    }
}

proof fn lemma_fieldlist_concat(a: Seq<SField>, b: Seq<SField>, i: int)
    requires
        0 <= i < a.len(),
        b.len() > 0,
    ensures
        field_list_text(a + b, i) == field_list_text(a, i) + ", "@ + field_list_text(b, 0),
    decreases a.len() - i,
{
    reveal_strlit(", ");
    assert((a + b)[i] == a[i]);
    if i < a.len() - 1 {
        lemma_fieldlist_concat(a, b, i + 1);
        assert(field_list_text(a + b, i) =~= field_list_text(a, i) + ", "@ + field_list_text(b, 0));
    } else {
        lemma_fieldlist_shift(a, b, 0);
        assert(field_list_text(a, i + 1) =~= Seq::<char>::empty());
        assert(field_list_text(a + b, i) =~= field_list_text(a, i) + ", "@ + field_list_text(b, 0));
    }
}

proof fn lemma_params_shift(a: Seq<SParam>, b: Seq<SParam>, j: int)
    requires
        0 <= j <= b.len(),
    ensures
        params_text(a + b, a.len() + j) == params_text(b, j),
    decreases b.len() - j,
{
    if j < b.len() {
        lemma_params_shift(a, b, j + 1);
        assert((a + b)[a.len() + j] == b[j]);
        assert(params_text(a + b, a.len() + j) =~= params_text(b, j));
    }
}

proof fn lemma_params_concat(a: Seq<SParam>, b: Seq<SParam>, i: int)
    requires
        0 <= i < a.len(),
        b.len() > 0,
    ensures
        params_text(a + b, i) == params_text(a, i) + ", "@ + params_text(b, 0),
    decreases a.len() - i,
{
    reveal_strlit(", ");
    assert((a + b)[i] == a[i]);
    if i < a.len() - 1 {
        lemma_params_concat(a, b, i + 1);
        assert(params_text(a + b, i) =~= params_text(a, i) + ", "@ + params_text(b, 0));
    } else {
        lemma_params_shift(a, b, 0);
        assert(params_text(a, i + 1) =~= Seq::<char>::empty());
        assert(params_text(a + b, i) =~= params_text(a, i) + ", "@ + params_text(b, 0));
    }
}

/// Lists are written in full and in order, separated by `, `: the text of two
/// non-empty runs of names, types, fields or parameters is that of the first, `, `,
/// then that of the second.
pub proof fn law_lists_concatenate(
    na: Seq<SIdent>, nb: Seq<SIdent>, ta: Seq<SType>, tb: Seq<SType>,
    fa: Seq<SField>, fb: Seq<SField>, pa: Seq<SParam>, pb: Seq<SParam>,
)
    ensures
        na.len() > 0 && nb.len() > 0 ==> name_list_text(na + nb, 0) == name_list_text(na, 0) + seq![',', ' '] + name_list_text(nb, 0),
        ta.len() > 0 && tb.len() > 0 ==> type_list_text(ta + tb, 0) == type_list_text(ta, 0) + seq![',', ' '] + type_list_text(tb, 0),
        fa.len() > 0 && fb.len() > 0 ==> field_list_text(fa + fb, 0) == field_list_text(fa, 0) + seq![',', ' '] + field_list_text(fb, 0),
        pa.len() > 0 && pb.len() > 0 ==> params_text(pa + pb, 0) == params_text(pa, 0) + seq![',', ' '] + params_text(pb, 0),
{
    reveal_strlit(", ");
    assert(", "@ =~= seq![',', ' ']);
    if na.len() > 0 && nb.len() > 0 { lemma_names_concat(na, nb, 0); }
    if ta.len() > 0 && tb.len() > 0 { lemma_types_concat(ta, tb, 0); }
    if fa.len() > 0 && fb.len() > 0 { lemma_fieldlist_concat(fa, fb, 0); }
    if pa.len() > 0 && pb.len() > 0 { lemma_params_concat(pa, pb, 0); }
}

/// The fields of a class are written one per line, every one of them and in order:
/// the lines of two runs of fields are the lines of the first followed by those of
/// the second, and one field `name: type` is the line of four spaces, the name,
/// `: `, the type and `,`.
pub proof fn law_class_fields_lines(a: Seq<SField>, b: Seq<SField>, f: SField)
    ensures
        class_fields_text(a + b, 0) == class_fields_text(a, 0) + class_fields_text(b, 0),
        class_fields_text(seq![f], 0)
            == seq![' ', ' ', ' ', ' '] + f.ident.sym + seq![':', ' '] + type_text(f.ty) + seq![',', '\n'],
        class_fields_text(a.push(f), 0).len() > class_fields_text(a, 0).len(),
{
    lemma_class_fields_concat(a, b, 0);
    lemma_class_fields_concat(a, seq![f], 0);
    assert(a.push(f) =~= a + seq![f]);
    reveal_strlit("    ");
    reveal_strlit(": ");
    reveal_strlit(",\n");
    assert(class_fields_text(seq![f], 1) =~= Seq::<char>::empty());
    assert(class_fields_text(seq![f], 0)
        =~= seq![' ', ' ', ' ', ' '] + f.ident.sym + seq![':', ' '] + type_text(f.ty) + seq![',', '\n']);
}

/// The text of a class holds the lines of all its fields, in order, right after
/// its header line.
pub proof fn law_class_text_holds_fields(c: SClass)
    ensures
        ({
            let head = "export class "@ + c.ident.sym + " "@
                + (if c.implements.len() > 0 { "implements "@ + name_list_text(c.implements, 0) + " "@ } else { Seq::empty() })
                + "{\n"@;
            let body = class_fields_text(c.fields, 0);
            &&& class_text(c).subrange(head.len() as int, (head.len() + body.len()) as int) == body
            &&& forall|i: int| 0 <= i < c.fields.len() ==> class_fields_text(c.fields, 0)
                == class_fields_text(c.fields.take(i), 0) + class_fields_text(seq![c.fields[i]], 0)
                    + class_fields_text(c.fields.skip(i + 1), 0)
        }),
{
    let head = "export class "@ + c.ident.sym + " "@
        + (if c.implements.len() > 0 { "implements "@ + name_list_text(c.implements, 0) + " "@ } else { Seq::empty() })
        + "{\n"@;
    let body = class_fields_text(c.fields, 0);
    assert(class_text(c).subrange(head.len() as int, (head.len() + body.len()) as int) =~= body);
    assert forall|i: int| 0 <= i < c.fields.len() implies class_fields_text(c.fields, 0)
        == class_fields_text(c.fields.take(i), 0) + class_fields_text(seq![c.fields[i]], 0)
            + class_fields_text(c.fields.skip(i + 1), 0) by {
        let fs = c.fields;
        assert(fs =~= fs.take(i) + (seq![fs[i]] + fs.skip(i + 1)));
        lemma_class_fields_concat(fs.take(i), seq![fs[i]] + fs.skip(i + 1), 0);
        lemma_class_fields_concat(seq![fs[i]], fs.skip(i + 1), 0);
        assert(class_fields_text(fs.take(i), 0) + (class_fields_text(seq![fs[i]], 0) + class_fields_text(fs.skip(i + 1), 0))
            =~= class_fields_text(fs.take(i), 0) + class_fields_text(seq![fs[i]], 0) + class_fields_text(fs.skip(i + 1), 0));
    }
}

// ------------------------------------------------------------------
// The emitter
// ------------------------------------------------------------------

/// `n` in decimal, appended to `out`.
fn push_nat(out: &mut std::string::String, n: u64)
    ensures
        final(out)@ == old(out)@ + nat_text(n as nat),
    decreases n,
{
    if n >= 10 {
        push_nat(out, n / 10);
    }
    let d = n % 10;
    let c = if d == 0 { '0' } else if d == 1 { '1' } else if d == 2 { '2' } else if d == 3 { '3' }
        else if d == 4 { '4' } else if d == 5 { '5' } else if d == 6 { '6' } else if d == 7 { '7' }
        else if d == 8 { '8' } else { '9' };
    push_char(out, c);
    proof {
        if n >= 10 {
            assert(old(out)@ + nat_text(n as nat) =~= old(out)@ + nat_text((n / 10) as nat) + seq![c]);
        } else {
            assert(old(out)@ + nat_text(n as nat) =~= old(out)@.push(c));
        }
    }
}

/// `n` in decimal, with a leading `-` when negative, appended to `out`.
fn push_int(out: &mut std::string::String, n: i64)
    ensures
        final(out)@ == old(out)@ + int_text(n as int),
{
    if n < 0 {
        push_char(out, '-');
        let m: u64 = ((-(n + 1)) as u64) + 1;
        assert(m as int == -(n as int));
        let ghost mid = out@;
        push_nat(out, m);
        assert(out@ =~= old(out)@ + (seq!['-'] + nat_text(m as nat)));
    } else {
        push_nat(out, n as u64);
    }
}

/// Writes the `.d.cp` type definitions of modules.
pub struct DcpEmitter {
    output: std::string::String,
}

impl DcpEmitter {
    /// Everything emitted so far.
    pub closed spec fn output(&self) -> Seq<char> {
        self.output@
    }

    pub fn new() -> (r: Self)
        ensures
            r.output() == Seq::<char>::empty(),
    {
        DcpEmitter { output: std::string::String::new() }
    }

    fn push(&mut self, x: &str)
        ensures
            final(self).output() == old(self).output() + x@,
    {
        push_str(&mut self.output, x);
    }

    /// Appends the type definitions of `module` and returns everything emitted so far.
    pub fn emit_module(&mut self, module: &Module) -> (r: std::string::String)
        ensures
            final(self).output() == old(self).output() + module_text(view_module(*module)),
            r@ == final(self).output(),
    {
        self.push("// Type definitions for CP\n\n");
        let items = &module.body;
        proof { lemma_view_module_item_seq_index(items@); }
        let ghost vi = view_module_item_seq(items@);
        let ghost out1 = self.output();
        let mut i: usize = 0;
        while i < items.len()
            invariant
                i <= items@.len(),
                vi == view_module_item_seq(items@),
                vi.len() == items@.len(),
                forall|j: int| 0 <= j < items@.len() ==> #[trigger] vi[j] == view_module_item(items@[j]),
                self.output() + items_text(vi, i as int) == out1 + items_text(vi, 0),
            decreases items@.len() - i,
        {
            let ghost before = self.output();
            match &items[i] {
                ModuleItem::Decl(decl) => self.emit_decl(decl),
                ModuleItem::Import(imp) => self.emit_import(imp),
                _ => {},
            }
            assert(before + items_text(vi, i as int) =~= self.output() + items_text(vi, i + 1));
            i = i + 1;
        }
        assert(self.output() =~= old(self).output() + module_text(view_module(*module)));
        self.output.clone()
    }

    /// Appends `import { a, b } from "source";` and a newline.
    pub fn emit_import(&mut self, imp: &ImportStmt)
        ensures
            final(self).output() == old(self).output() + import_text(view_import_stmt(*imp)),
    {
        self.push("import { ");
        self.emit_names(&imp.specifiers);
        self.push(" } from \"");
        self.push(imp.source.as_str());
        self.push("\";\n");
        assert(self.output() =~= old(self).output() + import_text(view_import_stmt(*imp)));
    }

    /// Appends the names, separated by `, `.
    fn emit_names(&mut self, ids: &Vec<Ident>)
        ensures
            final(self).output() == old(self).output() + name_list_text(view_ident_seq(ids@), 0),
    {
        proof { lemma_view_ident_seq_index(ids@); }
        let ghost vs = view_ident_seq(ids@);
        let mut i: usize = 0;
        while i < ids.len()
            invariant
                i <= ids@.len(),
                vs == view_ident_seq(ids@),
                vs.len() == ids@.len(),
                forall|j: int| 0 <= j < ids@.len() ==> #[trigger] vs[j] == view_ident(ids@[j]),
                self.output() + name_list_text(vs, i as int) == old(self).output() + name_list_text(vs, 0),
            decreases ids@.len() - i,
        {
            let ghost before = self.output();
            self.push(ids[i].sym.as_str());
            if i < ids.len() - 1 {
                self.push(", ");
            }
            assert(before + name_list_text(vs, i as int) =~= self.output() + name_list_text(vs, i + 1));
            i = i + 1;
        }
        assert(self.output() + name_list_text(vs, i as int) =~= self.output());
    }

    /// Appends the type definitions of one declaration: what was emitted before
    /// stays, followed by the declaration's text.
    pub fn emit_decl(&mut self, decl: &Decl)
        ensures
            final(self).output() == old(self).output() + decl_text(view_decl(*decl)),
    {
        match decl {
            Decl::Func(f) => {
                if !string_eq_str(&f.ident.sym, "main") {
                    self.push("export ");
                    self.emit_function(f);
                    assert(self.output() =~= old(self).output() + decl_text(view_decl(*decl)));
                } else {
                    assert(self.output() =~= old(self).output() + decl_text(view_decl(*decl)));
                }
            },
            Decl::Class(c) => self.emit_class(c),
            Decl::Trait(t) => {
                self.push("export trait ");
                self.push(t.ident.sym.as_str());
                self.push(" {\n");
                self.emit_method_sigs(&t.methods);
                self.push("}\n\n");
                assert(self.output() =~= old(self).output() + decl_text(view_decl(*decl)));
            },
            Decl::Interface(i) => {
                self.push("export interface ");
                self.push(i.ident.sym.as_str());
                self.push(" {\n");
                self.emit_method_sigs(&i.methods);
                self.push("}\n\n");
                assert(self.output() =~= old(self).output() + decl_text(view_decl(*decl)));
            },
            Decl::Enum(e) => self.emit_enum(e),
            Decl::ErrorSet(e) => {
                self.push("export error ");
                self.push(e.ident.sym.as_str());
                self.push(" { ");
                self.emit_names(&e.variants);
                self.push(" }\n\n");
                assert(self.output() =~= old(self).output() + decl_text(view_decl(*decl)));
            },
            Decl::Impl(_) => {
                assert(self.output() =~= old(self).output() + decl_text(view_decl(*decl)));
            },
        }
    }

    fn emit_class(&mut self, c: &Class)
        ensures
            final(self).output() == old(self).output() + class_text(view_class(*c)),
    {
        proof {
            lemma_view_ident_seq_index(c.implements@);
            lemma_view_field_seq_index(c.fields@);
            lemma_view_function_seq_index(c.methods@);
        }
        self.push("export class ");
        self.push(c.ident.sym.as_str());
        self.push(" ");
        let ghost mid = self.output();
        if c.implements.len() > 0 {
            self.push("implements ");
            self.emit_names(&c.implements);
            self.push(" ");
        }
        self.push("{\n");
        let ghost vf = view_field_seq(c.fields@);
        let ghost out_f = self.output();
        let mut i: usize = 0;
        while i < c.fields.len()
            invariant
                i <= c.fields@.len(),
                vf == view_field_seq(c.fields@),
                vf.len() == c.fields@.len(),
                forall|j: int| 0 <= j < c.fields@.len() ==> #[trigger] vf[j] == view_field(c.fields@[j]),
                self.output() + class_fields_text(vf, i as int) == out_f + class_fields_text(vf, 0),
            decreases c.fields@.len() - i,
        {
            let ghost before = self.output();
            let field = &c.fields[i];
            self.push("    ");
            self.push(field.ident.sym.as_str());
            self.push(": ");
            let t = self.format_type(&field.ty);
            self.push(t.as_str());
            self.push(",\n");
            assert(before + class_fields_text(vf, i as int) =~= self.output() + class_fields_text(vf, i + 1));
            i = i + 1;
        }
        assert(self.output() + class_fields_text(vf, i as int) =~= self.output());
        let ghost vm = view_function_seq(c.methods@);
        let ghost out_m = self.output();
        let mut k: usize = 0;
        while k < c.methods.len()
            invariant
                k <= c.methods@.len(),
                vm == view_function_seq(c.methods@),
                vm.len() == c.methods@.len(),
                forall|j: int| 0 <= j < c.methods@.len() ==> #[trigger] vm[j] == view_function(c.methods@[j]),
                self.output() + class_methods_text(vm, k as int) == out_m + class_methods_text(vm, 0),
            decreases c.methods@.len() - k,
        {
            let ghost before = self.output();
            self.push("    ");
            self.emit_function(&c.methods[k]);
            assert(before + class_methods_text(vm, k as int) =~= self.output() + class_methods_text(vm, k + 1));
            k = k + 1;
        }
        assert(self.output() + class_methods_text(vm, k as int) =~= self.output());
        self.push("}\n\n");
        assert(self.output() =~= old(self).output() + class_text(view_class(*c)));
    }

    fn emit_method_sigs(&mut self, ms: &Vec<MethodSig>)
        ensures
            final(self).output() == old(self).output() + method_sigs_text(view_method_sig_seq(ms@), 0),
    {
        proof { lemma_view_method_sig_seq_index(ms@); }
        let ghost vm = view_method_sig_seq(ms@);
        let mut i: usize = 0;
        while i < ms.len()
            invariant
                i <= ms@.len(),
                vm == view_method_sig_seq(ms@),
                vm.len() == ms@.len(),
                forall|j: int| 0 <= j < ms@.len() ==> #[trigger] vm[j] == view_method_sig(ms@[j]),
                self.output() + method_sigs_text(vm, i as int) == old(self).output() + method_sigs_text(vm, 0),
            decreases ms@.len() - i,
        {
            let ghost before = self.output();
            let method = &ms[i];
            self.push("    fn ");
            self.push(method.ident.sym.as_str());
            self.push("(");
            self.emit_params(method.params.as_slice());
            self.push(")");
            self.emit_return_type(&method.return_type);
            self.push(";\n");
            assert(before + method_sigs_text(vm, i as int) =~= self.output() + method_sigs_text(vm, i + 1));
            i = i + 1;
        }
        assert(self.output() + method_sigs_text(vm, i as int) =~= self.output());
    }

    fn emit_return_type(&mut self, ret: &Option<Type>)
        ensures
            final(self).output() == old(self).output() + return_text(match *ret {
                Some(t) => Some(view_type(t)),
                None => None,
            }),
    {
        match ret {
            Some(t) => {
                self.push(": ");
                let s = self.format_type(t);
                self.push(s.as_str());
                assert(self.output() =~= old(self).output() + (": "@ + type_text(view_type(*t))));
            },
            None => {
                assert(self.output() =~= old(self).output() + Seq::<char>::empty());
            },
        }
    }

    fn emit_enum(&mut self, e: &EnumDecl)
        ensures
            final(self).output() == old(self).output() + decl_text(SDecl::Enum(view_enum_decl(*e))),
    {
        proof { lemma_view_enum_variant_seq_index(e.variants@); }
        self.push("export enum ");
        self.push(e.ident.sym.as_str());
        self.push(" {\n");
        let ghost vv = view_enum_variant_seq(e.variants@);
        let ghost out_v = self.output();
        let mut i: usize = 0;
        while i < e.variants.len()
            invariant
                i <= e.variants@.len(),
                vv == view_enum_variant_seq(e.variants@),
                vv.len() == e.variants@.len(),
                forall|j: int| 0 <= j < e.variants@.len() ==> #[trigger] vv[j] == view_enum_variant(e.variants@[j]),
                self.output() + variants_text(vv, i as int) == out_v + variants_text(vv, 0),
            decreases e.variants@.len() - i,
        {
            let ghost before = self.output();
            let last = i == e.variants.len() - 1;
            self.emit_variant(&e.variants[i], last);
            assert(before + variants_text(vv, i as int) =~= self.output() + variants_text(vv, i + 1));
            i = i + 1;
        }
        assert(self.output() + variants_text(vv, i as int) =~= self.output());
        self.push("}\n\n");
        assert(self.output() =~= old(self).output() + decl_text(SDecl::Enum(view_enum_decl(*e))));
    }

    fn emit_variant(&mut self, variant: &EnumVariant, last: bool)
        ensures
            final(self).output() == old(self).output() + variant_text(view_enum_variant(*variant), last),
    {
        self.push("    ");
        self.push(variant.ident.sym.as_str());
        let ghost after_name = self.output();
        match &variant.value {
            Some(Expr::Lit(Lit::Int(n))) => {
                self.push(" = ");
                push_int(&mut self.output, *n);
            },
            _ => {},
        }
        assert(self.output() =~= after_name + variant_value_text(match variant.value {
            Some(x) => Some(crate::ast::view_expr(x)),
            None => None,
        }));
        let ghost after_value = self.output();
        match &variant.fields {
            Some(fields) => {
                self.push(" { ");
                self.emit_field_list(fields);
                self.push(" }");
            },
            None => {},
        }
        if last {
            self.push("\n");
        } else {
            self.push(",\n");
        }
        assert(self.output() =~= old(self).output() + variant_text(view_enum_variant(*variant), last));
    }

    /// Appends `name: type` for each field, separated by `, `.
    fn emit_field_list(&mut self, fields: &Vec<Field>)
        ensures
            final(self).output() == old(self).output() + field_list_text(view_field_seq(fields@), 0),
    {
        proof { lemma_view_field_seq_index(fields@); }
        let ghost vf = view_field_seq(fields@);
        let mut j: usize = 0;
        while j < fields.len()
            invariant
                j <= fields@.len(),
                vf == view_field_seq(fields@),
                vf.len() == fields@.len(),
                forall|k: int| 0 <= k < fields@.len() ==> #[trigger] vf[k] == view_field(fields@[k]),
                self.output() + field_list_text(vf, j as int) == old(self).output() + field_list_text(vf, 0),
            decreases fields@.len() - j,
        {
            let ghost before = self.output();
            let field = &fields[j];
            self.push(field.ident.sym.as_str());
            self.push(": ");
            let t = self.format_type(&field.ty);
            self.push(t.as_str());
            if j < fields.len() - 1 {
                self.push(", ");
            }
            assert(before + field_list_text(vf, j as int) =~= self.output() + field_list_text(vf, j + 1));
            j = j + 1;
        }
        assert(self.output() + field_list_text(vf, j as int) =~= self.output());
    }

    fn emit_function(&mut self, f: &Function)
        ensures
            final(self).output() == old(self).output() + function_text(view_function(*f)),
    {
        if f.is_async {
            self.push("async ");
        }
        self.push("fn ");
        self.push(f.ident.sym.as_str());
        self.push("(");
        self.emit_params(f.params.as_slice());
        self.push(")");
        self.emit_return_type(&f.return_type);
        self.push(";\n");
        assert(self.output() =~= old(self).output() + function_text(view_function(*f)));
    }

    /// Appends the parameters, each as `name: type` (after `comptime ` for a
    /// compile-time parameter), separated by `, `.
    pub fn emit_params(&mut self, params: &[Param])
        ensures
            final(self).output() == old(self).output() + params_text(view_param_seq(params@), 0),
    {
        proof { lemma_view_param_seq_index(params@); }
        let ghost vp = view_param_seq(params@);
        let mut i: usize = 0;
        while i < params.len()
            invariant
                i <= params@.len(),
                vp == view_param_seq(params@),
                vp.len() == params@.len(),
                forall|j: int| 0 <= j < params@.len() ==> #[trigger] vp[j] == view_param(params@[j]),
                self.output() + params_text(vp, i as int) == old(self).output() + params_text(vp, 0),
            decreases params@.len() - i,
        {
            let ghost before = self.output();
            let p = &params[i];
            if p.is_comptime {
                self.push("comptime ");
            }
            self.push(p.ident.sym.as_str());
            self.push(": ");
            let t = self.format_type(&p.ty);
            self.push(t.as_str());
            if i < params.len() - 1 {
                self.push(", ");
            }
            assert(before + params_text(vp, i as int) =~= self.output() + params_text(vp, i + 1));
            i = i + 1;
        }
        assert(self.output() + params_text(vp, i as int) =~= self.output());
    }

    /// A type as it is written in type definitions.
    pub fn format_type(&self, ty: &Type) -> (r: std::string::String)
        ensures
            r@ == type_text(view_type(*ty)),
        decreases ty, 0nat,
    {
        match ty {
            Type::I32 => string_of_lit("i32"),
            Type::U32 => string_of_lit("u32"),
            Type::U64 => string_of_lit("u64"),
            Type::F32 => string_of_lit("f32"),
            Type::F64 => string_of_lit("f64"),
            Type::USize => string_of_lit("usize"),
            Type::Bool => string_of_lit("bool"),
            Type::String => string_of_lit("string"),
            Type::Void => string_of_lit("void"),
            Type::Any => string_of_lit("any"),
            Type::PID => string_of_lit("PID"),
            Type::Unknown => string_of_lit("unknown"),
            Type::Array(inner) => {
                let mut s = string_of_lit("[]");
                let x = self.format_type(inner);
                push_str(&mut s, x.as_str());
                s
            },
            Type::MapOf(k, v) => {
                let mut s = string_of_lit("Map<");
                let x = self.format_type(k);
                push_str(&mut s, x.as_str());
                push_str(&mut s, ", ");
                let y = self.format_type(v);
                push_str(&mut s, y.as_str());
                push_char(&mut s, '>');
                proof {
                    assert(">"@ =~= seq!['>']) by { reveal_strlit(">"); }
                    assert(s@ =~= type_text(view_type(*ty)));
                }
                s
            },
            Type::Tuple(elements) => {
                let mut s = string_of_lit("[");
                let x = self.format_type_list(elements);
                push_str(&mut s, x.as_str());
                push_char(&mut s, ']');
                proof {
                    assert("]"@ =~= seq![']']) by { reveal_strlit("]"); }
                    assert(s@ =~= type_text(view_type(*ty)));
                }
                s
            },
            Type::Object(fields) => {
                let mut s = string_of_lit("{ ");
                let x = self.format_field_list(fields);
                push_str(&mut s, x.as_str());
                push_str(&mut s, " }");
                s
            },
            Type::Ref(ident) => ident.sym.clone(),
            Type::Fn(params, ret) => {
                let mut s = string_of_lit("(");
                let x = self.format_type_list(params);
                push_str(&mut s, x.as_str());
                push_str(&mut s, ") => ");
                let y = self.format_type(ret);
                push_str(&mut s, y.as_str());
                s
            },
            Type::ErrorUnion(inner) => {
                let mut s = string_of_lit("!");
                let x = self.format_type(inner);
                push_str(&mut s, x.as_str());
                s
            },
            Type::Optional(inner) => {
                let mut s = string_of_lit("?");
                let x = self.format_type(inner);
                push_str(&mut s, x.as_str());
                s
            },
        }
    }

    /// The types, separated by `, `.
    fn format_type_list(&self, ts: &Vec<Type>) -> (r: std::string::String)
        ensures
            r@ == type_list_text(view_type_seq(ts@), 0),
        decreases ts, 1nat,
    {
        proof { lemma_view_type_seq_index(ts@); }
        let ghost vt = view_type_seq(ts@);
        let mut s = std::string::String::new();
        let mut i: usize = 0;
        while i < ts.len()
            invariant
                i <= ts@.len(),
                vt == view_type_seq(ts@),
                vt.len() == ts@.len(),
                forall|j: int| 0 <= j < ts@.len() ==> #[trigger] vt[j] == view_type(ts@[j]),
                s@ + type_list_text(vt, i as int) == type_list_text(vt, 0),
            decreases ts@.len() - i,
        {
            let ghost before = s@;
            let x = self.format_type(&ts[i]);
            push_str(&mut s, x.as_str());
            if i < ts.len() - 1 {
                push_str(&mut s, ", ");
            }
            assert(before + type_list_text(vt, i as int) =~= s@ + type_list_text(vt, i + 1));
            i = i + 1;
        }
        assert(s@ + type_list_text(vt, i as int) =~= s@);
        s
    }

    /// `name: type` for each field, separated by `, `.
    fn format_field_list(&self, fs: &Vec<Field>) -> (r: std::string::String)
        ensures
            r@ == field_list_text(view_field_seq(fs@), 0),
        decreases fs, 1nat,
    {
        proof { lemma_view_field_seq_index(fs@); }
        let ghost vf = view_field_seq(fs@);
        let mut s = std::string::String::new();
        let mut i: usize = 0;
        while i < fs.len()
            invariant
                i <= fs@.len(),
                vf == view_field_seq(fs@),
                vf.len() == fs@.len(),
                forall|j: int| 0 <= j < fs@.len() ==> #[trigger] vf[j] == view_field(fs@[j]),
                s@ + field_list_text(vf, i as int) == field_list_text(vf, 0),
            decreases fs@.len() - i,
        {
            let ghost before = s@;
            let field = &fs[i];
            push_str(&mut s, field.ident.sym.as_str());
            push_str(&mut s, ": ");
            let x = self.format_type(&field.ty);
            push_str(&mut s, x.as_str());
            if i < fs.len() - 1 {
                push_str(&mut s, ", ");
            }
            assert(before + field_list_text(vf, i as int) =~= s@ + field_list_text(vf, i + 1));
            i = i + 1;
        }
        assert(s@ + field_list_text(vf, i as int) =~= s@);
        s
    }
}


} // verus!

//! What the language server computes: offsets of editor positions, hover
//! texts, completions, and the analysis of an open document.
use vstd::prelude::*;
use crate::Span;
use crate::text::{push_str, string_of_lit};
use crate::lexer::{byte_offset, utf8_width, utf8_width_exec, source_chars, lemma_byte_offset_mono, lemma_byte_offset_strict};
use crate::ast::{Module, Type, SType, SModule, view_type, view_type_seq, view_module, lemma_view_type_seq_index};
use crate::sema::{Analyzer, SymbolKind, SSymbolKind, SemaResult, SAnalyzer, view_symbol_kind, span_map, a_module, a_declare, a_items, step_agrees};

verus! {

// ------------------------------------------------------------------
// Positions
// ------------------------------------------------------------------

/// The byte offset of the character at line `tl`, column `tc` (both counted
/// from zero, columns in characters), scanning `s` from character `k`, which
/// stands at line `line`, column `col`; `None` when no character stands there.
pub open spec fn offset_at(s: Seq<char>, k: int, line: int, col: int, tl: int, tc: int) -> Option<int>
    decreases s.len() - k,
{
    if k < 0 || k >= s.len() {
        None
    } else if line == tl && col == tc {
        Some(byte_offset(s, k) as int)
    } else if s[k] == '\n' {
        offset_at(s, k + 1, line + 1, 0, tl, tc)
    } else {
        offset_at(s, k + 1, line, col + 1, tl, tc)
    }
}

/// The byte offset of the character at `line`, `character` in `text`.
pub fn position_to_offset(text: &str, line: u32, character: u32) -> (r: Option<usize>)
    requires
        byte_offset(text@, text@.len() as int) <= usize::MAX,
    ensures
        match offset_at(text@, 0, 0, 0, line as int, character as int) {
            Some(o) => r is Some && r->Some_0 as int == o,
            None => r is None,
        },
        r is Some ==> r->Some_0 < byte_offset(text@, text@.len() as int),
{
    let chars = source_chars(text);
    let ghost s = chars@;
    let mut k: usize = 0;
    let mut l: usize = 0;
    let mut c: usize = 0;
    let mut bi: usize = 0;
    while k < chars.len()
        invariant
            s == chars@,
            s == text@,
            k <= s.len(),
            l <= k,
            c <= k,
            bi == byte_offset(s, k as int),
            byte_offset(s, s.len() as int) <= usize::MAX,
            offset_at(s, 0, 0, 0, line as int, character as int)
                == offset_at(s, k as int, l as int, c as int, line as int, character as int),
        decreases s.len() - k,
    {
        if l == line as usize && c == character as usize {
            proof { lemma_byte_offset_strict(s, k as int, s.len() as int); }
            return Some(bi);
        }
        if chars[k] == '\n' {
            l = l + 1;
            c = 0;
        } else {
            c = c + 1;
        }
        proof {
            lemma_byte_offset_mono(s, k + 1, s.len() as int);
        }
        bi = bi + utf8_width_exec(chars[k]);
        k = k + 1;
    }
    None
}

// ------------------------------------------------------------------
// Hover
// ------------------------------------------------------------------

/// A type as a hover shows it.
pub open spec fn hover_type_text(t: SType) -> Seq<char>
    decreases t,
{
    match t {
        SType::I32 => "i32"@,
        SType::U64 => "u64"@,
        SType::F32 => "f32"@,
        SType::F64 => "f64"@,
        SType::USize => "usize"@,
        SType::Bool => "bool"@,
        SType::String => "string"@,
        SType::Void => "void"@,
        SType::Any => "any"@,
        SType::PID => "PID"@,
        SType::Ref(id) => id.sym,
        SType::Array(inner) => "[]"@ + hover_type_text(*inner),
        SType::Optional(inner) => "?"@ + hover_type_text(*inner),
        SType::ErrorUnion(inner) => "!"@ + hover_type_text(*inner),
        _ => "unknown"@,
    }
}

/// The parameter types from index `i` on, separated by `, `.
pub open spec fn hover_params_text(ts: Seq<SType>, i: int) -> Seq<char>
    decreases ts.len() - i,
{
    if i < 0 || i >= ts.len() {
        Seq::empty()
    } else {
        hover_type_text(ts[i]) + (if i < ts.len() - 1 { ", "@ } else { Seq::empty() }) + hover_params_text(ts, i + 1)
    }
}

/// What a hover says of a symbol.
pub open spec fn symbol_text(k: SSymbolKind) -> Seq<char> {
    match k {
        SSymbolKind::Var { ty, .. } => "(variable) "@ + hover_type_text(ty),
        SSymbolKind::Func { params, ret, is_async } =>
            (if is_async { "async fn ("@ } else { "fn ("@ }) + hover_params_text(params, 0) + ")"@
                + match ret {
                    Some(r) => ": "@ + hover_type_text(r),
                    None => Seq::empty(),
                },
        SSymbolKind::Class(c) => "class "@ + c.ident.sym,
        SSymbolKind::Trait(t) => "trait "@ + t.ident.sym,
        SSymbolKind::Enum(e) => "enum "@ + e.ident.sym,
    }
}

/// A type as a hover shows it.
pub fn format_type(ty: &Type) -> (r: std::string::String)
    ensures
        r@ == hover_type_text(view_type(*ty)),
    decreases ty,
{
    match ty {
        Type::I32 => string_of_lit("i32"),
        Type::U64 => string_of_lit("u64"),
        Type::F32 => string_of_lit("f32"),
        Type::F64 => string_of_lit("f64"),
        Type::USize => string_of_lit("usize"),
        Type::Bool => string_of_lit("bool"),
        Type::String => string_of_lit("string"),
        Type::Void => string_of_lit("void"),
        Type::Any => string_of_lit("any"),
        Type::PID => string_of_lit("PID"),
        Type::Ref(id) => id.sym.clone(),
        Type::Array(inner) => {
            let mut s = string_of_lit("[]");
            let x = format_type(inner);
            push_str(&mut s, x.as_str());
            s
        },
        Type::Optional(inner) => {
            let mut s = string_of_lit("?");
            let x = format_type(inner);
            push_str(&mut s, x.as_str());
            s
        },
        Type::ErrorUnion(inner) => {
            let mut s = string_of_lit("!");
            let x = format_type(inner);
            push_str(&mut s, x.as_str());
            s
        },
        _ => string_of_lit("unknown"),
    }
}

/// What a hover says of a symbol.
pub fn format_symbol_kind(kind: &SymbolKind) -> (r: std::string::String)
    ensures
        r@ == symbol_text(view_symbol_kind(*kind)),
{
    match kind {
        SymbolKind::Var { ty, .. } => {
            let mut s = string_of_lit("(variable) ");
            let t = format_type(ty);
            push_str(&mut s, t.as_str());
            s
        },
        SymbolKind::Func { params, ret, is_async } => {
            let mut s = if *is_async { string_of_lit("async fn (") } else { string_of_lit("fn (") };
            let ghost head = s@;
            proof { lemma_view_type_seq_index(params@); }
            let ghost vt = view_type_seq(params@);
            let mut i: usize = 0;
            while i < params.len()
                invariant
                    i <= params@.len(),
                    vt == view_type_seq(params@),
                    vt.len() == params@.len(),
                    forall|j: int| 0 <= j < params@.len() ==> #[trigger] vt[j] == view_type(params@[j]),
                    s@ + hover_params_text(vt, i as int) == head + hover_params_text(vt, 0),
                decreases params@.len() - i,
            {
                let ghost before = s@;
                let t = format_type(&params[i]);
                push_str(&mut s, t.as_str());
                if i < params.len() - 1 {
                    push_str(&mut s, ", ");
                }
                assert(before + hover_params_text(vt, i as int) =~= s@ + hover_params_text(vt, i + 1));
                i = i + 1;
            }
            assert(s@ + hover_params_text(vt, i as int) =~= s@);
            push_str(&mut s, ")");
            match ret {
                Some(r) => {
                    push_str(&mut s, ": ");
                    let t = format_type(r);
                    push_str(&mut s, t.as_str());
                },
                None => {},
            }
            assert(s@ =~= symbol_text(view_symbol_kind(*kind)));
            s
        },
        SymbolKind::Class(c) => {
            let mut s = string_of_lit("class ");
            push_str(&mut s, c.ident.sym.as_str());
            s
        },
        SymbolKind::Trait(t) => {
            let mut s = string_of_lit("trait ");
            push_str(&mut s, t.ident.sym.as_str());
            s
        },
        SymbolKind::Enum(e) => {
            let mut s = string_of_lit("enum ");
            push_str(&mut s, e.ident.sym.as_str());
            s
        },
    }
}

/// `span` covers the byte offset `off` (both ends included).
pub open spec fn covers(span: Span, off: int) -> bool {
    span.start <= off <= span.end
}

/// The spans recorded in `s` are exactly the keys of its map.
pub proof fn lemma_span_map_dom(s: Seq<(Span, SymbolKind)>, key: Span)
    ensures
        span_map(s).dom().contains(key) <==> exists|k: int| 0 <= k < s.len() && #[trigger] s[k].0 == key,
    decreases s.len(),
{
    if s.len() > 0 {
        lemma_span_map_dom(s.drop_last(), key);
        if span_map(s).dom().contains(key) && key != s.last().0 {
            let k = choose|k: int| 0 <= k < s.drop_last().len() && #[trigger] s.drop_last()[k].0 == key;
            assert(s[k].0 == key);
        }
        if exists|k: int| 0 <= k < s.len() && #[trigger] s[k].0 == key {
            let k = choose|k: int| 0 <= k < s.len() && #[trigger] s[k].0 == key;
            if k < s.len() - 1 {
                assert(s.drop_last()[k].0 == key);
            }
        }
    }
}

/// The symbol recorded last at a span is the one the map holds.
pub proof fn lemma_span_map_last(s: Seq<(Span, SymbolKind)>, m: int)
    requires
        0 <= m < s.len(),
        forall|k: int| m < k < s.len() ==> #[trigger] s[k].0 != s[m].0,
    ensures
        span_map(s).dom().contains(s[m].0),
        span_map(s)[s[m].0] == view_symbol_kind(s[m].1),
    decreases s.len(),
{
    if m < s.len() - 1 {
        assert forall|k: int| m < k < s.drop_last().len() implies #[trigger] s.drop_last()[k].0 != s.drop_last()[m].0 by {
            assert(s[k].0 != s[m].0);
        }
        lemma_span_map_last(s.drop_last(), m);
    }
}

/// The hover text for the position `line`, `character` of `text`, analyzed by
/// `analyzer`: what the symbol recorded at a span covering that position stands
/// for. Where several recorded spans cover it, any of them may be the one shown.
pub fn hover_text(analyzer: &Analyzer, text: &str, line: u32, character: u32) -> (r: Option<std::string::String>)
    requires
        byte_offset(text@, text@.len() as int) <= usize::MAX,
    ensures
        match offset_at(text@, 0, 0, 0, line as int, character as int) {
            None => r is None,
            Some(off) => match r {
                None => forall|sp: Span| #[trigger] analyzer@.symbols.dom().contains(sp) ==> !covers(sp, off),
                Some(h) => exists|sp: Span| #[trigger] analyzer@.symbols.dom().contains(sp) && covers(sp, off)
                    && h@ == symbol_text(analyzer@.symbols[sp]),
            },
        },
{
    let offset = match position_to_offset(text, line, character) {
        Some(o) => o,
        None => {
            return None;
        },
    };
    let syms = analyzer.symbols();
    let ghost s = syms@;
    let mut j = syms.len();
    while j > 0
        invariant
            s == syms@,
            span_map(s) == analyzer@.symbols,
            offset_at(text@, 0, 0, 0, line as int, character as int) == Some(offset as int),
            j <= s.len(),
            forall|k: int| j <= k < s.len() ==> !covers(#[trigger] s[k].0, offset as int),
        decreases j,
    {
        let span = syms[j - 1].0;
        if offset >= span.start && offset <= span.end {
            let h = format_symbol_kind(&syms[j - 1].1);
            proof {
                let m = j - 1;
                assert forall|k: int| m < k < s.len() implies #[trigger] s[k].0 != s[m].0 by {
                    assert(!covers(s[k].0, offset as int));
                }
                lemma_span_map_last(s, m);
                assert(analyzer@.symbols.dom().contains(span) && covers(span, offset as int)
                    && h@ == symbol_text(analyzer@.symbols[span]));
            }
            return Some(h);
        }
        j = j - 1;
    }
    proof {
        assert forall|sp: Span| #[trigger] analyzer@.symbols.dom().contains(sp) implies !covers(sp, offset as int) by {
            lemma_span_map_dom(s, sp);
            let k = choose|k: int| 0 <= k < s.len() && #[trigger] s[k].0 == sp;
            assert(!covers(s[k].0, offset as int));
        }
    }
    None
}

// ------------------------------------------------------------------
// Completion
// ------------------------------------------------------------------

/// The completions offered everywhere: a label and what it is.
pub open spec fn completion_list() -> Seq<(Seq<char>, Seq<char>)> {
    seq![
        ("fn"@, "Function definition"@),
        ("let"@, "Variable declaration"@),
        ("const"@, "Constant declaration"@),
        ("class"@, "Class definition"@),
        ("trait"@, "Trait definition"@),
        ("impl"@, "Trait implementation"@),
        ("enum"@, "Enum definition"@),
        ("error"@, "Error set definition"@),
        ("match"@, "Pattern matching"@),
        ("defer"@, "Defer execution"@),
        ("errdefer"@, "Defer execution on error"@),
        ("await"@, "Await asynchronous operation"@),
        ("async"@, "Asynchronous function"@),
        ("@spawn"@, "Spawn a new actor"@),
        ("@receive"@, "Receive message"@),
        ("@reply"@, "Send message"@),
        ("@print"@, "Print to console"@),
        ("@self"@, "Get current PID"@),
        ("cap:io"@, "Standard IO library"@),
        ("cap:mem"@, "Standard Memory library"@),
        ("cap:actor"@, "Standard Actor library"@),
    ]
}

fn push_item(v: &mut Vec<(std::string::String, std::string::String)>, label: &str, detail: &str)
    ensures
        final(v)@.len() == old(v)@.len() + 1,
        forall|i: int| 0 <= i < old(v)@.len() ==> final(v)@[i] == old(v)@[i],
        final(v)@.last().0@ == label@,
        final(v)@.last().1@ == detail@,
{
    v.push((string_of_lit(label), string_of_lit(detail)));
}

/// The completions offered everywhere, as (label, detail) pairs.
pub fn completion_items() -> (r: Vec<(std::string::String, std::string::String)>)
    ensures
        r@.len() == completion_list().len(),
        forall|i: int| 0 <= i < r@.len() ==> (#[trigger] r@[i]).0@ == completion_list()[i].0 && r@[i].1@ == completion_list()[i].1,
{
    let mut v: Vec<(std::string::String, std::string::String)> = Vec::new();
    push_item(&mut v, "fn", "Function definition");
    push_item(&mut v, "let", "Variable declaration");
    push_item(&mut v, "const", "Constant declaration");
    push_item(&mut v, "class", "Class definition");
    push_item(&mut v, "trait", "Trait definition");
    push_item(&mut v, "impl", "Trait implementation");
    push_item(&mut v, "enum", "Enum definition");
    push_item(&mut v, "error", "Error set definition");
    push_item(&mut v, "match", "Pattern matching");
    push_item(&mut v, "defer", "Defer execution");
    push_item(&mut v, "errdefer", "Defer execution on error");
    push_item(&mut v, "await", "Await asynchronous operation");
    push_item(&mut v, "async", "Asynchronous function");
    push_item(&mut v, "@spawn", "Spawn a new actor");
    push_item(&mut v, "@receive", "Receive message");
    push_item(&mut v, "@reply", "Send message");
    push_item(&mut v, "@print", "Print to console");
    push_item(&mut v, "@self", "Get current PID");
    push_item(&mut v, "cap:io", "Standard IO library");
    push_item(&mut v, "cap:mem", "Standard Memory library");
    push_item(&mut v, "cap:actor", "Standard Actor library");
    v
}

// ------------------------------------------------------------------
// Documents
// ------------------------------------------------------------------

/// Analyzes an open document's module after the items of its dependencies:
/// errors in the dependencies are passed over, and the analyzer is returned
/// with the result of analyzing the document itself.
pub fn analyze_document(deps: &Module, module: &Module) -> (r: (Analyzer, SemaResult<()>))
    ensures
        r.0.wf(),
        r.0@ == a_module(a_module(Analyzer::new_state(), view_module(*deps)).0, view_module(*module)).0,
        step_agrees(r.1, a_module(a_module(Analyzer::new_state(), view_module(*deps)).0, view_module(*module)).1),
{
    let mut analyzer = Analyzer::new();
    let _ = analyzer.analyze_module(deps);
    let res = analyzer.analyze_module(module);
    (analyzer, res)
}

/// A type that a hover shows by its name: a primitive, `PID`, a type name, or an
/// array, optional or error union of such a type.
pub open spec fn hover_shown(t: SType) -> bool
    decreases t,
{
    match t {
        SType::I32 | SType::U64 | SType::F32 | SType::F64 | SType::USize | SType::Bool
        | SType::String | SType::Void | SType::Any | SType::PID | SType::Ref(_) => true,
        SType::Array(inner) => hover_shown(*inner),
        SType::Optional(inner) => hover_shown(*inner),
        SType::ErrorUnion(inner) => hover_shown(*inner),
        _ => false,
    }
}

/// A hover writes a type as the type definitions write it.
pub proof fn law_hover_types_as_definitions(t: SType)
    requires
        hover_shown(t),
    ensures
        hover_type_text(t) == crate::dcp::type_text(t),
    decreases t,
{
    match t {
        SType::Array(inner) => { law_hover_types_as_definitions(*inner); },
        SType::Optional(inner) => { law_hover_types_as_definitions(*inner); },
        SType::ErrorUnion(inner) => { law_hover_types_as_definitions(*inner); },
        _ => {},
    }
}

/// A hover lists parameter types as the type definitions list them.
pub proof fn law_hover_params_as_definitions(ts: Seq<SType>, i: int)
    requires
        forall|k: int| 0 <= k < ts.len() ==> hover_shown(#[trigger] ts[k]),
    ensures
        hover_params_text(ts, i) == crate::dcp::type_list_text(ts, i),
    decreases ts.len() - i,
{
    if 0 <= i < ts.len() {
        law_hover_types_as_definitions(ts[i]);
        law_hover_params_as_definitions(ts, i + 1);
    }
}

/// A hover names the kind of the symbol first: `class `, `trait ` or `enum ` and
/// the name for a type, `(variable) ` for a variable, `fn (` or `async fn (` for a
/// function.
pub proof fn law_hover_names_the_kind(k: SSymbolKind)
    ensures
        k matches SSymbolKind::Class(c) ==> symbol_text(k) == seq!['c', 'l', 'a', 's', 's', ' '] + c.ident.sym,
        k matches SSymbolKind::Trait(t) ==> symbol_text(k) == seq!['t', 'r', 'a', 'i', 't', ' '] + t.ident.sym,
        k matches SSymbolKind::Enum(e) ==> symbol_text(k) == seq!['e', 'n', 'u', 'm', ' '] + e.ident.sym,
        k is Var ==> symbol_text(k).len() >= 11 && symbol_text(k).subrange(0, 11)
            == seq!['(', 'v', 'a', 'r', 'i', 'a', 'b', 'l', 'e', ')', ' '],
        k matches SSymbolKind::Func { is_async, .. } ==> if is_async {
            symbol_text(k).len() >= 10 && symbol_text(k).subrange(0, 10) == seq!['a', 's', 'y', 'n', 'c', ' ', 'f', 'n', ' ', '(']
        } else {
            symbol_text(k).len() >= 4 && symbol_text(k).subrange(0, 4) == seq!['f', 'n', ' ', '(']
        },
{
    reveal_strlit("class ");
    reveal_strlit("trait ");
    reveal_strlit("enum ");
    reveal_strlit("(variable) ");
    reveal_strlit("async fn (");
    reveal_strlit("fn (");
    match k {
        SSymbolKind::Class(c) => { assert(symbol_text(k) =~= seq!['c', 'l', 'a', 's', 's', ' '] + c.ident.sym); },
        SSymbolKind::Trait(t) => { assert(symbol_text(k) =~= seq!['t', 'r', 'a', 'i', 't', ' '] + t.ident.sym); },
        SSymbolKind::Enum(e) => { assert(symbol_text(k) =~= seq!['e', 'n', 'u', 'm', ' '] + e.ident.sym); },
        SSymbolKind::Var { .. } => {
            assert(symbol_text(k).subrange(0, 11) =~= seq!['(', 'v', 'a', 'r', 'i', 'a', 'b', 'l', 'e', ')', ' ']);
        },
        SSymbolKind::Func { is_async, .. } => {
            if is_async {
                assert(symbol_text(k).subrange(0, 10) =~= seq!['a', 's', 'y', 'n', 'c', ' ', 'f', 'n', ' ', '(']);
            } else {
                assert(symbol_text(k).subrange(0, 4) =~= seq!['f', 'n', ' ', '(']);
            }
        },
    }
}

/// The first character of a hover tells the kind of the symbol.
pub open spec fn kind_index(k: SSymbolKind) -> int {
    match k {
        SSymbolKind::Var { .. } => 0,
        SSymbolKind::Func { .. } => 1,
        SSymbolKind::Class(_) => 2,
        SSymbolKind::Trait(_) => 3,
        SSymbolKind::Enum(_) => 4,
    }
}

/// Symbols of different kinds never hover alike, whatever their names and types.
pub proof fn law_hover_tells_kinds_apart(a: SSymbolKind, b: SSymbolKind)
    requires
        kind_index(a) != kind_index(b),
    ensures
        symbol_text(a) != symbol_text(b),
{
    law_hover_names_the_kind(a);
    law_hover_names_the_kind(b);
    let x = symbol_text(a);
    let y = symbol_text(b);
    assert(x.len() > 0 && y.len() > 0);
    assert(x[0] != y[0]) by {
        match a {
            SSymbolKind::Var { .. } => { assert(x.subrange(0, 11)[0] == x[0]); },
            SSymbolKind::Func { is_async, .. } => {
                if is_async { assert(x.subrange(0, 10)[0] == x[0]); } else { assert(x.subrange(0, 4)[0] == x[0]); }
            },
            _ => {},
        }
        match b {
            SSymbolKind::Var { .. } => { assert(y.subrange(0, 11)[0] == y[0]); },
            SSymbolKind::Func { is_async, .. } => {
                if is_async { assert(y.subrange(0, 10)[0] == y[0]); } else { assert(y.subrange(0, 4)[0] == y[0]); }
            },
            _ => {},
        }
    }
}

/// With no dependencies, what the editor reports for a document is exactly
/// what checking the document reports.
pub proof fn law_editor_agrees_with_check(deps: SModule, m: SModule)
    requires
        deps.body.len() == 0,
    ensures
        a_module(a_module(Analyzer::new_state(), deps).0, m) == a_module(Analyzer::new_state(), m),
{
    let st = Analyzer::new_state();
    assert(a_declare(st, deps.body, 0) == st);
    assert(a_items(st, deps.body, 0) == (st, None::<crate::sema::SSemaError>));
}

} // verus!

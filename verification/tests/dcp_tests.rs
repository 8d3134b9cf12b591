use cpc::ast::{BlockStmt, Decl, Field, Function, Ident, Module, ModuleItem, Param, Type};
use cpc::dcp::DcpEmitter;
use cpc::parser::Parser;
use cpc::Span;

fn emit(input: &str) -> String {
    let module = Parser::new(input).parse_module().unwrap();
    DcpEmitter::new().emit_module(&module)
}

#[test]
fn type_definitions_of_a_module() {
    let out = emit(
        "export fn add(a: i32, b: i32): i32 { return a + b; }\n\
         fn main() {}\n\
         class P extends Base { x: i32, fn get(): i32 { return 1; } }\n\
         enum Color { Red = 1, Green { r: u64 } }\n\
         error E { A, B }\n\
         import { x, y } from \"./m\";\n\
         let z = 1;",
    );
    assert_eq!(
        out,
        "// Type definitions for CP\n\n\
         export fn add(a: i32, b: i32): i32;\n\
         export class P implements Base {\n    x: i32,\n    fn get(): i32;\n}\n\n\
         export enum Color {\n    Red = 1,\n    Green { r: u64 }\n}\n\n\
         export error E { A, B }\n\n\
         import { x, y } from \"./m\";\n"
    );
}

#[test]
fn trait_signatures() {
    let out = emit("trait T { fn a(x: string); fn b(): ?i32; }");
    assert_eq!(out, "// Type definitions for CP\n\nexport trait T {\n    fn a(x: string);\n    fn b(): !i32;\n}\n\n");
}

#[test]
fn enum_value_in_decimal() {
    let out = emit("enum N { Low = 0, High = 9223372036854775807 }");
    assert!(out.contains("    Low = 0,\n    High = 9223372036854775807\n"));
}

#[test]
fn output_accumulates() {
    let m = Parser::new("fn a() {}").parse_module().unwrap();
    let mut e = DcpEmitter::new();
    let first = e.emit_module(&m);
    let second = e.emit_module(&m);
    assert_eq!(second, format!("{}{}", first, first));
}

#[test]
fn format_of_composite_types() {
    let e = DcpEmitter::new();
    let map = Type::MapOf(Box::new(Type::String), Box::new(Type::Tuple(vec![Type::I32, Type::Bool])));
    assert_eq!(e.format_type(&map), "Map<string, [i32, bool]>");
    let f = Type::Fn(vec![Type::I32, Type::PID], Box::new(Type::Void));
    assert_eq!(e.format_type(&f), "(i32, PID) => void");
    let obj = Type::Object(vec![Field {
        span: Span { start: 0, end: 0 },
        ident: Ident { span: Span { start: 0, end: 0 }, sym: "a".to_string() },
        ty: Type::Optional(Box::new(Type::U32)),
    }]);
    assert_eq!(e.format_type(&obj), "{ a: ?u32 }");
    assert_eq!(e.format_type(&Type::ErrorUnion(Box::new(Type::Array(Box::new(Type::F64))))), "![]f64");
    assert_eq!(e.format_type(&Type::Tuple(vec![])), "[]");
    assert_eq!(e.format_type(&Type::Unknown), "unknown");
}

#[test]
fn emit_params_and_import_directly() {
    let m = Parser::new("fn f(a: i32, b: bool) {}").parse_module().unwrap();
    let mut e = DcpEmitter::new();
    match &m.body[0] {
        cpc::ast::ModuleItem::Decl(cpc::ast::Decl::Func(f)) => e.emit_params(&f.params),
        _ => panic!("not a function"),
    }
    let m2 = Parser::new("import { q } from \"cap:io\"").parse_module().unwrap();
    match &m2.body[0] {
        cpc::ast::ModuleItem::Import(imp) => e.emit_import(imp),
        _ => panic!("not an import"),
    }
    let out = e.emit_module(&Parser::new("").parse_module().unwrap());
    assert_eq!(out, "a: i32, b: boolimport { q } from \"cap:io\";\n// Type definitions for CP\n\n");
}

#[test]
fn emitted_signature_reads_back() {
    let sp = Span { start: 0, end: 0 };
    let id = |s: &str| Ident { span: sp, sym: s.to_string() };
    let param = |n: &str, ty: Type| Param { span: sp, ident: id(n), ty, is_comptime: false };
    let f = Function {
        span: sp,
        ident: id("send"),
        params: vec![param("to", Type::Ref(id("Peer"))), param("n", Type::U64), param("ok", Type::Bool)],
        return_type: Some(Type::String),
        body: BlockStmt { span: sp, body: vec![] },
        is_async: true,
    };
    let module = Module { span: sp, body: vec![ModuleItem::Decl(Decl::Func(f))] };
    let text = DcpEmitter::new().emit_module(&module);
    assert_eq!(text, "// Type definitions for CP\n\nexport async fn send(to: Peer, n: u64, ok: bool): string;\n");
    let back = Parser::new(&text).parse_module().unwrap();
    assert_eq!(back.body.len(), 1);
    match &back.body[0] {
        ModuleItem::Decl(Decl::Func(g)) => {
            assert_eq!(g.ident.sym, "send");
            assert!(g.is_async);
            assert!(g.body.body.is_empty());
            let names: Vec<&str> = g.params.iter().map(|p| p.ident.sym.as_str()).collect();
            assert_eq!(names, vec!["to", "n", "ok"]);
            assert!(matches!(&g.params[0].ty, Type::Ref(x) if x.sym == "Peer"));
            assert!(matches!(g.params[1].ty, Type::U64));
            assert!(matches!(g.params[2].ty, Type::Bool));
            assert!(matches!(g.return_type, Some(Type::String)));
        }
        _ => panic!("expected a function"),
    }
}

#[test]
fn emitted_tuple_and_object_types_read_back() {
    let sp = Span { start: 0, end: 0 };
    let id = |s: &str| Ident { span: sp, sym: s.to_string() };
    let field = |n: &str, ty: Type| Field { span: sp, ident: id(n), ty };
    let param = |n: &str, ty: Type| Param { span: sp, ident: id(n), ty, is_comptime: false };
    let f = Function {
        span: sp,
        ident: id("load"),
        params: vec![
            param("pair", Type::Tuple(vec![Type::I32, Type::String])),
            param("opts", Type::Object(vec![field("a", Type::Bool), field("b", Type::Tuple(vec![]))])),
            param("none", Type::Object(vec![])),
        ],
        return_type: Some(Type::Object(vec![field("ok", Type::Ref(id("Res")))])),
        body: BlockStmt { span: sp, body: vec![] },
        is_async: false,
    };
    let module = Module { span: sp, body: vec![ModuleItem::Decl(Decl::Func(f))] };
    let text = DcpEmitter::new().emit_module(&module);
    assert_eq!(
        text,
        "// Type definitions for CP\n\nexport fn load(pair: [i32, string], opts: { a: bool, b: [] }, none: {  }): { ok: Res };\n"
    );
    let back = Parser::new(&text).parse_module().unwrap();
    assert_eq!(back.body.len(), 1);
    match &back.body[0] {
        ModuleItem::Decl(Decl::Func(g)) => {
            assert_eq!(g.ident.sym, "load");
            assert!(!g.is_async);
            assert!(g.body.body.is_empty());
            assert_eq!(g.params.len(), 3);
            match &g.params[0].ty {
                Type::Tuple(ts) => {
                    assert_eq!(ts.len(), 2);
                    assert!(matches!(ts[0], Type::I32));
                    assert!(matches!(ts[1], Type::String));
                }
                _ => panic!("expected a tuple"),
            }
            match &g.params[1].ty {
                Type::Object(fs) => {
                    assert_eq!(fs.len(), 2);
                    assert_eq!(fs[0].ident.sym, "a");
                    assert!(matches!(fs[0].ty, Type::Bool));
                    assert_eq!(fs[1].ident.sym, "b");
                    assert!(matches!(&fs[1].ty, Type::Tuple(x) if x.is_empty()));
                }
                _ => panic!("expected an object"),
            }
            assert!(matches!(&g.params[2].ty, Type::Object(x) if x.is_empty()));
            match &g.return_type {
                Some(Type::Object(fs)) => {
                    assert_eq!(fs.len(), 1);
                    assert_eq!(fs[0].ident.sym, "ok");
                    assert!(matches!(&fs[0].ty, Type::Ref(x) if x.sym == "Res"));
                }
                _ => panic!("expected an object return type"),
            }
        }
        _ => panic!("expected a function"),
    }
}

#[test]
fn emit_decl_appends_to_what_was_emitted() {
    let sp = Span { start: 0, end: 0 };
    let id = |s: &str| Ident { span: sp, sym: s.to_string() };
    let mut e = DcpEmitter::new();
    e.emit_decl(&Decl::ErrorSet(cpc::ast::ErrorSetDecl { span: sp, ident: id("E"), variants: vec![id("A"), id("B")] }));
    e.emit_decl(&Decl::Impl(cpc::ast::ImplDecl { span: sp, trait_name: id("T"), target_name: id("X"), methods: vec![] }));
    e.emit_decl(&Decl::ErrorSet(cpc::ast::ErrorSetDecl { span: sp, ident: id("F"), variants: vec![] }));
    let out = e.emit_module(&Parser::new("").parse_module().unwrap());
    assert_eq!(out, "export error E { A, B }\n\nexport error F {  }\n\n// Type definitions for CP\n\n");
}

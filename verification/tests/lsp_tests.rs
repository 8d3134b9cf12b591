use cpc::ast::{Ident, Type};
use cpc::lsp::{analyze_document, completion_items, format_symbol_kind, format_type, hover_text, position_to_offset};
use cpc::parser::Parser;
use cpc::sema::SymbolKind;
use cpc::Span;

#[test]
fn offsets_of_positions() {
    assert_eq!(position_to_offset("ab\ncd", 0, 0), Some(0));
    assert_eq!(position_to_offset("ab\ncd", 1, 1), Some(4));
    // `é` takes two bytes.
    assert_eq!(position_to_offset("é\nx", 1, 0), Some(3));
    // Past the last character, and past the end of a line.
    assert_eq!(position_to_offset("ab", 0, 2), None);
    assert_eq!(position_to_offset("ab\ncd", 0, 5), None);
    assert_eq!(position_to_offset("", 0, 0), None);
}

#[test]
fn hover_shows_the_symbol_at_the_position() {
    let text = "let x = 1;\nx;";
    let module = Parser::new(text).parse_module().unwrap();
    let deps = Parser::new("").parse_module().unwrap();
    let (analyzer, res) = analyze_document(&deps, &module);
    assert!(res.is_ok());
    assert_eq!(hover_text(&analyzer, text, 1, 0), Some("(variable) i32".to_string()));
    assert_eq!(hover_text(&analyzer, text, 0, 0), None);
    assert_eq!(hover_text(&analyzer, text, 7, 0), None);
}

#[test]
fn dependencies_are_analyzed_first() {
    let deps = Parser::new("fn helper(a: i32): string {}").parse_module().unwrap();
    let text = "helper(1);";
    let module = Parser::new(text).parse_module().unwrap();
    let (analyzer, res) = analyze_document(&deps, &module);
    assert!(res.is_ok());
    assert_eq!(hover_text(&analyzer, text, 0, 3), Some("fn (i32): string".to_string()));
}

#[test]
fn document_errors_are_reported_and_the_analyzer_kept() {
    let text = "let a = 1;\na;\nb;";
    let module = Parser::new(text).parse_module().unwrap();
    let deps = Parser::new("").parse_module().unwrap();
    let (analyzer, res) = analyze_document(&deps, &module);
    assert!(res.is_err());
    assert_eq!(hover_text(&analyzer, text, 1, 0), Some("(variable) i32".to_string()));
}

#[test]
fn hover_formats() {
    let t = Type::Optional(Box::new(Type::Array(Box::new(Type::Ref(Ident {
        span: Span { start: 0, end: 0 },
        sym: "Node".to_string(),
    })))));
    assert_eq!(format_type(&t), "?[]Node");
    assert_eq!(format_type(&Type::U32), "unknown");
    assert_eq!(format_type(&Type::Tuple(vec![Type::I32])), "unknown");
    let f = SymbolKind::Func { params: vec![Type::I32, Type::Bool], ret: None, is_async: true };
    assert_eq!(format_symbol_kind(&f), "async fn (i32, bool)");
    let v = SymbolKind::Var { ty: Type::ErrorUnion(Box::new(Type::String)), kind: cpc::ast::VarDeclKind::Const };
    assert_eq!(format_symbol_kind(&v), "(variable) !string");
}

#[test]
fn completions() {
    let items = completion_items();
    assert_eq!(items.len(), 21);
    assert_eq!(items[0], ("fn".to_string(), "Function definition".to_string()));
    assert_eq!(items[20], ("cap:actor".to_string(), "Standard Actor library".to_string()));
}

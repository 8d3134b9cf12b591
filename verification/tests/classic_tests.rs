use cpc::ast::{Decl, Expr, ModuleItem, Pattern, Stmt, Type};
use cpc::classic::lsp::{diagnose, Diagnosis};
use cpc::classic::parser::{ParseError, Parser};
use cpc::classic::sema::{Analyzer, SemaError};
use cpc::lexer::Token;
use cpc::Span;

#[test]
fn test_parse_slice() {
    let input = "let s = arr[0..5];";
    let mut parser = Parser::new(input);
    let module = parser.parse_module().unwrap();
    assert_eq!(module.body.len(), 1);
}

#[test]
fn test_parse_arrow_shorthand() {
    let input = "let f = x => x * 2;";
    let mut parser = Parser::new(input);
    let module = parser.parse_module().unwrap();
    assert_eq!(module.body.len(), 1);
}

fn parse(input: &str) -> Result<cpc::ast::Module, ParseError> {
    Parser::new(input).parse_module()
}

fn analyze(input: &str) -> Result<(), SemaError> {
    let module = parse(input).unwrap();
    Analyzer::new().analyze_module(&module)
}

#[test]
fn classic_slice_and_arrow_shapes() {
    let m = parse("let s = arr[0..5];").unwrap();
    match &m.body[0] {
        ModuleItem::Stmt(Stmt::Var(v)) => match v.init.as_ref().unwrap() {
            Expr::Slice(s) => {
                assert!(s.start.is_some() && s.end.is_some());
                assert_eq!(s.span, Span { start: 8, end: 17 });
            }
            other => panic!("not a slice: {:?}", other),
        },
        other => panic!("not a declaration: {:?}", other),
    }
    let m = parse("let f = x => x * 2;").unwrap();
    match &m.body[0] {
        ModuleItem::Stmt(Stmt::Var(v)) => match v.init.as_ref().unwrap() {
            Expr::Arrow(a) => {
                assert_eq!(a.params.len(), 1);
                assert!(matches!(&a.params[0], Pattern::Ident(id) if id.sym == "x"));
            }
            other => panic!("not an arrow: {:?}", other),
        },
        other => panic!("not a declaration: {:?}", other),
    }
}

#[test]
fn classic_var_decl_span_ends_at_next_token() {
    let m = parse("let x: i32; y;").unwrap();
    match &m.body[0] {
        ModuleItem::Stmt(Stmt::Var(v)) => {
            assert!(v.init.is_none());
            assert_eq!(v.ty, Some(Type::I32));
            assert_eq!(v.span, Span { start: 0, end: 13 });
        }
        other => panic!("not a declaration: {:?}", other),
    }
    assert_eq!(m.span, Span { start: 0, end: 0 });
}

#[test]
fn classic_class_with_interfaces_fields_and_methods() {
    let m = parse("class A implements I, J { x: i32; fn f(a: []i32): pid { } }").unwrap();
    match &m.body[0] {
        ModuleItem::Decl(Decl::Class(c)) => {
            assert_eq!(c.ident.sym, "A");
            let names: Vec<&str> = c.implements.iter().map(|i| i.sym.as_str()).collect();
            assert_eq!(names, vec!["I", "J"]);
            assert_eq!(c.fields.len(), 1);
            assert_eq!(c.fields[0].ty, Type::I32);
            assert_eq!(c.methods.len(), 1);
            assert_eq!(c.methods[0].params[0].ty, Type::Array(Box::new(Type::I32)));
            assert_eq!(c.methods[0].return_type, Some(Type::PID));
        }
        other => panic!("not a class: {:?}", other),
    }
}

#[test]
fn classic_interface_signatures() {
    let m = parse("interface I { fn f(a: i32): i32; fn g(); }").unwrap();
    match &m.body[0] {
        ModuleItem::Decl(Decl::Interface(i)) => {
            assert_eq!(i.methods.len(), 2);
            assert_eq!(i.methods[0].ident.sym, "f");
            assert_eq!(i.methods[0].return_type, Some(Type::I32));
            assert_eq!(i.methods[1].params.len(), 0);
        }
        other => panic!("not an interface: {:?}", other),
    }
}

#[test]
fn classic_array_pattern() {
    let m = parse("let [a, b] = xs;").unwrap();
    match &m.body[0] {
        ModuleItem::Stmt(Stmt::Var(v)) => assert!(matches!(&v.pat, Pattern::Array(ps) if ps.len() == 2)),
        other => panic!("not a declaration: {:?}", other),
    }
}

#[test]
fn classic_zig_code_runs_to_the_next_token() {
    let m = parse("__zig__ { a } b").unwrap();
    match &m.body[0] {
        ModuleItem::Stmt(Stmt::Expr(Expr::Zig(z))) => assert_eq!(z.code, "a }"),
        other => panic!("not a zig block: {:?}", other),
    }
}

#[test]
fn classic_parse_errors() {
    assert!(matches!(parse("let"), Err(ParseError::UnexpectedEof)));
    match parse("fn 1") {
        Err(ParseError::ExpectedToken(Token::Ident(s), Token::IntLiteral(1), sp)) => {
            assert_eq!(s, "Ident");
            assert_eq!(sp, Span { start: 3, end: 4 });
        }
        other => panic!("unexpected: {:?}", other),
    }
    match parse("if (x) {}") {
        Err(ParseError::UnexpectedToken(Token::If, sp)) => assert_eq!(sp, Span { start: 0, end: 2 }),
        other => panic!("unexpected: {:?}", other),
    }
    match parse("let x = 1") {
        Err(ParseError::UnexpectedEof) => {}
        other => panic!("unexpected: {:?}", other),
    }
}

#[test]
fn classic_sema_accepts_valid_programs() {
    assert!(analyze("let x = 1; let y: i32 = x; reply(y, 2);").is_ok());
    assert!(analyze("interface I { fn f(); } class A implements I { fn f() { } } let a: I = new A();").is_ok());
    assert!(analyze("let [a, b] = [1, 2]; a;").is_ok());
    assert!(analyze("let s: string = \"hi\"; let n: usize = s.length;").is_ok());
}

#[test]
fn classic_sema_refuses_duplicates() {
    match analyze("let x = 1; let x = 2;") {
        Err(SemaError::DuplicateSymbol(n, sp)) => {
            assert_eq!(n, "x");
            assert_eq!(sp, Span { start: 15, end: 16 });
        }
        other => panic!("unexpected: {:?}", other),
    }
}

#[test]
fn classic_sema_errors() {
    assert!(matches!(analyze("let x;"), Err(SemaError::MissingType(_))));
    assert!(matches!(analyze("let x: string = 1;"), Err(SemaError::TypeMismatch(Type::String, Type::I32, _))));
    assert!(matches!(analyze("while (1) { }"), Err(SemaError::TypeMismatch(Type::Bool, Type::I32, _))));
    match analyze("y;") {
        Err(SemaError::UndefinedSymbol(n, sp)) => {
            assert_eq!(n, "y");
            assert_eq!(sp, Span { start: 0, end: 1 });
        }
        other => panic!("unexpected: {:?}", other),
    }
    match analyze("interface I { fn f(); } class A implements I { }") {
        Err(SemaError::InterfaceNotSatisfied(c, i, m, _)) => {
            assert_eq!((c.as_str(), i.as_str(), m.as_str()), ("A", "I", "f"));
        }
        other => panic!("unexpected: {:?}", other),
    }
    assert!(matches!(analyze("class A implements J { }"), Err(SemaError::UndefinedSymbol(n, _)) if n == "J"));
    assert!(matches!(analyze("let x = 1; x();"), Err(SemaError::NotAFunction(_))));
}

#[test]
fn classic_completion_items() {
    let items = cpc::classic::lsp::completion_items();
    let labels: Vec<&str> = items.iter().map(|(l, _)| l.as_str()).collect();
    assert_eq!(labels, vec!["fn", "actor", "trait", "@matmul"]);
    assert_eq!(items[3].1, "Matrix Multiplication");
}

#[test]
fn classic_diagnosis_of_documents() {
    assert!(diagnose(&mut Parser::new("let x = 1;")).is_none());
    assert!(matches!(diagnose(&mut Parser::new("let")), Some(Diagnosis::Parse(ParseError::UnexpectedEof))));
    assert!(matches!(
        diagnose(&mut Parser::new("let x = 1; let x = 2;")),
        Some(Diagnosis::Sema(SemaError::DuplicateSymbol(_, _)))
    ));
}

#[test]
fn classic_abort_is_detected() {
    assert!(Parser::new("__zig__ { a }").aborts_exec());
    assert!(!Parser::new("__zig__ { a } b").aborts_exec());
    assert!(!Parser::new("__zig__ {").aborts_exec());
    assert!(!Parser::new("let x = 1;").aborts_exec());
}

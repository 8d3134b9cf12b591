use cpc::ast::{BinaryOp, Decl, Expr, ModuleItem, Pattern, Stmt, Type};
use cpc::lexer::Token;
use cpc::parser::{ParseError, Parser};
use cpc::Span;

#[test]
fn cpc_parse_slice() {
    let input = "let s = arr[0..5];";
    let mut parser = Parser::new(input);
    let module = parser.parse_module().unwrap();
    assert_eq!(module.body.len(), 1);
}

#[test]
fn cpc_parse_arrow_shorthand() {
    let input = "let f = x => x * 2;";
    let mut parser = Parser::new(input);
    let module = parser.parse_module().unwrap();
    assert_eq!(module.body.len(), 1);
}

fn parse(input: &str) -> Result<cpc::ast::Module, ParseError> {
    Parser::new(input).parse_module()
}

#[test]
fn slice_has_both_bounds() {
    let m = parse("let s = arr[0..5];").unwrap();
    match &m.body[0] {
        ModuleItem::Stmt(Stmt::Var(v)) => match v.init.as_ref().unwrap() {
            Expr::Slice(s) => {
                assert!(s.start.is_some());
                assert!(s.end.is_some());
                assert_eq!(s.span, Span { start: 8, end: 17 });
            }
            other => panic!("not a slice: {:?}", other),
        },
        other => panic!("not a declaration: {:?}", other),
    }
}

#[test]
fn binary_operators_bind_by_precedence() {
    let m = parse("a + b * c;").unwrap();
    match &m.body[0] {
        ModuleItem::Stmt(Stmt::Expr(Expr::Bin(b))) => {
            assert_eq!(b.op, BinaryOp::Add);
            match &*b.right {
                Expr::Bin(r) => assert_eq!(r.op, BinaryOp::Mul),
                other => panic!("right side: {:?}", other),
            }
        }
        other => panic!("not a binary expression: {:?}", other),
    }
}

#[test]
fn arrow_function_with_parameters() {
    let m = parse("let f = (a: i32, b) => a;").unwrap();
    match &m.body[0] {
        ModuleItem::Stmt(Stmt::Var(v)) => match v.init.as_ref().unwrap() {
            Expr::Arrow(a) => {
                assert_eq!(a.params.len(), 2);
                assert!(matches!(&a.params[0], Pattern::Ident(id) if id.sym == "a"));
            }
            other => panic!("not an arrow: {:?}", other),
        },
        other => panic!("not a declaration: {:?}", other),
    }
}

#[test]
fn function_declaration() {
    let m = parse("async fn f(this, x: ?i32): string { return x; }").unwrap();
    match &m.body[0] {
        ModuleItem::Decl(Decl::Func(f)) => {
            assert!(f.is_async);
            assert_eq!(f.ident.sym, "f");
            assert_eq!(f.params.len(), 2);
            assert_eq!(f.params[0].ty, Type::Any);
            assert_eq!(f.params[1].ty, Type::ErrorUnion(Box::new(Type::I32)));
            assert_eq!(f.return_type, Some(Type::String));
            assert_eq!(f.body.body.len(), 1);
        }
        other => panic!("not a function: {:?}", other),
    }
}

#[test]
fn import_source_is_unquoted() {
    let m = parse("import { a, b } from \"cap:io\";").unwrap();
    match &m.body[0] {
        ModuleItem::Import(i) => {
            assert_eq!(i.source, "cap:io");
            assert_eq!(i.specifiers.len(), 2);
        }
        other => panic!("not an import: {:?}", other),
    }
}

#[test]
fn zig_escape_keeps_raw_code() {
    let m = parse("__zig__ {  const x = 1; { } }").unwrap();
    match &m.body[0] {
        ModuleItem::Stmt(Stmt::Expr(Expr::Zig(z))) => assert_eq!(z.code, "const x = 1; { }"),
        other => panic!("not raw code: {:?}", other),
    }
}

#[test]
fn end_of_input_error() {
    assert!(matches!(parse("let x ="), Err(ParseError::EndOfInput)));
}

#[test]
fn expected_token_error() {
    match parse("let x 1;") {
        Err(ParseError::ExpectedToken(expected, found, span)) => {
            assert_eq!(expected, Token::Assign);
            assert_eq!(found, Token::IntLiteral(1));
            assert_eq!(span, Span { start: 6, end: 7 });
        }
        other => panic!("unexpected result: {:?}", other),
    }
}

#[test]
fn unexpected_token_error() {
    match parse(") ;") {
        Err(ParseError::UnexpectedToken(found, span)) => {
            assert_eq!(found, Token::RParen);
            assert_eq!(span, Span { start: 0, end: 1 });
        }
        other => panic!("unexpected result: {:?}", other),
    }
}

#[test]
fn interface_is_refused_with_the_next_span() {
    match parse("interface I {}") {
        Err(ParseError::UnexpectedToken(found, span)) => {
            assert_eq!(found, Token::Interface);
            assert_eq!(span, Span { start: 10, end: 11 });
        }
        other => panic!("unexpected result: {:?}", other),
    }
}

#[test]
fn identifier_expected_error() {
    match parse("fn (") {
        Err(ParseError::ExpectedToken(expected, found, _)) => {
            assert_eq!(expected, Token::Ident("Ident".to_string()));
            assert_eq!(found, Token::LParen);
        }
        other => panic!("unexpected result: {:?}", other),
    }
}

use cpc::ast::Type;
use cpc::parser::Parser;
use cpc::sema::{Analyzer, SemaError};
use cpc::Span;

fn analyze(input: &str) -> Result<(), SemaError> {
    let module = Parser::new(input).parse_module().unwrap();
    let mut analyzer = Analyzer::new();
    analyzer.analyze_module(&module)
}

#[test]
fn well_typed_module_passes() {
    assert!(analyze("let x = 1; let y = x + 2; y;").is_ok());
}

#[test]
fn undefined_symbol() {
    match analyze("y;") {
        Err(SemaError::UndefinedSymbol(name, span)) => {
            assert_eq!(name, "y");
            assert_eq!(span, Span { start: 0, end: 1 });
        }
        other => panic!("unexpected result: {:?}", other),
    }
}

#[test]
fn const_assignment() {
    match analyze("const c = 1; c = 2;") {
        Err(SemaError::ConstAssignment(name, span)) => {
            assert_eq!(name, "c");
            // The span ends where a literal's span ends: at 0.
            assert_eq!(span, Span { start: 13, end: 0 });
        }
        other => panic!("unexpected result: {:?}", other),
    }
}

#[test]
fn type_mismatch_in_arithmetic() {
    match analyze("let a = 1; let b = \"s\"; a + b;") {
        Err(SemaError::TypeMismatch(l, r, _)) => {
            assert_eq!(l, Type::I32);
            assert_eq!(r, Type::String);
        }
        other => panic!("unexpected result: {:?}", other),
    }
}

#[test]
fn comparison_is_bool_whatever_the_operands() {
    assert!(analyze("let a = 1; let b = \"s\"; let c: bool = a < b;").is_ok());
}

#[test]
fn calling_a_variable_is_an_error() {
    assert!(matches!(analyze("let x = 5; x();"), Err(SemaError::NotAFunction(_))));
}

#[test]
fn await_outside_async() {
    assert!(matches!(analyze("fn g() {} fn f() { await g(); }"), Err(SemaError::AwaitOutsideAsync(_))));
    assert!(analyze("fn g() {} async fn f() { await g(); }").is_ok());
}

#[test]
fn tuple_pattern_needs_a_tuple() {
    match analyze("let [a, b] = 5;") {
        Err(SemaError::TypeMismatch(expected, found, span)) => {
            assert_eq!(expected, Type::Tuple(vec![]));
            assert_eq!(found, Type::I32);
            assert_eq!(span, Span { start: 0, end: 0 });
        }
        other => panic!("unexpected result: {:?}", other),
    }
    assert!(analyze("let [a, b] = [1, \"s\"]; a + 1;").is_ok());
}

#[test]
fn new_needs_a_declared_class() {
    assert!(matches!(analyze("new Foo();"), Err(SemaError::UndefinedSymbol(name, _)) if name == "Class"));
    assert!(analyze("class Foo { x: i32 } let f = new Foo();").is_ok());
}

#[test]
fn parameters_are_in_scope() {
    assert!(analyze("fn f(a: i32) { return a; }").is_ok());
    assert!(matches!(analyze("fn f(a: i32) { return b; }"), Err(SemaError::UndefinedSymbol(name, _)) if name == "b"));
}

#[test]
fn block_scope_ends() {
    assert!(matches!(analyze("{ let a = 1; } a;"), Err(SemaError::UndefinedSymbol(name, _)) if name == "a"));
}

#[test]
fn symbols_are_recorded_at_names() {
    let module = Parser::new("let x = 1; x;").parse_module().unwrap();
    let mut analyzer = Analyzer::new();
    analyzer.analyze_module(&module).unwrap();
    let spans: Vec<Span> = analyzer.symbols().iter().map(|(s, _)| *s).collect();
    assert_eq!(spans, vec![Span { start: 11, end: 12 }]);
}

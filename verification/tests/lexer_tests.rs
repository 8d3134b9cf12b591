use cpc::lexer::{Dialect, Lexer, Token};

#[test]
fn test_basic_lexing() {
    let input = "let x: i32 = 42;";
    let mut lexer = Lexer::new(input);

    assert_eq!(lexer.next().unwrap().0, Token::Let);
    assert_eq!(lexer.next().unwrap().0, Token::Ident("x".to_string()));
    assert_eq!(lexer.next().unwrap().0, Token::Colon);
    assert_eq!(lexer.next().unwrap().0, Token::I32);
    assert_eq!(lexer.next().unwrap().0, Token::Assign);
    assert_eq!(lexer.next().unwrap().0, Token::IntLiteral(42));
    assert_eq!(lexer.next().unwrap().0, Token::Semicolon);
}

#[test]
fn test_rfc_features() {
    let input = "spawn aiWorker(); match result { Ok(v) => reply(v), Err(_) => ? }";
    let mut lexer = Lexer::new(input);

    let mut tokens: Vec<Token> = Vec::new();
    while let Some((t, _)) = lexer.next() {
        tokens.push(t);
    }
    assert!(tokens.contains(&Token::Spawn));
    assert!(tokens.contains(&Token::Match));
    assert!(tokens.contains(&Token::FatArrow));
    assert!(tokens.contains(&Token::Question));
}

fn all_tokens(input: &str, d: Dialect) -> Vec<(Token, std::ops::Range<usize>)> {
    let mut lexer = Lexer::with_dialect(input, d);
    let mut v = Vec::new();
    while let Some(t) = lexer.next() {
        v.push(t);
    }
    v
}

#[test]
fn spans_are_byte_ranges() {
    let v = all_tokens("é + ab", Dialect::Cpc);
    // `é` is no token; it is reported as an error token two bytes wide.
    assert_eq!(v[0], (Token::Error, 0..2));
    assert_eq!(v[1], (Token::Plus, 3..4));
    assert_eq!(v[2], (Token::Ident("ab".to_string()), 5..7));
    assert_eq!(v.len(), 3);
}

#[test]
fn string_literals_by_dialect() {
    let classic = all_tokens("\"hi\"", Dialect::Classic);
    assert_eq!(classic, vec![(Token::StringLiteral("\"hi\"".to_string()), 0..4)]);
    let cpc = all_tokens("\"hi\"", Dialect::Cpc);
    assert_eq!(cpc, vec![(Token::StringLiteral("hi".to_string()), 0..4)]);
}

#[test]
fn keywords_of_the_cpc_dialect() {
    let classic = all_tokens("export any", Dialect::Classic);
    assert_eq!(classic[0].0, Token::Ident("export".to_string()));
    assert_eq!(classic[1].0, Token::Ident("any".to_string()));
    let cpc = all_tokens("export any", Dialect::Cpc);
    assert_eq!(cpc[0].0, Token::Export);
    assert_eq!(cpc[1].0, Token::Any);
}

#[test]
fn longest_match_and_comments() {
    let v = all_tokens("a..b => c // note\n<= ==", Dialect::Cpc);
    let toks: Vec<Token> = v.into_iter().map(|(t, _)| t).collect();
    assert_eq!(
        toks,
        vec![
            Token::Ident("a".to_string()),
            Token::DotDot,
            Token::Ident("b".to_string()),
            Token::FatArrow,
            Token::Ident("c".to_string()),
            Token::LessEq,
            Token::Eq,
        ]
    );
}

#[test]
fn integer_overflow_is_an_error_token() {
    let v = all_tokens("9223372036854775807 9223372036854775808", Dialect::Cpc);
    assert_eq!(v[0].0, Token::IntLiteral(9223372036854775807));
    assert_eq!(v[1].0, Token::Error);
}

#[test]
fn float_literal_keeps_its_text() {
    let v = all_tokens("3.25", Dialect::Cpc);
    assert_eq!(v, vec![(Token::FloatLiteral("3.25".to_string()), 0..4)]);
}

#[test]
fn empty_input_has_no_tokens() {
    assert!(all_tokens("   \n\t", Dialect::Cpc).is_empty());
}

#[test]
fn successive_tokens_rise_and_leave_only_trivia() {
    let input = "let x = 1; // note\n\tfoo(\"s\")";
    let toks = all_tokens(input, Dialect::Cpc);
    assert!(toks.len() <= input.len());
    let mut last_end = 0;
    for (_, r) in &toks {
        assert!(r.start < r.end && r.end <= input.len());
        assert!(last_end <= r.start);
        let gap = &input[last_end..r.start];
        let gap_ok = gap.chars().all(|c| c == ' ' || c == '\t' || c == '\n' || c == '\x0c') || gap.trim_start().starts_with("//");
        assert!(gap_ok, "unexpected text between tokens: {:?}", gap);
        last_end = r.end;
    }
    assert_eq!(toks.len(), 9);
}

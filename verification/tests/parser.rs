use xluau::ast::{Pattern, Stmt};
use xluau::compiler::CompilerError;
use xluau::parser::{parse_program, tokenize, Token, TokenKind};

fn summary(toks: &[Token]) -> Vec<(TokenKind, String, usize, usize, usize, usize)> {
    toks.iter()
        .map(|t| (t.kind, t.text.clone(), t.start, t.end, t.line, t.column))
        .collect()
}

fn lex_message(source: &str) -> String {
    match tokenize(source) {
        Err(CompilerError::Lex { message }) => message,
        other => panic!("expected a lex error, got {:?}", other.map(|t| t.len())),
    }
}

#[test]
fn tokens_carry_kind_text_span_line_and_column() {
    let toks = tokenize("local x = 1.5e+3 ?? 'a'\n  y ..= [[b]]").unwrap();
    let expected = vec![
        (TokenKind::Name, "local".to_string(), 0, 5, 1, 1),
        (TokenKind::Name, "x".to_string(), 6, 7, 1, 7),
        (TokenKind::Symbol, "=".to_string(), 8, 9, 1, 9),
        (TokenKind::Number, "1.5e+3".to_string(), 10, 16, 1, 11),
        (TokenKind::Symbol, "??".to_string(), 17, 19, 1, 18),
        (TokenKind::Str, "'a'".to_string(), 20, 23, 1, 21),
        (TokenKind::Name, "y".to_string(), 26, 27, 2, 3),
        (TokenKind::Symbol, "..=".to_string(), 28, 31, 2, 5),
        (TokenKind::Str, "[[b]]".to_string(), 32, 37, 2, 9),
        (TokenKind::Eof, String::new(), 37, 37, 2, 14),
    ];
    assert_eq!(summary(&toks), expected);
}

#[test]
fn comments_are_skipped_and_long_ones_count_their_lines() {
    let toks = tokenize("-- note\n--[==[ a\nb ]==] z").unwrap();
    assert_eq!(
        summary(&toks),
        vec![
            (TokenKind::Name, "z".to_string(), 24, 25, 3, 8),
            (TokenKind::Eof, String::new(), 25, 25, 3, 9),
        ]
    );
}

#[test]
fn empty_source_is_only_the_end_token() {
    let toks = tokenize("").unwrap();
    assert_eq!(summary(&toks), vec![(TokenKind::Eof, String::new(), 0, 0, 1, 1)]);
}

#[test]
fn lex_errors_name_the_cause_and_position() {
    assert_eq!(lex_message("x = \"open"), "unterminated string at 1:5");
    assert_eq!(lex_message("a\n  'b\nc'"), "unterminated string at 2:3");
    assert_eq!(lex_message("--[[ never closed"), "unterminated comment at 1:1");
    assert_eq!(lex_message("x = [==[ a ]=]"), "unterminated string at 1:5");
    assert_eq!(lex_message("x = $"), "unexpected character at 1:5");
}

#[test]
fn an_escaped_quote_does_not_end_a_string() {
    let toks = tokenize("\"a\\\"b\"").unwrap();
    assert_eq!(toks[0].text, "\"a\\\"b\"");
    assert_eq!(toks.len(), 2);
}

#[test]
fn parse_program_reports_lex_errors_as_such() {
    match parse_program("local s = `open") {
        Err(CompilerError::Lex { message }) => assert_eq!(message, "unterminated string at 1:11"),
        _ => panic!("expected a lex error"),
    }
    assert!(matches!(parse_program("local = 1"), Err(CompilerError::Parse { .. })));
    assert!(parse_program("local a = 1").is_ok());
}

#[test]
fn parse_errors_name_the_token_found_and_its_position() {
    match parse_program("local = 1") {
        Err(CompilerError::Parse { message }) => {
            assert!(message.starts_with("expected "));
            assert!(message.ends_with(" but found '=' at 1:7"), "{message}");
        }
        _ => panic!("expected a parse error"),
    }
    match parse_program("local a =") {
        Err(CompilerError::Parse { message }) => {
            assert!(message.ends_with(" but found end of input at 1:10"), "{message}");
        }
        _ => panic!("expected a parse error"),
    }
    match parse_program("x = 1 end") {
        Err(CompilerError::Parse { message }) => {
            assert_eq!(message, "expected end of input but found 'end' at 1:7");
        }
        _ => panic!("expected a parse error"),
    }
}

#[test]
fn only_a_source_without_statements_parses_to_the_empty_program() {
    assert!(parse_program("").unwrap().block.is_empty());
    assert!(parse_program(" ; ;\n-- note\n;").unwrap().block.is_empty());
    assert_eq!(parse_program("; local a = 1 ;").unwrap().block.len(), 1);
}

#[test]
fn a_source_of_local_declarations_parses_to_exactly_those() {
    let program = parse_program("local a; local b\n;local c").unwrap();
    let names: Vec<String> = program
        .block
        .iter()
        .map(|s| match s {
            Stmt::Local(d) if !d.is_const && d.values.is_empty() && d.bindings.len() == 1 => {
                match &d.bindings[0].pattern {
                    Pattern::Name(n) => n.clone(),
                    _ => panic!("not a name"),
                }
            }
            _ => panic!("not a plain local"),
        })
        .collect();
    assert_eq!(names, vec!["a", "b", "c"]);
}

use xluau::document::{
    const_keyword_range, document_declarations, identifier_rename_edits, member_completion_items, is_require_string_token, require_rename_edits, token_at_offset,
    token_range, TextRange,
};
use xluau::parser::{parse_program, tokenize, TokenKind};
use xluau::tooling::decode_string_lexeme;

#[test]
fn detects_require_string_tokens() {
    let source = r#"local math = require("@shared/math")"#;
    let tokens = tokenize(source).unwrap();
    let token_index = tokens
        .iter()
        .position(|token| token.kind == TokenKind::Str)
        .expect("string token");
    assert!(is_require_string_token(&tokens, token_index));
    assert_eq!(decode_string_lexeme(&tokens[token_index].text), "@shared/math");
}

#[test]
fn token_ranges_cover_identifier_text() {
    let source = "local hero = 1";
    let tokens = tokenize(source).unwrap();
    let offset = source.find("hero").expect("hero");
    let index = token_at_offset(&tokens, offset).expect("token");
    let range = token_range(&tokens[index]);
    assert_eq!(range.start_character, 6);
    assert_eq!(range.end_character, 10);
}

#[test]
fn require_without_parentheses_and_other_strings() {
    let tokens = tokenize("local a = require 'm'\nprint('m')").unwrap();
    assert!(is_require_string_token(&tokens, 4));
    assert!(!is_require_string_token(&tokens, 7));
    assert!(!is_require_string_token(&tokens, 0));
    assert!(!is_require_string_token(&tokens, 100));
}

#[test]
fn the_token_under_the_cursor_includes_its_end_but_never_end_of_input() {
    let tokens = tokenize("a  bc").unwrap();
    assert_eq!(token_at_offset(&tokens, 1), Some(0));
    assert_eq!(token_at_offset(&tokens, 2), None);
    assert_eq!(token_at_offset(&tokens, 5), Some(1));
    assert_eq!(token_at_offset(&tokens, 6), None);
    let range = token_range(&tokens[1]);
    assert_eq!(
        range,
        TextRange { start_line: 0, start_character: 3, end_line: 0, end_character: 5 }
    );
}

fn range(line: usize, start: usize, end: usize) -> TextRange {
    TextRange { start_line: line, start_character: start, end_line: line, end_character: end }
}

#[test]
fn renaming_a_name_edits_every_occurrence_in_order() {
    let tokens = tokenize("local hero = 1
print(hero, heroes)
hero.x = 2").unwrap();
    let edits = identifier_rename_edits(&tokens, "hero", "player");
    let got: Vec<(TextRange, String)> = edits.into_iter().map(|e| (e.range, e.new_text)).collect();
    assert_eq!(
        got,
        vec![
            (range(0, 6, 10), "player".to_string()),
            (range(1, 6, 10), "player".to_string()),
            (range(2, 0, 4), "player".to_string()),
        ]
    );
}

#[test]
fn renaming_a_module_edits_only_its_require_strings_keeping_quotes() {
    let source = "local a = require('@shared/math')
local b = require \"@shared/math\"
print('@shared/math')
local c = require(`@other`)";
    let tokens = tokenize(source).unwrap();
    let edits = require_rename_edits(&tokens, "@shared/math", "@lib/math");
    let got: Vec<(TextRange, String)> = edits.into_iter().map(|e| (e.range, e.new_text)).collect();
    assert_eq!(
        got,
        vec![
            (range(0, 18, 32), "'@lib/math'".to_string()),
            (range(1, 18, 32), "\"@lib/math\"".to_string()),
        ]
    );
}

#[test]
fn the_const_quick_fix_edits_the_keyword_of_the_first_declaration() {
    let program = parse_program("local a = 1\n  const PI, TAU = 3, 6\nconst PI = 4\nPI = 5").unwrap();
    assert_eq!(const_keyword_range(&program, "PI"), Some(range(1, 2, 7)));
    assert_eq!(const_keyword_range(&program, "TAU"), Some(range(1, 2, 7)));
    assert_eq!(const_keyword_range(&program, "a"), None);
    assert_eq!(const_keyword_range(&program, "missing"), None);
}

#[test]
fn declarations_index_functions_enums_aliases_and_locals() {
    let source = "function greet(name)\n    return name\nend\nenum Direction\n    North\nend\ntype Id = number\nlocal count: number = 1\nconst LIMIT = 3\nlocal { x } = point\n";
    let program = parse_program(source).unwrap();
    let tokens = tokenize(source).unwrap();
    let decls = document_declarations(&program, &tokens);
    let summary: Vec<(String, u32, TextRange, bool)> =
        decls.iter().map(|d| (d.name.clone(), d.kind, d.name_range, d.is_const)).collect();
    assert_eq!(
        summary,
        vec![
            ("greet".to_string(), 12, range(0, 9, 14), false),
            ("Direction".to_string(), 10, range(3, 5, 14), false),
            ("Id".to_string(), 11, range(6, 5, 7), false),
            ("count".to_string(), 13, range(7, 6, 11), false),
            ("LIMIT".to_string(), 13, range(8, 6, 11), true),
        ]
    );
    assert_eq!(decls[1].detail, "enum Direction");
    assert_eq!(decls[2].hover, "type Id = number");
    assert_eq!(decls[3].detail, "local count: number");
    assert_eq!(decls[4].detail, "const LIMIT");
}

#[test]
fn completes_enum_members() {
    let source = "enum Direction\n    North\n    South\nend\n";
    let tokens = tokenize(source).expect("tokens");
    let parsed = parse_program(source);
    assert!(parsed.is_ok(), "{:?}", parsed.as_ref().err());
    let program = parsed.unwrap();
    let items = member_completion_items(&program, &tokens, "Direction");
    assert!(items.iter().any(|item| item.label == "North"));
    assert!(items.iter().any(|item| item.label == "South"));
    assert_eq!(items[0].detail, "Direction.North");
    assert_eq!(items[0].kind, 20);
    assert!(member_completion_items(&program, &tokens, "Other").is_empty());
}

#[test]
fn the_const_quick_fix_range_is_that_of_a_const_token() {
    let source = "local x = 1\n\tconst  LIMIT = 3\nLIMIT = 4\n";
    let program = parse_program(source).unwrap();
    let tokens = tokenize(source).unwrap();
    let fix = const_keyword_range(&program, "LIMIT").expect("a const declaration");
    let keyword = tokens.iter().find(|t| t.text == "const").expect("a const token");
    assert_eq!(fix, token_range(keyword));
    assert_eq!(fix, range(1, 1, 6));
}

use xluau::document::{document_declarations, member_completion_items, MemberItem, TextRange};
use xluau::editor::{completion_items, declaration_at, quick_fixes, rename_changes, rename_range};
use xluau::parser::{parse_program, parse_program_best_effort, tokenize};

fn range(line: usize, start: usize, end: usize) -> TextRange {
    TextRange { start_line: line, start_character: start, end_line: line, end_character: end }
}

#[test]
fn quick_fixes_answer_each_diagnostic_in_turn() {
    let source = "const PI = 1\nswitch value\n    case 1\n        print(1)\nend\nPI = 2\n";
    let program = parse_program(source).unwrap();
    let messages = vec![
        "cannot assign to const `PI` at 6:1".to_string(),
        "non-exhaustive switch is missing: 2".to_string(),
        "non-exhaustive match is missing variants for `kind`: a".to_string(),
        "something else".to_string(),
    ];
    let fixes = quick_fixes(source, Some(&program), 1, &messages);
    assert_eq!(fixes.len(), 2);
    assert_eq!(fixes[0].title, "Convert const `PI` to local");
    assert_eq!(fixes[0].diagnostic, 0);
    assert_eq!(fixes[0].edit.range, range(0, 0, 5));
    assert_eq!(fixes[0].edit.new_text, "local");
    assert_eq!(fixes[1].title, "Add switch default branch");
    assert_eq!(fixes[1].diagnostic, 1);
    assert_eq!(fixes[1].edit.range, range(4, 0, 0));
    assert_eq!(fixes[1].edit.new_text, "    default\n        -- TODO\n");
    assert!(quick_fixes(source, None, 1, &messages[..1].to_vec()).is_empty());
}

#[test]
fn renaming_a_declared_name_edits_it_in_the_document() {
    let source = "local hero = 1\nprint(hero)";
    let tokens = tokenize(source).unwrap();
    let program = parse_program(source).unwrap();
    let decls = document_declarations(&program, &tokens);
    let offset = source.rfind("hero").unwrap() + 1;
    let changes = rename_changes("file:///a.xl", &tokens, &decls, offset, "player", &vec![]).unwrap();
    assert_eq!(changes.len(), 1);
    assert_eq!(changes[0].0, "file:///a.xl");
    let ranges: Vec<TextRange> = changes[0].1.iter().map(|e| e.range).collect();
    assert_eq!(ranges, vec![range(0, 6, 10), range(1, 6, 10)]);
    assert_eq!(rename_range(&tokens, &decls, offset), Some(range(1, 6, 10)));
    let at_print = source.find("print").unwrap();
    assert!(rename_changes("file:///a.xl", &tokens, &decls, at_print, "x", &vec![]).is_none());
    assert_eq!(rename_range(&tokens, &decls, at_print), None);
}

#[test]
fn renaming_a_module_edits_every_document_that_requires_it() {
    let source = "local m = require('a')";
    let tokens = tokenize(source).unwrap();
    let docs = vec![
        ("u1".to_string(), tokenize(source).unwrap()),
        ("u2".to_string(), tokenize("print('a')").unwrap()),
        ("u3".to_string(), tokenize("local n = require \"a\"").unwrap()),
    ];
    let offset = source.find("'a'").unwrap() + 1;
    let changes = rename_changes("u1", &tokens, &vec![], offset, "b", &docs).unwrap();
    let summary: Vec<(String, Vec<String>)> = changes
        .iter()
        .map(|(u, es)| (u.clone(), es.iter().map(|e| e.new_text.clone()).collect()))
        .collect();
    assert_eq!(
        summary,
        vec![
            ("u1".to_string(), vec!["'b'".to_string()]),
            ("u3".to_string(), vec!["\"b\"".to_string()]),
        ]
    );
}

#[test]
fn the_declaration_under_the_cursor_is_found_by_name() {
    let source = "function greet()\nend\ngreet()";
    let tokens = tokenize(source).unwrap();
    let program = parse_program(source).unwrap();
    let decls = document_declarations(&program, &tokens);
    assert_eq!(declaration_at(&tokens, &decls, source.rfind("greet").unwrap()), Some(0));
    assert_eq!(declaration_at(&tokens, &decls, source.find("end").unwrap()), None);
}

#[test]
fn completion_offers_members_or_else_keywords_and_declarations_once() {
    let source = "local state = 1\nlocal score = 2\nenum Dir\n    Up\nend\n";
    let tokens = tokenize(source).unwrap();
    let program = parse_program(source).unwrap();
    let decls = document_declarations(&program, &tokens);
    let items = completion_items(&decls, &Vec::<MemberItem>::new());
    let labels: Vec<String> = items.iter().map(|i| i.label.clone()).collect();
    assert_eq!(labels.len(), 18 + 2);
    assert_eq!(labels[0], "local");
    assert_eq!(labels[18], "score");
    assert_eq!(labels[19], "Dir");
    assert_eq!(labels.iter().filter(|l| *l == "state").count(), 1);
    let members = member_completion_items(&program, &tokens, "Dir");
    let items = completion_items(&decls, &members);
    assert_eq!(items.len(), 1);
    assert_eq!((items[0].label.as_str(), items[0].kind, items[0].detail.as_str()), ("Up", 20, "Dir.Up"));
}

#[test]
fn best_effort_parsing_drops_trailing_lines_until_the_rest_parses() {
    assert_eq!(parse_program_best_effort("local a = 1\nlocal b = 2").unwrap().block.len(), 2);
    assert_eq!(parse_program_best_effort("local a = 1\nlocal = 2\nlocal").unwrap().block.len(), 1);
    assert!(parse_program_best_effort("local = 1").is_none());
    assert!(parse_program_best_effort("local a = 1\nlocal s = 'open").is_none());
}

#[test]
fn a_cursor_just_after_a_token_is_on_that_token() {
    let source = "local hero = 1\nprint(hero)";
    let tokens = tokenize(source).unwrap();
    let program = parse_program(source).unwrap();
    let decls = document_declarations(&program, &tokens);
    let at_start = source.rfind("hero").unwrap();
    assert!(rename_changes("u", &tokens, &decls, at_start, "p", &vec![]).is_none());
}

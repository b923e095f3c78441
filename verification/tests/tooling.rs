use xluau::ast::{Binding, EnumDecl, EnumMember, FunctionDecl, FunctionName, Param, Pattern};
use xluau::compiler::CompilerError;
use xluau::tooling::{
    alias_completion_label, decode_string_lexeme, render_enum_hover, render_params, block_bounds, diagnostic_position_from_message,
    diagnostic_position_from_validation, diagnostic_from_message, diagnostic_from_validation, error_diagnostic,
    error_to_diagnostics, extract_const_name, render_function_signature, extract_one_based_position,
    extract_zero_based_validation_position, full_document_range, leading_whitespace,
    match_fallback_edit, member_completion_receiver, position_to_offset, render_local_signature,
    render_state_signature, rewrap_string_literal, simple_type_name, starts_end_scoped_block,
    switch_default_edit, type_alias_name,
};

#[test]
fn parses_one_based_positions() {
    assert_eq!(extract_one_based_position("expected expression at 4:12"), Some((4, 12)));
}

#[test]
fn parses_validation_positions() {
    let input = "Error { start: Position { line: 0, character: 21 }, message: \"oops\" }";
    assert_eq!(extract_zero_based_validation_position(input), Some((0, 21)));
}

#[test]
fn extracts_type_alias_names() {
    assert_eq!(type_alias_name("type Result<T> = T"), Some("Result".to_string()));
    assert_eq!(
        type_alias_name("export type Settings = { enabled: boolean }"),
        Some("Settings".to_string())
    );
}

#[test]
fn builds_diagnostics_from_parse_messages() {
    let diagnostic = diagnostic_from_message("expected expression at 3:5");
    assert_eq!(diagnostic.line, 2);
    assert_eq!(diagnostic.character, 4);
}

#[test]
fn builds_switch_default_edit() {
    let source = "switch value\n    case 1\n        print(1)\nend\n";
    let (_line, new_text) = switch_default_edit(source, 0).expect("edit");
    assert_eq!(new_text, "    default\n        -- TODO\n");
}

#[test]
fn switch_default_edit_targets_the_end_line() {
    let source = "switch value\n    case 1\n        print(1)\nend\n";
    assert_eq!(switch_default_edit(source, 2).map(|edit| edit.0), Some(3));
}

#[test]
fn switch_expression_gets_default_then_nil() {
    let source = "local v = switch x\n    case 1 then \"a\"\nend\n";
    assert_eq!(
        switch_default_edit(source, 0).map(|edit| edit.1),
        None
    );
    let source = "switch x\n    case 1 then \"a\"\nend\n";
    assert_eq!(
        switch_default_edit(source, 0),
        Some((2, "    default then nil\n".to_string()))
    );
}

#[test]
fn match_fallback_edit_inserts_wildcard() {
    let source = "match shape\n    { kind = \"circle\" }\n        print(1)\nend\n";
    assert_eq!(
        match_fallback_edit(source, 1),
        Some((3, "    _\n        -- TODO\n".to_string()))
    );
}

#[test]
fn block_bounds_skip_nested_blocks() {
    let lines: Vec<String> = ["switch v", "    if a then", "        b()", "    end", "end"]
        .iter()
        .map(|line| line.to_string())
        .collect();
    assert_eq!(block_bounds(&lines, 2, "switch"), Some((0, 4, "    ".to_string())));
    assert_eq!(block_bounds(&lines, 2, "match"), None);
}

#[test]
fn positions_without_numbers_default_to_origin() {
    assert_eq!(extract_one_based_position("no position here"), None);
    assert_eq!(diagnostic_position_from_message("no position here"), (0, 0));
    assert_eq!(diagnostic_position_from_validation("nothing"), (0, 0));
    assert_eq!(
        diagnostic_position_from_validation("Error { start: Position { line: 3, character: 7 } }"),
        (3, 7)
    );
}

#[test]
fn type_names_and_aliases() {
    assert_eq!(simple_type_name("  Point?"), Some("Point".to_string()));
    assert_eq!(simple_type_name("{ x: number }"), Some("x".to_string()));
    assert_eq!(simple_type_name("  123 "), None);
    assert_eq!(type_alias_name("local x = 1"), None);
    assert_eq!(alias_completion_label("@shared"), "@shared".to_string());
    assert_eq!(alias_completion_label("@components/*"), "@components/".to_string());
}

#[test]
fn const_names_from_errors() {
    assert_eq!(extract_const_name("cannot assign to const `PI`"), Some("PI".to_string()));
    assert_eq!(extract_const_name("other error"), None);
}

#[test]
fn signatures_render_annotations() {
    assert_eq!(render_state_signature("count", Some("number")), "state count: number");
    assert_eq!(render_state_signature("count", None), "state count");
    assert_eq!(render_local_signature("PI", Some("number"), true), "const PI: number");
    assert_eq!(render_local_signature("x", None, false), "local x");
}

#[test]
fn completion_receivers_and_literals() {
    assert_eq!(member_completion_receiver("Direction.", 10), Some("Direction".to_string()));
    assert_eq!(member_completion_receiver("x = 1", 5), None);
    assert_eq!(rewrap_string_literal("'old'", "new"), "'new'");
    assert_eq!(rewrap_string_literal("\"old\"", "new"), "\"new\"");
}

#[test]
fn offsets_and_document_ranges() {
    let source = "ab\ncd\n";
    assert_eq!(position_to_offset(source, 1, 1), 4);
    assert_eq!(position_to_offset(source, 0, 0), 0);
    assert_eq!(full_document_range(source), (1, 2));
    assert_eq!(full_document_range("abc"), (0, 3));
}

#[test]
fn block_openers_and_indentation() {
    assert!(starts_end_scoped_block("if x then"));
    assert!(starts_end_scoped_block("do"));
    assert!(!starts_end_scoped_block("print(1)"));
    assert_eq!(leading_whitespace("    x"), "    ");
    assert_eq!(leading_whitespace("x"), "");
}

#[test]
fn renders_parameter_lists() {
    let params = vec![
        Param::Binding(Binding { pattern: Pattern::Name("a".to_string()), type_annotation: None }),
        Param::Binding(Binding {
            pattern: Pattern::Name("b".to_string()),
            type_annotation: Some("number".to_string()),
        }),
        Param::Binding(Binding {
            pattern: Pattern::Array { items: vec![], rest: None },
            type_annotation: Some("Point".to_string()),
        }),
        Param::VarArg(Some("string".to_string())),
    ];
    assert_eq!(render_params(&params), "a, b: number, _, ...: string");
    assert_eq!(render_params(&vec![Param::VarArg(None)]), "...");
    assert_eq!(render_params(&vec![]), "");
}

#[test]
fn renders_enum_hovers() {
    let decl = EnumDecl {
        start: 0,
        name: "Direction".to_string(),
        base_type: None,
        members: vec![
            EnumMember { name: "North".to_string(), value: None },
            EnumMember { name: "South".to_string(), value: None },
        ],
    };
    assert_eq!(render_enum_hover(&decl), "enum Direction\n  North\n  South");
}

#[test]
fn decodes_string_lexemes() {
    assert_eq!(decode_string_lexeme("\"@shared/math\""), "@shared/math");
    assert_eq!(decode_string_lexeme("'x'"), "x");
    assert_eq!(decode_string_lexeme("`t`"), "t");
    assert_eq!(decode_string_lexeme("\""), "\"");
    assert_eq!(decode_string_lexeme("plain"), "plain");
}

#[test]
fn positions_diagnostics_of_validation_lines() {
    let diagnostic = diagnostic_from_validation("no position here");
    assert_eq!((diagnostic.line, diagnostic.character), (0, 0));
    assert_eq!(diagnostic.message, "no position here");
}

#[test]
fn reports_each_semantic_error_as_a_diagnostic() {
    let error = CompilerError::Semantic {
        messages: vec![
            "cannot assign to const 'x' at 2:3".to_string(),
            "unknown".to_string(),
        ],
    };
    let diagnostics = error_to_diagnostics(&error);
    assert_eq!(diagnostics.len(), 2);
    assert_eq!((diagnostics[0].line, diagnostics[0].character), (1, 2));
    assert_eq!(diagnostics[0].message, "cannot assign to const 'x' at 2:3");
    assert_eq!((diagnostics[1].line, diagnostics[1].character), (0, 0));
}

#[test]
fn reports_each_validation_line_trimmed() {
    let error = CompilerError::Validation {
        message: "  first problem  \nsecond problem".to_string(),
    };
    let diagnostics = error_to_diagnostics(&error);
    assert_eq!(diagnostics.len(), 2);
    assert_eq!(diagnostics[0].message, "first problem");
    assert_eq!(diagnostics[1].message, "second problem");
}

#[test]
fn reports_parse_and_other_errors_once() {
    let parse = CompilerError::Parse {
        message: "expected end at 4:1".to_string(),
    };
    let diagnostics = error_to_diagnostics(&parse);
    assert_eq!(diagnostics.len(), 1);
    assert_eq!((diagnostics[0].line, diagnostics[0].character), (3, 0));
    let other = CompilerError::Other("boom".to_string());
    let diagnostics = error_to_diagnostics(&other);
    assert_eq!(diagnostics.len(), 1);
    assert_eq!((diagnostics[0].line, diagnostics[0].character), (0, 0));
    assert_eq!(diagnostics[0].message, "boom");
}

#[test]
fn renders_function_signatures() {
    let mut function = FunctionDecl {
        start: 0,
        local_name: false,
        name: FunctionName { root: "map".to_string(), fields: vec![], method: None },
        generics: Some("<T, U>".to_string()),
        params: vec![
            Param::Binding(Binding {
                pattern: Pattern::Name("list".to_string()),
                type_annotation: Some("{T}".to_string()),
            }),
            Param::Binding(Binding { pattern: Pattern::Name("f".to_string()), type_annotation: None }),
        ],
        return_type: Some("{U}".to_string()),
        body: vec![],
    };
    assert_eq!(render_function_signature(&function), "function map<T, U>(list: {T}, f): {U}");
    function.generics = None;
    function.return_type = None;
    function.params = vec![];
    assert_eq!(render_function_signature(&function), "function map()");
}

#[test]
fn quick_fix_reads_the_constant_of_a_compile_error() {
    let compiler = xluau::compiler::Compiler::discover(".".to_string(), Ok(None)).unwrap();
    let err = compiler.compile_source("const PI = 3.14\nPI = 4\n").unwrap_err();
    match err {
        CompilerError::Semantic { messages } => {
            assert_eq!(extract_const_name(&messages[0]).as_deref(), Some("PI"));
        }
        other => panic!("expected semantic errors, got {other:?}"),
    }
}

#[test]
fn diagnostics_span_one_character_and_are_errors() {
    let diagnostic = diagnostic_from_message("unterminated string at 2:7");
    assert_eq!((diagnostic.line, diagnostic.character, diagnostic.end_character), (1, 6, 7));
    assert_eq!(diagnostic.severity, 1);
    let at_end = error_diagnostic(0, usize::MAX, "edge".to_string());
    assert_eq!(at_end.end_character, usize::MAX);
}

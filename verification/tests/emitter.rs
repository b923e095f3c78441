use xluau::ast::{
    AssignTarget, Assignment, BinaryOp, Binding, ChainSegment, ComprehensionClause, CompoundOp,
    EnumDecl, EnumMember, Expr, ForNumeric, FunctionDecl, FunctionName, LocalDecl, MatchCase,
    MatchFieldPattern, MatchPattern, MatchStmt, Param, Pattern, Program, Stmt, SwitchCase,
    SwitchStmt, TableComprehension, TableComprehensionKind, TableField,
};
use xluau::compiler::CompilerError;
use xluau::emitter::Emitter;
use xluau::emitter::types::split_top_level;

fn name(n: &str) -> Expr {
    Expr::Name(n.to_string())
}

fn num(n: &str) -> Expr {
    Expr::Number(n.to_string())
}

fn text(s: &str) -> Expr {
    Expr::String(format!("\"{s}\""))
}

fn call_stmt(f: &str, args: Vec<Expr>) -> Stmt {
    Stmt::Call(Expr::Chain { base: Box::new(name(f)), segments: vec![ChainSegment::Call { args }] })
}

fn local(n: &str, value: Expr) -> Stmt {
    local_typed(n, None, value)
}

fn local_typed(n: &str, annotation: Option<&str>, value: Expr) -> Stmt {
    Stmt::Local(LocalDecl {
        start: 0,
        line: 0,
        column: 0,
        is_const: false,
        bindings: vec![Binding {
            pattern: Pattern::Name(n.to_string()),
            type_annotation: annotation.map(|a| a.to_string()),
        }],
        values: vec![value],
    })
}

fn emit(block: Vec<Stmt>) -> Result<String, CompilerError> {
    Emitter::new().emit_program(&Program { block })
}

fn semantic(block: Vec<Stmt>) -> Vec<String> {
    match emit(block) {
        Err(CompilerError::Semantic { messages }) => messages,
        other => panic!("expected semantic errors, got {other:?}"),
    }
}

#[test]
fn lowers_string_enums_to_frozen_tables() {
    let output = emit(vec![Stmt::Enum(EnumDecl {
        start: 0,
        name: "Direction".to_string(),
        base_type: None,
        members: vec![
            EnumMember { name: "North".to_string(), value: None },
            EnumMember { name: "South".to_string(), value: None },
        ],
    })])
    .unwrap();
    assert_eq!(
        output,
        [
            "type Direction = \"North\" | \"South\"\n",
            "local Direction = table.freeze({\n",
            "    North = \"North\" :: Direction,\n",
            "    South = \"South\" :: Direction,\n",
            "})",
        ].concat()
    );
}

#[test]
fn number_backed_enums_need_values() {
    let messages = semantic(vec![Stmt::Enum(EnumDecl {
        start: 0,
        name: "Code".to_string(),
        base_type: Some(" number ".to_string()),
        members: vec![
            EnumMember { name: "A".to_string(), value: Some(num("1")) },
            EnumMember { name: "B".to_string(), value: None },
        ],
    })]);
    assert_eq!(
        messages,
        vec!["number-backed enum `Code` member `B` requires an explicit value".to_string()]
    );
}

#[test]
fn enum_member_values_must_be_simple() {
    let messages = semantic(vec![Stmt::Enum(EnumDecl {
        start: 0,
        name: "E".to_string(),
        base_type: None,
        members: vec![EnumMember {
            name: "A".to_string(),
            value: Some(Expr::Binary {
                left: Box::new(Expr::Chain {
                    base: Box::new(name("f")),
                    segments: vec![ChainSegment::Call { args: vec![] }],
                }),
                op: BinaryOp::Nullish,
                right: Box::new(num("1")),
            }),
        }],
    })]);
    assert_eq!(messages, vec!["enum member `A` value must be a simple expression".to_string()]);
}

#[test]
fn groups_switch_cases_that_fall_through() {
    let output = emit(vec![Stmt::Switch(SwitchStmt {
        value: name("x"),
        cases: vec![
            SwitchCase { value: num("1"), block: vec![], fallthrough: false },
            SwitchCase {
                value: num("2"),
                block: vec![call_stmt("print", vec![text("a")])],
                fallthrough: false,
            },
        ],
        default: Some(vec![call_stmt("print", vec![text("b")])]),
    })])
    .unwrap();
    assert_eq!(
        output,
        [
            "local _sw0 = x\n",
            "if _sw0 == 1 or _sw0 == 2 then\n",
            "    print(\"a\")\n",
            "else\n",
            "    print(\"b\")\n",
            "end",
        ].concat()
    );
}

#[test]
fn switch_with_only_a_default_emits_the_default() {
    let output = emit(vec![Stmt::Switch(SwitchStmt {
        value: name("x"),
        cases: vec![],
        default: Some(vec![call_stmt("f", vec![])]),
    })])
    .unwrap();
    assert_eq!(output, "f()");
}

#[test]
fn reports_non_exhaustive_switch() {
    let messages = semantic(vec![
        Stmt::TypeAlias { raw: "type Color = \"red\" | \"green\"".to_string(), start: 0 },
        local_typed("c", Some("Color"), text("red")),
        Stmt::Switch(SwitchStmt {
            value: name("c"),
            cases: vec![SwitchCase {
                value: text("red"),
                block: vec![call_stmt("f", vec![])],
                fallthrough: false,
            }],
            default: None,
        }),
    ]);
    assert_eq!(messages, vec!["non-exhaustive switch is missing: \"green\"".to_string()]);
}

#[test]
fn fallthrough_outside_a_case_is_an_error() {
    let messages = semantic(vec![Stmt::Fallthrough]);
    assert_eq!(
        messages,
        vec!["`fallthrough` is only valid as the last statement in a switch case".to_string()]
    );
}

#[test]
fn lowers_match_arms_into_do_blocks() {
    let output = emit(vec![Stmt::Match(MatchStmt {
        value: name("shape"),
        cases: vec![
            MatchCase {
                pattern: MatchPattern::Table(vec![MatchFieldPattern {
                    key: "kind".to_string(),
                    pattern: MatchPattern::Literal(text("circle")),
                }]),
                guard: None,
                block: vec![call_stmt("print", vec![num("1")])],
            },
            MatchCase {
                pattern: MatchPattern::Bind("other".to_string()),
                guard: None,
                block: vec![call_stmt("print", vec![name("other")])],
            },
        ],
    })])
    .unwrap();
    assert_eq!(
        output,
        [
            "local _matched0 = false\n",
            "do\n",
            "    local _mbind1 = {}\n",
            "    local _mcond2 = (not _matched0) and (type(shape) == \"table\" and shape.kind == \"circle\")\n",
            "    if _mcond2 then\n",
            "        _matched0 = true\n",
            "        print(1)\n",
            "    end\n",
            "end\n",
            "do\n",
            "    local _mbind3 = {}\n",
            "    _mbind3[\"other\"] = shape\n",
            "    local _mcond4 = (not _matched0) and (true)\n",
            "    if _mcond4 then\n",
            "        local other = _mbind3[\"other\"]\n",
            "        _matched0 = true\n",
            "        print(other)\n",
            "    end\n",
            "end",
        ].concat()
    );
}

#[test]
fn while_with_setup_tests_inside_the_loop() {
    let output = emit(vec![Stmt::While {
        condition: Expr::Binary {
            left: Box::new(name("a")),
            op: BinaryOp::Nullish,
            right: Box::new(name("b")),
        },
        block: vec![call_stmt("f", vec![])],
    }])
    .unwrap();
    assert_eq!(
        output,
        [
            "while true do\n",
            "    local _cond0 = if a ~= nil then a else b\n",
            "    local _while1 = _cond0\n",
            "    if not _while1 then\n",
            "        break\n",
            "    end\n",
            "    f()\n",
            "end",
        ].concat()
    );
}

#[test]
fn lowers_repeat_and_numeric_for() {
    let output = emit(vec![
        Stmt::Repeat { block: vec![call_stmt("f", vec![])], condition: name("done") },
        Stmt::ForNumeric(ForNumeric {
            name: "i".to_string(),
            start: num("1"),
            end: num("10"),
            step: Some(num("2")),
            block: vec![call_stmt("print", vec![name("i")])],
        }),
    ])
    .unwrap();
    assert_eq!(
        output,
        "repeat\n    f()\nuntil done\nfor i = 1, 10, 2 do\n    print(i)\nend"
    );
}

#[test]
fn lowers_do_expressions() {
    let output = emit(vec![local(
        "v",
        Expr::DoExpr {
            block: vec![local("t", num("1"))],
            result: Box::new(Expr::Binary {
                left: Box::new(name("t")),
                op: BinaryOp::Add,
                right: Box::new(num("1")),
            }),
        },
    )])
    .unwrap();
    assert_eq!(
        output,
        "local _de0\ndo\n    local t = 1\n    _de0 = t + 1\nend\nlocal v = _de0"
    );
}

#[test]
fn lowers_array_comprehensions() {
    let output = emit(vec![local(
        "doubled",
        Expr::Comprehension(TableComprehension {
            kind: TableComprehensionKind::Array {
                value: Box::new(Expr::Binary {
                    left: Box::new(name("x")),
                    op: BinaryOp::Multiply,
                    right: Box::new(num("2")),
                }),
            },
            clauses: vec![ComprehensionClause::GenericFor {
                bindings: vec![
                    Binding { pattern: Pattern::Name("_".to_string()), type_annotation: None },
                    Binding { pattern: Pattern::Name("x".to_string()), type_annotation: None },
                ],
                iterables: vec![name("numbers")],
            }],
        }),
    )])
    .unwrap();
    assert_eq!(
        output,
        [
            "local _comp0 = {}\n",
            "for _, x in numbers do\n",
            "    table.insert(_comp0, x * 2)\n",
            "end\n",
            "local doubled = _comp0",
        ].concat()
    );
}

#[test]
fn lowers_local_functions_and_tables() {
    let output = emit(vec![
        Stmt::Function(FunctionDecl {
            start: 0,
            local_name: true,
            name: FunctionName { root: "f".to_string(), fields: vec![], method: None },
            generics: None,
            params: vec![
                Param::Binding(Binding { pattern: Pattern::Name("a".to_string()), type_annotation: None }),
                Param::VarArg(None),
            ],
            return_type: Some("number".to_string()),
            body: vec![Stmt::Return(vec![name("a")])],
        }),
        Stmt::Function(FunctionDecl {
            start: 0,
            local_name: false,
            name: FunctionName {
                root: "M".to_string(),
                fields: vec!["inner".to_string()],
                method: Some("run".to_string()),
            },
            generics: Some("<T>".to_string()),
            params: vec![],
            return_type: None,
            body: vec![],
        }),
        local(
            "t",
            Expr::Table(vec![
                TableField::Named("a".to_string(), num("1")),
                TableField::Indexed(text("b"), num("2")),
                TableField::Value(num("3")),
            ]),
        ),
    ])
    .unwrap();
    assert_eq!(
        output,
        [
            "local function f(a, ...): number\n",
            "    return a\n",
            "end\n",
            "function M.inner:run<T>()\n",
            "end\n",
            "local t = {a = 1, [\"b\"] = 2, 3}",
        ].concat()
    );
}

#[test]
fn compound_assignment_evaluates_the_object_once() {
    let output = emit(vec![Stmt::CompoundAssignment {
        target: AssignTarget::Field {
            object: Box::new(Expr::Chain {
                base: Box::new(name("getObj")),
                segments: vec![ChainSegment::Call { args: vec![] }],
            }),
            field: "n".to_string(),
        },
        op: CompoundOp::Add,
        value: num("1"),
    }])
    .unwrap();
    assert_eq!(output, "local _obj0 = getObj()\nlocal _obj1 = _obj0\n_obj1.n = _obj1.n + 1");
}

#[test]
fn multiple_assignment_and_empty_values() {
    let output = emit(vec![
        Stmt::Assignment(Assignment {
            targets: vec![AssignTarget::Name("a".to_string()), AssignTarget::Name("b".to_string())],
            values: vec![num("1")],
        }),
        Stmt::Assignment(Assignment {
            targets: vec![AssignTarget::Index { object: Box::new(name("t")), index: Box::new(name("k")) }],
            values: vec![],
        }),
        Stmt::Return(vec![]),
    ])
    .unwrap();
    assert_eq!(output, "a, b = 1\nt[k] = nil\nreturn");
}

#[test]
fn short_circuit_with_setup_uses_a_temporary() {
    let output = emit(vec![local(
        "v",
        Expr::Binary {
            left: Box::new(name("a")),
            op: BinaryOp::And,
            right: Box::new(Expr::Binary {
                left: Box::new(Expr::Chain {
                    base: Box::new(name("f")),
                    segments: vec![ChainSegment::Call { args: vec![] }],
                }),
                op: BinaryOp::Nullish,
                right: Box::new(num("0")),
            }),
        },
    )])
    .unwrap();
    assert_eq!(
        output,
        [
            "local _and1\n",
            "if a then\n",
            "    local _lhs0 = f()\n",
            "    _and1 = if _lhs0 ~= nil then _lhs0 else 0\n",
            "else\n",
            "    _and1 = a\n",
            "end\n",
            "local v = _and1",
        ].concat()
    );
}

#[test]
fn const_in_inner_block_does_not_leak() {
    let output = emit(vec![
        Stmt::Do(vec![Stmt::Local(LocalDecl {
            start: 0,
            line: 0,
            column: 0,
            is_const: true,
            bindings: vec![Binding { pattern: Pattern::Name("K".to_string()), type_annotation: None }],
            values: vec![num("1")],
        })]),
        Stmt::Assignment(Assignment {
            targets: vec![AssignTarget::Name("K".to_string())],
            values: vec![num("2")],
        }),
    ])
    .unwrap();
    assert_eq!(output, "do\n    local K = 1\nend\nK = 2");
}

#[test]
fn temporaries_are_numbered_in_order() {
    let output = emit(vec![
        local("a", Expr::Binary {
            left: Box::new(Expr::Chain {
                base: Box::new(name("f")),
                segments: vec![ChainSegment::Call { args: vec![] }],
            }),
            op: BinaryOp::Nullish,
            right: Box::new(num("0")),
        }),
        local("b", Expr::Binary {
            left: Box::new(Expr::Chain {
                base: Box::new(name("g")),
                segments: vec![ChainSegment::Call { args: vec![] }],
            }),
            op: BinaryOp::Nullish,
            right: Box::new(num("0")),
        }),
    ])
    .unwrap();
    assert_eq!(
        output,
        "local _lhs0 = f()\nlocal a = if _lhs0 ~= nil then _lhs0 else 0\nlocal _lhs1 = g()\nlocal b = if _lhs1 ~= nil then _lhs1 else 0"
    );
}

#[test]
fn const_assignment_is_reported_among_several_targets() {
    let messages = semantic(vec![
        Stmt::Local(LocalDecl {
            start: 0,
            line: 0,
            column: 0,
            is_const: true,
            bindings: vec![Binding { pattern: Pattern::Name("PI".to_string()), type_annotation: None }],
            values: vec![num("3.14")],
        }),
        Stmt::Assignment(Assignment {
            targets: vec![AssignTarget::Name("x".to_string()), AssignTarget::Name("PI".to_string())],
            values: vec![num("1"), num("2")],
        }),
    ]);
    assert_eq!(messages, vec!["cannot assign to const `PI`".to_string()]);
}

#[test]
fn const_inside_a_function_is_scoped_to_it() {
    let output = emit(vec![
        Stmt::Function(FunctionDecl {
            start: 0,
            local_name: true,
            name: FunctionName { root: "f".to_string(), fields: vec![], method: None },
            generics: None,
            params: vec![],
            return_type: None,
            body: vec![Stmt::Local(LocalDecl {
                start: 0,
                line: 0,
                column: 0,
                is_const: true,
                bindings: vec![Binding { pattern: Pattern::Name("K".to_string()), type_annotation: None }],
                values: vec![num("1")],
            })],
        }),
        Stmt::Assignment(Assignment {
            targets: vec![AssignTarget::Name("K".to_string())],
            values: vec![num("2")],
        }),
    ])
    .unwrap();
    assert_eq!(output, "local function f()\n    local K = 1\nend\nK = 2");
}

#[test]
fn errors_keep_their_order() {
    let messages = semantic(vec![
        Stmt::Fallthrough,
        Stmt::Local(LocalDecl {
            start: 0,
            line: 0,
            column: 0,
            is_const: true,
            bindings: vec![Binding { pattern: Pattern::Name("A".to_string()), type_annotation: None }],
            values: vec![num("1")],
        }),
        Stmt::Assignment(Assignment {
            targets: vec![AssignTarget::Name("A".to_string())],
            values: vec![num("2")],
        }),
        Stmt::Fallthrough,
    ]);
    assert_eq!(
        messages,
        vec![
            "`fallthrough` is only valid as the last statement in a switch case".to_string(),
            "cannot assign to const `A`".to_string(),
            "`fallthrough` is only valid as the last statement in a switch case".to_string(),
        ]
    );
}

fn bin(l: Expr, op: BinaryOp, r: Expr) -> Expr {
    Expr::Binary { left: Box::new(l), op, right: Box::new(r) }
}

#[test]
fn parenthesises_operands_only_where_grouping_needs_it() {
    let sum = || bin(name("a"), BinaryOp::Add, name("b"));
    let output = emit(vec![
        local("p", bin(name("x"), BinaryOp::Multiply, num("2"))),
        local("q", bin(sum(), BinaryOp::Multiply, name("c"))),
        local("r", bin(name("a"), BinaryOp::Subtract, bin(name("b"), BinaryOp::Subtract, name("c")))),
        local("s", bin(bin(name("a"), BinaryOp::Subtract, name("b")), BinaryOp::Subtract, name("c"))),
        local("t", Expr::Unary { op: xluau::ast::UnaryOp::Negate, expr: Box::new(sum()) }),
    ])
    .unwrap();
    assert_eq!(
        output,
        "local p = x * 2\nlocal q = (a + b) * c\nlocal r = a - (b - c)\nlocal s = a - b - c\nlocal t = -(a + b)"
    );
}

fn for_in(names: &[&str], iterable: &str) -> ComprehensionClause {
    ComprehensionClause::GenericFor {
        bindings: names
            .iter()
            .map(|n| Binding { pattern: Pattern::Name(n.to_string()), type_annotation: None })
            .collect(),
        iterables: vec![name(iterable)],
    }
}

#[test]
fn comprehension_filter_guards_the_clauses_after_it() {
    let output = emit(vec![local(
        "pairs",
        Expr::Comprehension(TableComprehension {
            kind: TableComprehensionKind::Array {
                value: Box::new(bin(name("x"), BinaryOp::Multiply, name("y"))),
            },
            clauses: vec![
                for_in(&["_", "x"], "xs"),
                ComprehensionClause::Filter(bin(name("x"), BinaryOp::Greater, num("1"))),
                for_in(&["_", "y"], "ys"),
            ],
        }),
    )])
    .unwrap();
    assert_eq!(
        output,
        [
            "local _comp0 = {}\n",
            "for _, x in xs do\n",
            "    if x > 1 then\n",
            "        for _, y in ys do\n",
            "            table.insert(_comp0, x * y)\n",
            "        end\n",
            "    end\n",
            "end\n",
            "local pairs = _comp0",
        ]
        .concat()
    );
}

#[test]
fn rest_only_table_pattern_copies_every_key() {
    let output = emit(vec![Stmt::Local(LocalDecl {
        start: 0,
        line: 0,
        column: 0,
        is_const: false,
        bindings: vec![Binding {
            pattern: Pattern::Table { entries: vec![], rest: Some("rest".to_string()) },
            type_annotation: None,
        }],
        values: vec![name("options")],
    })])
    .unwrap();
    assert_eq!(
        output,
        "local rest = {}\nfor _rest0, _v in options do\n    rest[_rest0] = _v\nend"
    );
}

#[test]
fn table_destructuring_reads_fields_directly() {
    let entry = |k: &str| xluau::ast::TablePatternEntry {
        key: k.to_string(),
        binding: xluau::ast::PatternBinding {
            target: Pattern::Name(k.to_string()),
            default_value: None,
        },
    };
    let output = emit(vec![Stmt::Local(LocalDecl {
        start: 0,
        line: 0,
        column: 0,
        is_const: false,
        bindings: vec![Binding {
            pattern: Pattern::Table { entries: vec![entry("x"), entry("y"), entry("z")], rest: None },
            type_annotation: None,
        }],
        values: vec![name("point")],
    })])
    .unwrap();
    assert_eq!(output, "local x = point.x\nlocal y = point.y\nlocal z = point.z");
}

#[test]
fn match_reads_fields_only_of_a_table() {
    let output = emit(vec![Stmt::Match(MatchStmt {
        value: name("result"),
        cases: vec![MatchCase {
            pattern: MatchPattern::Table(vec![
                MatchFieldPattern {
                    key: "kind".to_string(),
                    pattern: MatchPattern::Literal(text("ok")),
                },
                MatchFieldPattern {
                    key: "value".to_string(),
                    pattern: MatchPattern::Bind("v".to_string()),
                },
            ]),
            guard: None,
            block: vec![call_stmt("print", vec![name("v")])],
        }],
    })])
    .unwrap();
    assert_eq!(
        output,
        [
            "local _matched0 = false\n",
            "do\n",
            "    local _mbind1 = {}\n",
            "    if type(result) == \"table\" then\n",
            "        _mbind1[\"v\"] = result.value\n",
            "    end\n",
            "    local _mcond2 = (not _matched0) and (type(result) == \"table\" and result.kind == \"ok\" and true)\n",
            "    if _mcond2 then\n",
            "        local v = _mbind1[\"v\"]\n",
            "        _matched0 = true\n",
            "        print(v)\n",
            "    end\n",
            "end",
        ]
        .concat()
    );
}

fn decl(is_const: bool, n: &str, v: &str) -> Stmt {
    Stmt::Local(LocalDecl {
        start: 0,
        line: 0,
        column: 0,
        is_const,
        bindings: vec![Binding { pattern: Pattern::Name(n.to_string()), type_annotation: None }],
        values: vec![num(v)],
    })
}

fn assign(n: &str, v: &str) -> Stmt {
    Stmt::Assignment(Assignment {
        targets: vec![AssignTarget::Name(n.to_string())],
        values: vec![num(v)],
    })
}

#[test]
fn a_local_shadows_a_constant() {
    let output = emit(vec![decl(true, "X", "1"), Stmt::Do(vec![decl(false, "X", "2"), assign("X", "3")])])
        .unwrap();
    assert_eq!(output, "local X = 1\ndo\n    local X = 2\n    X = 3\nend");
    let messages = semantic(vec![
        decl(true, "X", "1"),
        Stmt::Do(vec![decl(false, "X", "2")]),
        assign("X", "3"),
    ]);
    assert_eq!(messages, vec!["cannot assign to const `X`".to_string()]);
}

#[test]
fn parameters_and_loop_variables_shadow_constants() {
    let function = Stmt::Function(FunctionDecl {
        start: 0,
        local_name: true,
        name: FunctionName { root: "f".to_string(), fields: vec![], method: None },
        generics: None,
        params: vec![Param::Binding(Binding {
            pattern: Pattern::Name("X".to_string()),
            type_annotation: None,
        })],
        return_type: None,
        body: vec![assign("X", "2")],
    });
    let numeric = Stmt::ForNumeric(ForNumeric {
        name: "X".to_string(),
        start: num("1"),
        end: num("3"),
        step: None,
        block: vec![assign("X", "0")],
    });
    assert!(emit(vec![decl(true, "X", "1"), function, numeric]).is_ok());
}

#[test]
fn top_level_split_keeps_nested_delimiters_and_rejoins() {
    let text: Vec<char> = "a | { b: x | y } | 'p|q' | Map<k|v>".chars().collect();
    let parts: Vec<String> = split_top_level(&text, '|')
        .iter()
        .map(|p| p.iter().collect())
        .collect();
    assert_eq!(parts, vec!["a ", " { b: x | y } ", " 'p|q' ", " Map<k|v>"]);
    assert_eq!(parts.join("|"), "a | { b: x | y } | 'p|q' | Map<k|v>");
}

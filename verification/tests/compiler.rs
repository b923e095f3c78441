use xluau::ast::{
    AssignTarget, BinaryOp, Binding, ChainSegment, CompoundOp, Expr, ForGeneric, FunctionDecl,
    FunctionName, LocalDecl, Param, Pattern, PatternBinding, PipeStage, Program, Stmt,
    TablePatternEntry, ArrayPatternItem, Assignment,
};
use xluau::compiler::{BuildArtifact, Compiler, CompilerError, ConfigField, XluauConfig};

fn compiler() -> Compiler {
    Compiler::discover(".".to_string(), Ok(None)).expect("compiler")
}

fn name(n: &str) -> Expr {
    Expr::Name(n.to_string())
}

fn num(n: &str) -> Expr {
    Expr::Number(n.to_string())
}

fn text(s: &str) -> Expr {
    Expr::String(format!("\"{s}\""))
}

fn chain(base: Expr, segments: Vec<ChainSegment>) -> Expr {
    Expr::Chain { base: Box::new(base), segments }
}

fn field(f: &str, safe: bool) -> ChainSegment {
    ChainSegment::Field { name: f.to_string(), safe }
}

fn call(args: Vec<Expr>) -> ChainSegment {
    ChainSegment::Call { args }
}

fn binding(p: Pattern) -> Binding {
    Binding { pattern: p, type_annotation: None }
}

fn local(n: &str, value: Expr) -> Stmt {
    Stmt::Local(LocalDecl {
        start: 0,
        line: 0,
        column: 0,
        is_const: false,
        bindings: vec![binding(Pattern::Name(n.to_string()))],
        values: vec![value],
    })
}

fn entry(key: &str, target: &str, default_value: Option<Expr>) -> TablePatternEntry {
    TablePatternEntry {
        key: key.to_string(),
        binding: PatternBinding { target: Pattern::Name(target.to_string()), default_value },
    }
}

fn compile(block: Vec<Stmt>) -> Result<String, CompilerError> {
    compiler().compile_program(&Program { block })
}

#[test]
fn accepts_wide_luau_grammar_via_passthrough() {
    let source = r##"
local foo: { [string]: number, bar: (number, string) -> () } = { bar = function(_x, _y) end }
foo.bar(1, "x")
foo["a"] += 1
local cast = foo :: any
local label = if cast then `value: {cast}` else "none"
export type Box<T = string> = { value: T }
for key, value in foo do
    if key then
        continue
    end
end
"##;
    let output = compiler().compile_source(source).unwrap();
    assert!(output.contains("foo[\"a\"] += 1"));
    assert!(output.contains("foo :: any"));
    assert!(output.contains("`value: {cast}`"));
    assert!(output.contains("export type Box"));
    assert!(output.contains("continue"));
}

#[test]
fn passthrough_keeps_valid_luau_and_adds_newline() {
    let output = compiler().compile_source("local x = 1").unwrap();
    assert_eq!(output, "local x = 1\n");
    let output = compiler().compile_source("local x = 1\n").unwrap();
    assert_eq!(output, "local x = 1\n");
}

#[test]
fn source_that_neither_luau_nor_xluau_accepts_is_a_parse_error() {
    let err = compiler().compile_source("f(").unwrap_err();
    assert!(matches!(err, CompilerError::Parse { .. }));
    assert!(err.message().starts_with("parse error: expected "));
    assert!(err.message().ends_with(" at 1:3"));
}

#[test]
fn unterminated_string_is_a_lex_error() {
    let err = compiler().compile_source("local s = x ?? \"open").unwrap_err();
    assert!(matches!(err, CompilerError::Lex { .. }));
}

#[test]
fn validate_luau_accepts_and_rejects() {
    assert!(compiler().validate_luau("local x = 1").is_ok());
    assert!(compiler().validate_luau("f(").is_err());
    let err = compiler().validate_luau("f(").unwrap_err();
    assert!(err.message().contains("Expected <closing parenthesis>"));
}

#[test]
fn lowers_nullish_and_ternary_from_tree() {
    let output = compile(vec![
        local(
            "timeout",
            Expr::Binary {
                left: Box::new(chain(name("config"), vec![field("timeout", false)])),
                op: BinaryOp::Nullish,
                right: Box::new(num("30")),
            },
        ),
        local(
            "label",
            Expr::Ternary {
                condition: Box::new(name("isAdmin")),
                then_expr: Box::new(text("admin")),
                else_expr: Box::new(text("user")),
            },
        ),
    ])
    .unwrap();
    assert!(output.contains("local _lhs0 = config.timeout"));
    assert!(output.contains("if _lhs0 ~= nil then _lhs0 else 30"));
    assert!(output.contains(r#"if isAdmin then "admin" else "user""#));
    assert_eq!(
        output,
        "local _lhs0 = config.timeout\nlocal timeout = if _lhs0 ~= nil then _lhs0 else 30\nlocal label = if isAdmin then \"admin\" else \"user\"\n"
    );
}

#[test]
fn lowers_optional_chain_and_pipe_from_tree() {
    let output = compile(vec![
        local(
            "words",
            Expr::Pipe {
                left: Box::new(name("str")),
                stages: vec![
                    PipeStage::Method { name: "lower".to_string(), args: vec![] },
                    PipeStage::Method { name: "split".to_string(), args: vec![text(" ")] },
                ],
            },
        ),
        local("hp", chain(name("entity"), vec![field("GetHealth", true), call(vec![])])),
        local(
            "first",
            chain(name("list"), vec![ChainSegment::Index { expr: Box::new(num("1")), safe: true }]),
        ),
    ])
    .unwrap();
    assert!(output.contains(r#"local _pipe0 = str:lower()"#));
    assert!(output.contains(r#"_pipe0:split(" ")"#));
    assert!(output.contains("local _opt"));
    assert!(output.contains("GetHealth"));
    assert!(output.contains("[1]"));
    assert_eq!(
        output,
        [
            "local _pipe0 = str:lower()\n",
            "local words = _pipe0:split(\" \")\n",
            "local _opt1 = nil\n",
            "do\n",
            "    local _cur2 = entity\n",
            "    if _cur2 ~= nil then\n",
            "        _cur2 = _cur2.GetHealth\n",
            "        _cur2 = _cur2()\n",
            "        _opt1 = _cur2\n",
            "    end\n",
            "end\n",
            "local hp = _opt1\n",
            "local _opt3 = nil\n",
            "do\n",
            "    local _cur4 = list\n",
            "    if _cur4 ~= nil then\n",
            "        _cur4 = _cur4[1]\n",
            "        _opt3 = _cur4\n",
            "    end\n",
            "end\n",
            "local first = _opt3\n",
        ].concat()
    );
}

#[test]
fn lowers_const_and_destructuring_from_tree() {
    let output = compile(vec![
        Stmt::Local(LocalDecl {
            start: 0,
            line: 0,
            column: 0,
            is_const: true,
            bindings: vec![binding(Pattern::Name("PI".to_string()))],
            values: vec![num("3.14")],
        }),
        Stmt::Local(LocalDecl {
            start: 0,
            line: 0,
            column: 0,
            is_const: false,
            bindings: vec![binding(Pattern::Table {
                entries: vec![
                    entry("x", "x", None),
                    entry("y", "posY", None),
                    entry("role", "role", Some(text("user"))),
                ],
                rest: None,
            })],
            values: vec![name("point")],
        }),
    ])
    .unwrap();
    assert!(output.contains("local PI = 3.14"));
    assert!(output.contains("local x ="));
    assert!(output.contains("local posY ="));
    assert!(output.contains(r#"if _d"#));
    assert_eq!(
        output,
        [
            "local PI = 3.14\n",
            "local x = point.x\n",
            "local posY = point.y\n",
            "local _d0 = point.role\n",
            "local role = if _d0 ~= nil then _d0 else \"user\"\n",
        ].concat()
    );
}

#[test]
fn rejects_const_reassignment_from_tree() {
    let err = compile(vec![
        Stmt::Local(LocalDecl {
            start: 0,
            line: 0,
            column: 0,
            is_const: true,
            bindings: vec![binding(Pattern::Name("PI".to_string()))],
            values: vec![num("3.14")],
        }),
        Stmt::Assignment(Assignment {
            targets: vec![AssignTarget::Name("PI".to_string())],
            values: vec![num("4")],
        }),
    ])
    .unwrap_err();
    assert!(err.message().contains("cannot assign to const"));
    match err {
        CompilerError::Semantic { messages } => {
            assert_eq!(messages, vec!["cannot assign to const `PI`".to_string()])
        }
        other => panic!("expected semantic errors, got {other:?}"),
    }
}

#[test]
fn lowers_nullish_assignment_pipe_placeholders_and_destructured_scopes_from_tree() {
    let output = compile(vec![
        Stmt::NullishAssignment {
            target: AssignTarget::Field {
                object: Box::new(name("config")),
                field: "retries".to_string(),
            },
            value: chain(name("getRetries"), vec![call(vec![])]),
        },
        local(
            "result",
            Expr::Pipe {
                left: Box::new(name("numbers")),
                stages: vec![
                    PipeStage::Call {
                        callee: Box::new(name("filter")),
                        args: vec![name("_"), name("isEven")],
                    },
                    PipeStage::Call {
                        callee: Box::new(name("map")),
                        args: vec![name("_"), name("double")],
                    },
                ],
            },
        ),
        Stmt::Function(FunctionDecl {
            start: 0,
            local_name: false,
            name: FunctionName { root: "update".to_string(), fields: vec![], method: None },
            generics: None,
            params: vec![
                Param::Binding(Binding {
                    pattern: Pattern::Table {
                        entries: vec![entry("x", "x", None), entry("y", "y", None)],
                        rest: None,
                    },
                    type_annotation: Some("Point".to_string()),
                }),
                Param::Binding(Binding {
                    pattern: Pattern::Array {
                        items: vec![ArrayPatternItem {
                            binding: Some(PatternBinding {
                                target: Pattern::Name("head".to_string()),
                                default_value: None,
                            }),
                        }],
                        rest: Some("tail".to_string()),
                    },
                    type_annotation: Some("ArrayLike".to_string()),
                }),
            ],
            return_type: None,
            body: vec![Stmt::Return(vec![name("x"), name("y"), name("head"), name("tail")])],
        }),
        Stmt::ForGeneric(ForGeneric {
            bindings: vec![binding(Pattern::Table {
                entries: vec![entry("name", "name", None), entry("score", "score", None)],
                rest: None,
            })],
            iterables: vec![name("players")],
            block: vec![Stmt::Call(chain(name("print"), vec![call(vec![name("name"), name("score")])]))],
        }),
    ])
    .unwrap();
    assert!(output.contains("if config.retries == nil then"));
    assert!(output.contains("config.retries = getRetries()"));
    assert!(output.contains("filter(numbers, isEven)"));
    assert!(output.contains("map("));
    assert!(output.contains("function update(_param"));
    assert!(output.contains("local head ="));
    assert!(output.contains("for _for"));
    assert!(output.contains("local name ="));
    assert!(output.contains("local score ="));
    assert_eq!(
        output,
        [
            "if config.retries == nil then\n",
            "    config.retries = getRetries()\n",
            "end\n",
            "local _pipe0 = filter(numbers, isEven)\n",
            "local result = map(_pipe0, double)\n",
            "function update(_param0: Point, _param1: ArrayLike)\n",
            "    local x = _param0.x\n",
            "    local y = _param0.y\n",
            "    local head = _param1[1]\n",
            "    local tail = table.move(_param1, 2, #_param1, 1, {})\n",
            "    return x, y, head, tail\n",
            "end\n",
            "for _for1 in players do\n",
            "    local name = _for1.name\n",
            "    local score = _for1.score\n",
            "    print(name, score)\n",
            "end\n",
        ].concat()
    );
}

#[test]
fn supports_mixed_xluau_with_luau_compound_and_type_assertion_from_tree() {
    let output = compile(vec![
        local(
            "count",
            Expr::Binary {
                left: Box::new(Expr::Paren(Box::new(Expr::TypeAssertion {
                    expr: Box::new(name("value")),
                    annotation: "number".to_string(),
                }))),
                op: BinaryOp::Nullish,
                right: Box::new(num("0")),
            },
        ),
        Stmt::CompoundAssignment {
            target: AssignTarget::Field { object: Box::new(name("stats")), field: "total".to_string() },
            op: CompoundOp::Add,
            value: num("1"),
        },
    ])
    .unwrap();
    assert!(output.contains("(value :: number)"));
    assert!(output.contains("stats.total = stats.total + 1"));
    assert!(output.contains("if _lhs"));
}

#[test]
fn lowered_output_that_is_not_luau_is_a_validation_error() {
    let err = compile(vec![Stmt::Call(name("x"))]).unwrap_err();
    assert!(matches!(err, CompilerError::Validation { .. }));
}

#[test]
fn error_messages_match_the_command_line() {
    let err = CompilerError::Parse { message: "expected `end`".to_string() };
    assert_eq!(err.message(), "parse error: expected `end`");
    let err = CompilerError::Semantic { messages: vec!["a".to_string(), "b".to_string()] };
    assert_eq!(err.message(), "semantic errors:\n[\"a\", \"b\"]");
    let err = CompilerError::Io { path: "x.xl".to_string(), message: "missing".to_string() };
    assert_eq!(err.message(), "io error while accessing x.xl: missing");
    let err = CompilerError::Other("plain".to_string());
    assert_eq!(err.message(), "plain");
}

#[test]
fn discover_uses_defaults_or_the_loaded_configuration() {
    let compiler = Compiler::discover("root".to_string(), Ok(None)).unwrap();
    assert_eq!(compiler.root, "root");
    assert_eq!(compiler.config.sources, vec!["src/**/*.xl".to_string()]);
    assert!(compiler.config.exclude.is_empty());
    assert_eq!(compiler.config.out_dir, "out");
    assert_eq!(compiler.config.base_dir, "src");
    let config = XluauConfig {
        sources: vec!["lib/*.xl".to_string()],
        exclude: vec!["vendor".to_string()],
        out_dir: "build".to_string(),
        base_dir: "lib".to_string(),
    };
    let compiler = Compiler::discover("r".to_string(), Ok(Some(config))).unwrap();
    assert_eq!(compiler.config.out_dir, "build");
    let err = Compiler::discover(
        "r".to_string(),
        Err(CompilerError::Config { path: "p".to_string(), message: "bad".to_string() }),
    )
    .unwrap_err();
    assert_eq!(err.message(), "invalid config at p: bad");
}

#[test]
fn exclusions_match_substrings() {
    let config = XluauConfig {
        sources: vec![],
        exclude: vec!["vendor".to_string(), "_test".to_string()],
        out_dir: "out".to_string(),
        base_dir: "src".to_string(),
    };
    let compiler = Compiler::discover("r".to_string(), Ok(Some(config))).unwrap();
    assert!(compiler.is_excluded("src/vendor/lib.xl"));
    assert!(compiler.is_excluded("src/a_test.xl"));
    assert!(!compiler.is_excluded("src/main.xl"));
}

#[test]
fn reports_built_and_checked_artifacts() {
    let artifact = BuildArtifact {
        input: "src/main.xl".to_string(),
        output: "out/main.luau".to_string(),
        luau: "local π = 1\n".to_string(),
    };
    assert_eq!(artifact.built_line(), "built src/main.xl -> out/main.luau");
    assert_eq!(artifact.checked_line(), "checked src/main.xl (13) bytes");
}

#[test]
fn lowers_nullish_and_ternary() {
    let source = r#"
local timeout = config.timeout ?? 30
local label = isAdmin ? "admin" : "user"
"#;
    let output = compiler().compile_source(source).unwrap();
    assert!(output.contains("local _lhs0 = config.timeout"));
    assert!(output.contains("if _lhs0 ~= nil then _lhs0 else 30"));
    assert!(output.contains(r#"if isAdmin then "admin" else "user""#));
}

#[test]
fn lowers_optional_chain_and_pipe() {
    let source = r#"
local words = str |> :lower() |> :split(" ")
local hp = entity?.GetHealth()
local first = list?.[1]
"#;
    let output = compiler().compile_source(source).unwrap();
    assert!(output.contains(r#"local _pipe0 = str:lower()"#));
    assert!(output.contains(r#"_pipe0:split(" ")"#));
    assert!(output.contains("local _opt"));
    assert!(output.contains("GetHealth"));
    assert!(output.contains("[1]"));
}

#[test]
fn lowers_const_and_destructuring() {
    let source = r#"
const PI = 3.14
local { x, y: posY, role = "user" } = point
"#;
    let output = compiler().compile_source(source).unwrap();
    assert!(output.contains("local PI = 3.14"));
    assert!(output.contains("local x ="));
    assert!(output.contains("local posY ="));
    assert!(output.contains("if _d"));
}

#[test]
fn rejects_const_reassignment() {
    let source = r#"
const PI = 3.14
PI = 4
"#;
    let err = compiler().compile_source(source).unwrap_err();
    assert!(err.message().contains("cannot assign to const"));
}

#[test]
fn lowers_nullish_assignment_pipe_placeholders_and_destructured_scopes() {
    let source = r#"
config.retries ??= getRetries()
local result = numbers |> filter(_, isEven) |> map(_, double)

function update({ x, y }: Point, [head, ...tail]: ArrayLike)
    return x, y, head, tail
end

for { name, score } in players do
    print(name, score)
end
"#;
    let output = compiler().compile_source(source).unwrap();
    assert!(output.contains("if config.retries == nil then"));
    assert!(output.contains("config.retries = getRetries()"));
    assert!(output.contains("filter(numbers, isEven)"));
    assert!(output.contains("map("));
    assert!(output.contains("function update(_param"));
    assert!(output.contains("local head ="));
    assert!(output.contains("for _for"));
    assert!(output.contains("local name ="));
    assert!(output.contains("local score ="));
}

#[test]
fn supports_mixed_xluau_with_luau_compound_and_type_assertion() {
    let source = r#"
local count = (value :: number) ?? 0
stats.total += 1
"#;
    let output = compiler().compile_source(source).unwrap();
    assert!(output.contains("(value :: number)"));
    assert!(output.contains("stats.total = stats.total + 1"));
    assert!(output.contains("if _lhs"));
}

#[test]
fn compiles_the_getting_started_example() {
    let source = "local config = {}\n\nlocal timeout = config.timeout ?? 30\nlocal role = isAdmin ? \"admin\" : \"user\"\n\nprint(timeout, role)\n";
    let output = compiler().compile_source(source).unwrap();
    assert_eq!(
        output,
        "local config = {}\nlocal _lhs0 = config.timeout\nlocal timeout = if _lhs0 ~= nil then _lhs0 else 30\nlocal role = if isAdmin then \"admin\" else \"user\"\nprint(timeout, role)\n"
    );
}

#[test]
fn compiles_a_pipe_of_plain_functions() {
    let output = compiler()
        .compile_source("local result = rawData |> parse |> normalize |> validate\n")
        .unwrap();
    assert_eq!(
        output,
        "local _pipe0 = parse(rawData)\nlocal _pipe1 = normalize(_pipe0)\nlocal result = validate(_pipe1)\n"
    );
}

#[test]
fn compiles_switch_match_and_enum_source() {
    let source = r#"
enum Direction
    North
    South
end
local d: Direction = Direction.North
switch d
    case "North"
        print("up")
    default
        print("other")
end
match result
    { kind = "ok", value = v }
        print(v)
    { kind = "err", error = e }
        print(e)
end
"#;
    let output = compiler().compile_source(source).unwrap();
    assert!(output.contains("type Direction = \"North\" | \"South\""));
    assert!(output.contains("print(\"up\")"));
    assert!(output.contains("print(v)"), "{output}");
}

#[test]
fn output_paths_mirror_the_source_layout_under_out_dir() {
    let compiler = Compiler::discover("/proj".to_string(), Ok(None)).unwrap();
    assert_eq!(compiler.output_path_for("/proj/src/main.xl"), "/proj/out/main.luau");
    assert_eq!(compiler.output_path_for("/proj/src/a.b/c"), "/proj/out/a.b/c.luau");
    assert_eq!(compiler.output_path_for("/proj/lib/util.xl"), "/proj/out/lib/util.luau");
    assert_eq!(compiler.output_path_for("/elsewhere/x.xl"), "/elsewhere/x.luau");
    assert_eq!(compiler.output_path_for("/projects/x.xl"), "/projects/x.luau");
}

#[test]
fn configuration_fields_take_defaults_and_report_shapes() {
    let config = XluauConfig::from_fields(
        "xluau.config.json",
        "patterns",
        ConfigField::List(vec![Some("lib/**/*.xl".to_string())]),
        ConfigField::Absent,
        ConfigField::Text("build".to_string()),
        ConfigField::Absent,
    )
    .unwrap();
    assert_eq!(config.sources, vec!["lib/**/*.xl".to_string()]);
    assert!(config.exclude.is_empty());
    assert_eq!(config.out_dir, "build");
    assert_eq!(config.base_dir, "src");
    let err = XluauConfig::from_fields(
        "xluau.config.json",
        "patterns",
        ConfigField::List(vec![Some("a".to_string()), None]),
        ConfigField::Other,
        ConfigField::Absent,
        ConfigField::Absent,
    )
    .unwrap_err();
    assert_eq!(err.message(), "invalid config at xluau.config.json: `patterns` must list strings");
    let err = XluauConfig::from_fields(
        "c.json",
        "patterns",
        ConfigField::Absent,
        ConfigField::Absent,
        ConfigField::Other,
        ConfigField::Absent,
    )
    .unwrap_err();
    assert_eq!(err.message(), "invalid config at c.json: `outDir` must be a string");
}

#[test]
fn every_semantic_error_has_a_known_cause() {
    let source = "const A = 1\nconst B = 2\nA = 3\nB = 4\n";
    match compiler().compile_source(source) {
        Err(CompilerError::Semantic { messages }) => {
            assert_eq!(messages, vec!["cannot assign to const `A`", "cannot assign to const `B`"]);
        }
        other => panic!("expected semantic errors, got {other:?}"),
    }
}

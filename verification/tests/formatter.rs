use xluau::formatter::{format_luau, format_source};

#[test]
fn formats_nested_blocks() {
    let source = r#"
if ok then
print(value)
else
print("no")
end
"#;
    let formatted = format_source(source);
    assert_eq!(
        formatted,
        "if ok then\n    print(value)\nelse\n    print(\"no\")\nend\n"
    );
}

#[test]
fn formats_signal_state_blocks() {
    let source = r#"
signal OnLoaded: (value: number)
state count: number = 0
watch count |old, new|
print(old, new)
end
on OnLoaded |value|
print(value)
end
"#;
    let formatted = format_source(source);
    assert_eq!(
        formatted,
        "signal OnLoaded: (value: number)\nstate count: number = 0\nwatch count |old, new|\n    print(old, new)\nend\non OnLoaded |value|\n    print(value)\nend\n"
    );
}

#[test]
fn format_luau_adds_one_final_newline() {
    assert_eq!(format_luau("local x = 1").ok().unwrap(), "local x = 1\n");
    assert_eq!(format_luau("local x = 1\n").ok().unwrap(), "local x = 1\n");
    assert_eq!(format_luau("").ok().unwrap(), "\n");
}

#[test]
fn format_luau_is_idempotent_on_examples() {
    for source in ["", "a", "a\n", "a\n\n", "x = 1\ny = 2"] {
        let once = format_luau(source).ok().unwrap();
        let twice = format_luau(&once).ok().unwrap();
        assert_eq!(once, twice);
    }
}

#[test]
fn format_source_folds_blank_lines_and_trims() {
    let source = "\n\n  local a = 1   \n\n\n\nlocal b = 2\n";
    assert_eq!(format_source(source), "local a = 1\n\nlocal b = 2\n");
}

#[test]
fn format_source_dedents_closers_without_going_negative() {
    assert_eq!(format_source("end\nend\nx"), "end\nend\nx\n");
    assert_eq!(
        format_source("while true do\nrepeat\nx()\nuntil done\nend"),
        "while true do\n    repeat\n        x()\n    until done\nend\n"
    );
}

#[test]
fn format_source_handles_elseif_and_functions() {
    assert_eq!(
        format_source("function f(a)\nif a then\nreturn 1\nelseif b then\nreturn 2\nend\nend"),
        "function f(a)\n    if a then\n        return 1\n    elseif b then\n        return 2\n    end\nend\n"
    );
}

#[test]
fn format_source_is_idempotent_on_examples() {
    let sources = [
        "if ok then\nprint(value)\nelse\nprint(\"no\")\nend\n",
        "function f()\n\n\nreturn 1\nend",
        "  local x = 1\n    local y = 2\n",
        "",
        "\n\n",
        "do\r\nx()\r\n\r\n\r\nend\r\n\r\n",
    ];
    for source in sources {
        let once = format_source(source);
        assert_eq!(format_source(&once), once);
    }
}

#[test]
fn formatting_keeps_every_non_blank_line_in_order() {
    let source = "  local a = 1\n\n\n if a then\nprint(a)   \n\t end  \n";
    let out = format_source(source);
    let content = |s: &str| -> Vec<String> {
        s.lines().map(|l| l.trim().to_string()).filter(|l| !l.is_empty()).collect()
    };
    assert_eq!(content(&out), content(source));
    assert_eq!(out, "local a = 1\n\nif a then\n    print(a)\nend\n");
}

#[test]
fn formatted_lines_are_blank_or_indented_trimmed_text() {
    let out = format_source("\n\n  if a then\n\n\n\tx = 1   \n end\n\n");
    assert_eq!(out, "if a then\n\n    x = 1\nend\n");
    assert!(!out.contains("\n\n\n"));
    assert!(!out.starts_with('\n'));
    for line in out.lines() {
        let text = line.trim_start_matches(' ');
        assert!(line.is_empty() || ((line.len() - text.len()) % 4 == 0 && text == text.trim() && !text.is_empty()));
    }
    assert_eq!(format_source(""), "\n");
}

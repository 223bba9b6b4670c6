use mycli::toolparse::parse_tool_use;
use mycli::tools::{
    format_read_result, format_shell_result, format_write_result, normalize_escaped_content,
    plan_tool_action, ToolAction, ToolCall, ToolError,
};

#[test]
fn read_call_parses_and_reads_back() {
    // The recognized read call, and the exact result text for a one-byte
    // file.
    let text = "<use_tool name=\"filesystem.read\" params={\"path\":\"a.txt\"}/>";
    let call = parse_tool_use(text).expect("recognized");
    assert_eq!(call.name, "filesystem.read");
    assert_eq!(call.path.as_deref(), Some("a.txt"));
    assert_eq!(call.content, None);
    match plan_tool_action(&call) {
        Ok(ToolAction::ReadFile { path }) => assert_eq!(path, "a.txt"),
        other => panic!("expected a read action, got {:?}", other),
    }
    let result = format_read_result("a.txt", "X");
    assert!(result.contains("Read file 'a.txt' (1 bytes)"));
    assert!(result.contains("X"));
    assert_eq!(result, "Read file 'a.txt' (1 bytes). Content:\nX");
}

#[test]
fn write_call_parses_with_spaces_and_self_closing_tag() {
    let text = "before <use_tool name=\"filesystem.write\"  params={ \"path\": \"out.txt\" , \"content\": \"Hello\" } /> after";
    let call = parse_tool_use(text).expect("recognized");
    assert_eq!(call.name, "filesystem.write");
    assert_eq!(call.path.as_deref(), Some("out.txt"));
    assert_eq!(call.content.as_deref(), Some("Hello"));
}

#[test]
fn shell_call_parses() {
    let text = "<use_tool name=\"shell.run\" params={\"content\": \"mkdir Playground\"} >";
    let call = parse_tool_use(text).expect("recognized");
    assert_eq!(call.name, "shell.run");
    assert_eq!(call.path, None);
    assert_eq!(call.content.as_deref(), Some("mkdir Playground"));
}

#[test]
fn only_the_first_region_is_honored() {
    let text = "<use_tool name=\"filesystem.read\" params={\"path\":\"first.txt\"}/> and \
                <use_tool name=\"filesystem.read\" params={\"path\":\"second.txt\"}/>";
    let call = parse_tool_use(text).expect("recognized");
    assert_eq!(call.path.as_deref(), Some("first.txt"));
}

#[test]
fn bad_json_falls_back_to_the_known_shapes() {
    // `\x` is not a valid JSON escape, so the strict parse fails; the
    // permissive shell shape still captures the raw command.
    let text = "<use_tool name=\"shell.run\" params={\"content\": \"echo a\\x\"}/>";
    let call = parse_tool_use(text).expect("recognized by fallback");
    assert_eq!(call.name, "shell.run");
    assert_eq!(call.content.as_deref(), Some("echo a\\x"));
    // An unknown tool with bad JSON is not recognized at all.
    let text = "<use_tool name=\"other.tool\" params={\"content\": \"a\\x\"}/>";
    assert!(parse_tool_use(text).is_none());
}

#[test]
fn no_region_means_no_call() {
    assert!(parse_tool_use("just a normal answer. Done.").is_none());
    assert!(parse_tool_use("<use_tool name=\"x\" params=nothing>").is_none());
    assert!(parse_tool_use("<use_tool name=\"\" params={}/>").is_none());
}

#[test]
fn json_escapes_decode_in_parsed_content() {
    let text = "<use_tool name=\"filesystem.write\" params={\"path\":\"f\",\"content\":\"a\\nb\\\"c\"}/>";
    let call = parse_tool_use(text).expect("recognized");
    assert_eq!(call.content.as_deref(), Some("a\nb\"c"));
}

#[test]
fn unknown_tool_and_missing_parameters_are_errors() {
    let call = ToolCall { name: "other.tool".to_string(), path: None, content: None };
    assert_eq!(plan_tool_action(&call).unwrap_err(), ToolError::UnknownTool);
    let call = ToolCall { name: "filesystem.read".to_string(), path: None, content: None };
    assert_eq!(plan_tool_action(&call).unwrap_err(), ToolError::MissingParameter);
    let call = ToolCall {
        name: "filesystem.write".to_string(),
        path: Some("f".to_string()),
        content: None,
    };
    assert_eq!(plan_tool_action(&call).unwrap_err(), ToolError::MissingParameter);
    let call = ToolCall { name: "shell.run".to_string(), path: None, content: None };
    assert_eq!(plan_tool_action(&call).unwrap_err(), ToolError::MissingParameter);
}

#[test]
fn written_content_is_unescaped_first() {
    let call = ToolCall {
        name: "filesystem.write".to_string(),
        path: Some("out.txt".to_string()),
        content: Some("line1\\nline2\\t\\\\end\\'q\\\"q".to_string()),
    };
    match plan_tool_action(&call) {
        Ok(ToolAction::WriteFile { path, data }) => {
            assert_eq!(path, "out.txt");
            assert_eq!(data, "line1\nline2\t\\end'q\"q");
        },
        other => panic!("expected a write action, got {:?}", other),
    }
}

#[test]
fn normalize_keeps_lone_backslashes() {
    assert_eq!(normalize_escaped_content("a\\nb"), "a\nb");
    assert_eq!(normalize_escaped_content("a\\zb"), "a\\zb");
    assert_eq!(normalize_escaped_content("end\\"), "end\\");
    assert_eq!(normalize_escaped_content(""), "");
    assert_eq!(normalize_escaped_content("\\\\\\n"), "\\\n");
}

#[test]
fn result_texts_are_exact() {
    assert_eq!(format_write_result("out.txt", 5), "Wrote 5 bytes to 'out.txt'.");
    assert_eq!(
        format_shell_result("ls", "a\nb\n", ""),
        "Command `ls` executed.\nSTDOUT:\na\nb\n\nSTDERR:\n"
    );
}

#[test]
fn duplicate_parameter_keys_take_the_last_binding() {
    let text = "<use_tool name=\"filesystem.read\" params={\"path\":\"a\",\"path\":\"b\"}/>";
    let call = parse_tool_use(text).expect("recognized");
    assert_eq!(call.path.as_deref(), Some("b"));
}

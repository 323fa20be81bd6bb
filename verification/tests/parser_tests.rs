//! Tests for decoding chat exports.

use cp2md::parser::{parse_chat, ContextItem, ParseError, ResponseElement};

fn minimal_chat_json(requests_json: &str) -> String {
    format!(
        r#"{{
            "responderUsername": "GitHub Copilot",
            "requests": [{requests_json}]
        }}"#
    )
}

fn request_json(message: &str, response_elements: &str) -> String {
    format!(
        r#"{{
            "timestamp": 1733356800000,
            "modelId": "example-model-1",
            "message": {{ "text": "{message}" }},
            "response": [{response_elements}]
        }}"#
    )
}

fn request_json_with_agent(message: &str, agent_name: &str) -> String {
    format!(
        r#"{{
            "timestamp": 1733356800000,
            "modelId": "example-model-1",
            "agent": {{ "name": "{agent_name}" }},
            "message": {{ "text": "{message}" }},
            "response": []
        }}"#
    )
}

fn request_json_with_context(message: &str, variables_json: &str) -> String {
    format!(
        r#"{{
            "timestamp": 1733356800000,
            "modelId": "example-model-1",
            "message": {{ "text": "{message}" }},
            "response": [],
            "variableData": {{ "variables": [{variables_json}] }}
        }}"#
    )
}

#[test]
fn parses_minimal_chat() {
    let json = minimal_chat_json(&request_json("Hello", ""));
    let chat = parse_chat(&json).unwrap();

    assert_eq!(chat.responder_username, "GitHub Copilot");
    assert_eq!(chat.requests.len(), 1);
    assert_eq!(chat.requests[0].message.text, "Hello");
    assert_eq!(chat.requests[0].model_id, Some("example-model-1".into()));
}

#[test]
fn parses_text_response() {
    let json = minimal_chat_json(&request_json("Hi", r#"{"value": "Hello there!"}"#));
    let chat = parse_chat(&json).unwrap();

    match &chat.requests[0].response[0] {
        ResponseElement::Text(text) => assert_eq!(text, "Hello there!"),
        other => panic!("Expected Text, got {other:?}"),
    }
}

#[test]
fn parses_inline_reference() {
    let json = minimal_chat_json(&request_json(
        "Check file",
        r#"{
            "kind": "inlineReference",
            "name": "main.rs",
            "inlineReference": { "path": "/src/main.rs" }
        }"#,
    ));
    let chat = parse_chat(&json).unwrap();

    match &chat.requests[0].response[0] {
        ResponseElement::InlineReference { name, path } => {
            assert_eq!(name.as_deref(), Some("main.rs"));
            assert_eq!(path, "/src/main.rs");
        }
        other => panic!("Expected InlineReference, got {other:?}"),
    }
}

#[test]
fn parses_inline_reference_without_name() {
    let json = minimal_chat_json(&request_json(
        "Check file",
        r#"{
            "kind": "inlineReference",
            "inlineReference": { "path": "/src/lib.rs" }
        }"#,
    ));
    let chat = parse_chat(&json).unwrap();

    match &chat.requests[0].response[0] {
        ResponseElement::InlineReference { name, path } => {
            assert!(name.is_none());
            assert_eq!(path, "/src/lib.rs");
        }
        other => panic!("Expected InlineReference, got {other:?}"),
    }
}

#[test]
fn parses_inline_reference_with_nested_name() {
    // Symbol references (functions, types) have the name inside inlineReference
    let json = minimal_chat_json(&request_json(
        "Check symbol",
        r#"{
            "kind": "inlineReference",
            "inlineReference": {
                "name": "Deserialize",
                "kind": 12,
                "location": { "range": {} }
            }
        }"#,
    ));
    let chat = parse_chat(&json).unwrap();

    match &chat.requests[0].response[0] {
        ResponseElement::InlineReference { name, path } => {
            assert_eq!(name.as_deref(), Some("Deserialize"));
            assert_eq!(path, ""); // No path for symbol references
        }
        other => panic!("Expected InlineReference, got {other:?}"),
    }
}

#[test]
fn parses_codeblock_uri() {
    let json = minimal_chat_json(&request_json(
        "Show code",
        r#"{
            "kind": "codeblockUri",
            "uri": { "path": "/src/parser.rs" }
        }"#,
    ));
    let chat = parse_chat(&json).unwrap();

    match &chat.requests[0].response[0] {
        ResponseElement::CodeBlockUri { path } => {
            assert_eq!(path, "/src/parser.rs");
        }
        other => panic!("Expected CodeBlockUri, got {other:?}"),
    }
}

#[test]
fn parses_text_edit_group() {
    let json = minimal_chat_json(&request_json(
        "Edit file",
        r#"{
            "kind": "textEditGroup",
            "uri": { "path": "/src/main.rs" },
            "edits": [
                [{"text": "fn main() {}"}],
                [{"text": "// comment"}]
            ]
        }"#,
    ));
    let chat = parse_chat(&json).unwrap();

    match &chat.requests[0].response[0] {
        ResponseElement::TextEditGroup { path, edits } => {
            assert_eq!(path, "/src/main.rs");
            assert_eq!(edits.len(), 2);
            assert_eq!(edits[0], "fn main() {}");
            assert_eq!(edits[1], "// comment");
        }
        other => panic!("Expected TextEditGroup, got {other:?}"),
    }
}

#[test]
fn parses_tool_invocation() {
    let json = minimal_chat_json(&request_json(
        "Search",
        r#"{
            "kind": "toolInvocationSerialized",
            "pastTenseMessage": { "value": "Searched for text" }
        }"#,
    ));
    let chat = parse_chat(&json).unwrap();

    match &chat.requests[0].response[0] {
        ResponseElement::ToolInvocation { past_tense } => {
            assert_eq!(past_tense.as_deref(), Some("Searched for text"));
        }
        other => panic!("Expected ToolInvocation, got {other:?}"),
    }
}

#[test]
fn parses_tool_invocation_without_message() {
    let json = minimal_chat_json(&request_json(
        "Search",
        r#"{"kind": "toolInvocationSerialized"}"#,
    ));
    let chat = parse_chat(&json).unwrap();

    match &chat.requests[0].response[0] {
        ResponseElement::ToolInvocation { past_tense } => {
            assert!(past_tense.is_none());
        }
        other => panic!("Expected ToolInvocation, got {other:?}"),
    }
}

#[test]
fn parses_unknown_kind_as_other() {
    let json = minimal_chat_json(&request_json(
        "Something",
        r#"{"kind": "unknownKind", "data": "whatever"}"#,
    ));
    let chat = parse_chat(&json).unwrap();

    assert!(matches!(
        chat.requests[0].response[0],
        ResponseElement::Other
    ));
}

#[test]
fn parses_object_without_kind_or_value_as_other() {
    let json = minimal_chat_json(&request_json("Something", r#"{"someField": "someValue"}"#));
    let chat = parse_chat(&json).unwrap();

    assert!(matches!(
        chat.requests[0].response[0],
        ResponseElement::Other
    ));
}

#[test]
fn parses_multiple_response_elements() {
    let json = minimal_chat_json(&request_json(
        "Multi",
        r#"{"value": "First"}, {"value": "Second"}"#,
    ));
    let chat = parse_chat(&json).unwrap();

    assert_eq!(chat.requests[0].response.len(), 2);
    match (&chat.requests[0].response[0], &chat.requests[0].response[1]) {
        (ResponseElement::Text(a), ResponseElement::Text(b)) => {
            assert_eq!(a, "First");
            assert_eq!(b, "Second");
        }
        other => panic!("Expected two Text elements, got {other:?}"),
    }
}

#[test]
fn parses_request_without_model_id() {
    let json = r#"{
        "responderUsername": "Copilot",
        "requests": [{
            "timestamp": 1733356800000,
            "message": { "text": "Hi" },
            "response": []
        }]
    }"#;
    let chat = parse_chat(json).unwrap();

    assert!(chat.requests[0].model_id.is_none());
}

#[test]
fn parses_agent_name() {
    let json = minimal_chat_json(&request_json_with_agent("Hi", "docs-agent"));
    let chat = parse_chat(&json).unwrap();

    assert_eq!(
        chat.requests[0].agent_name.as_deref(),
        Some("docs-agent")
    );
}

#[test]
fn parses_request_without_agent() {
    let json = minimal_chat_json(&request_json("Hi", ""));
    let chat = parse_chat(&json).unwrap();

    assert!(chat.requests[0].agent_name.is_none());
}

#[test]
fn parses_file_context() {
    let json = minimal_chat_json(&request_json_with_context(
        "Hi",
        r#"{
            "kind": "file",
            "name": "file:main.rs",
            "value": { "uri": { "path": "/src/main.rs" } }
        }"#,
    ));
    let chat = parse_chat(&json).unwrap();

    assert_eq!(chat.requests[0].context.len(), 1);
    match &chat.requests[0].context[0] {
        ContextItem::File { name, path } => {
            assert_eq!(name, "main.rs");
            assert_eq!(path, "/src/main.rs");
        }
        other => panic!("Expected File, got {other:?}"),
    }
}

#[test]
fn parses_selection_context() {
    let json = minimal_chat_json(&request_json_with_context(
        "Hi",
        r#"{
            "kind": "file",
            "id": "vscode.implicit.selection",
            "name": "file:todo.md",
            "value": {
                "uri": { "path": "/docs/todo.md" },
                "range": { "startLineNumber": 5, "endLineNumber": 10 }
            }
        }"#,
    ));
    let chat = parse_chat(&json).unwrap();

    assert_eq!(chat.requests[0].context.len(), 1);
    match &chat.requests[0].context[0] {
        ContextItem::Selection {
            name,
            path,
            start_line,
            end_line,
        } => {
            assert_eq!(name, "todo.md");
            assert_eq!(path, "/docs/todo.md");
            assert_eq!(*start_line, 5);
            assert_eq!(*end_line, 10);
        }
        other => panic!("Expected Selection, got {other:?}"),
    }
}

#[test]
fn parses_instructions_context() {
    let json = minimal_chat_json(&request_json_with_context(
        "Hi",
        r#"{
            "kind": "promptFile",
            "name": "prompt:copilot-instructions.md"
        }"#,
    ));
    let chat = parse_chat(&json).unwrap();

    assert_eq!(chat.requests[0].context.len(), 1);
    match &chat.requests[0].context[0] {
        ContextItem::Instructions { name } => {
            assert_eq!(name, "copilot-instructions.md");
        }
        other => panic!("Expected Instructions, got {other:?}"),
    }
}

#[test]
fn parses_folder_context() {
    let json = minimal_chat_json(&request_json_with_context(
        "Hi",
        r#"{
            "kind": "folder",
            "name": "src/",
            "value": { "path": "/project/src" }
        }"#,
    ));
    let chat = parse_chat(&json).unwrap();

    assert_eq!(chat.requests[0].context.len(), 1);
    match &chat.requests[0].context[0] {
        ContextItem::Folder { name, path } => {
            assert_eq!(name, "src/");
            assert_eq!(path, "/project/src");
        }
        other => panic!("Expected Folder, got {other:?}"),
    }
}

#[test]
fn skips_tool_and_prompt_text_context() {
    let json = minimal_chat_json(&request_json_with_context(
        "Hi",
        r#"
            {"kind": "tool", "name": "Codebase"},
            {"kind": "promptText", "name": "instructions"}
        "#,
    ));
    let chat = parse_chat(&json).unwrap();

    assert!(chat.requests[0].context.is_empty());
}

#[test]
fn parses_empty_context() {
    let json = minimal_chat_json(&request_json("Hi", ""));
    let chat = parse_chat(&json).unwrap();

    assert!(chat.requests[0].context.is_empty());
}

#[test]
fn returns_error_for_invalid_json() {
    let result = parse_chat("not valid json");
    assert!(result.is_err());
}

#[test]
fn returns_error_for_missing_required_fields() {
    let result = parse_chat(r#"{"responderUsername": "Copilot"}"#);
    assert!(result.is_err());
}

#[test]
fn minimal_root_decodes_regardless_of_extra_fields() {
    // A root with the two required fields always decodes, to an empty
    // exchange sequence, whatever else stands beside them.
    let json = r#"{
        "responderUsername": "Copilot",
        "requests": [],
        "version": 3,
        "extra": { "whatever": [1, 2, 3] }
    }"#;
    let chat = parse_chat(json).unwrap();
    assert_eq!(chat.responder_username, "Copilot");
    assert!(chat.requests.is_empty());
}

#[test]
fn returns_error_for_mistyped_required_fields() {
    assert!(parse_chat(r#"{"responderUsername": 7, "requests": []}"#).is_err());
    assert!(parse_chat(r#"{"responderUsername": "Copilot", "requests": {}}"#).is_err());
    assert!(parse_chat(r#"[1, 2, 3]"#).is_err());
}

#[test]
fn error_carries_json_source() {
    match parse_chat("][") {
        Err(ParseError::Json { source: _ }) => {}
        Ok(_) => panic!("Expected an error for malformed JSON"),
    }
}

#[test]
fn kind_tag_takes_priority_over_value_field() {
    // With both a kind tag and a value field present, the tag decides.
    let json = minimal_chat_json(&request_json(
        "Hi",
        r#"{"kind": "unknownKind", "value": "not text"}"#,
    ));
    let chat = parse_chat(&json).unwrap();
    assert!(matches!(
        chat.requests[0].response[0],
        ResponseElement::Other
    ));

    let json = minimal_chat_json(&request_json(
        "Hi",
        r#"{"kind": "toolInvocationSerialized", "value": "not text"}"#,
    ));
    let chat = parse_chat(&json).unwrap();
    assert!(matches!(
        chat.requests[0].response[0],
        ResponseElement::ToolInvocation { .. }
    ));
}

#[test]
fn malformed_message_defaults_to_empty_text() {
    let json = minimal_chat_json(
        r#"{
            "timestamp": 1,
            "message": { "wrong": "shape" },
            "response": []
        }"#,
    );
    let chat = parse_chat(&json).unwrap();
    assert_eq!(chat.requests[0].message.text, "");
}

#[test]
fn missing_timestamp_defaults_to_zero() {
    let json = minimal_chat_json(r#"{"message": {"text": "Hi"}, "response": []}"#);
    let chat = parse_chat(&json).unwrap();
    assert_eq!(chat.requests[0].timestamp, 0);
}

#[test]
fn range_without_selection_marker_stays_file() {
    // A whole-file attachment reporting lines 1..1 stays a file.
    let json = minimal_chat_json(&request_json_with_context(
        "Hi",
        r#"{
            "kind": "file",
            "id": "vscode.file",
            "name": "file:a.rs",
            "value": {
                "uri": { "path": "/a.rs" },
                "range": { "startLineNumber": 1, "endLineNumber": 1 }
            }
        }"#,
    ));
    let chat = parse_chat(&json).unwrap();
    assert!(matches!(
        chat.requests[0].context[0],
        ContextItem::File { .. }
    ));
}

#[test]
fn selection_id_marks_selection_even_for_single_line() {
    let json = minimal_chat_json(&request_json_with_context(
        "Hi",
        r#"{
            "kind": "file",
            "id": "vscode.implicit.selection",
            "name": "file:a.rs",
            "value": {
                "uri": { "path": "/a.rs" },
                "range": { "startLineNumber": 1, "endLineNumber": 1 }
            }
        }"#,
    ));
    let chat = parse_chat(&json).unwrap();
    match &chat.requests[0].context[0] {
        ContextItem::Selection {
            start_line,
            end_line,
            ..
        } => {
            assert_eq!((*start_line, *end_line), (1, 1));
        }
        other => panic!("Expected Selection, got {other:?}"),
    }
}

#[test]
fn file_path_falls_back_to_value_path() {
    let json = minimal_chat_json(&request_json_with_context(
        "Hi",
        r#"{
            "kind": "file",
            "name": "b.rs",
            "value": { "path": "/fallback/b.rs" }
        }"#,
    ));
    let chat = parse_chat(&json).unwrap();
    match &chat.requests[0].context[0] {
        ContextItem::File { path, .. } => assert_eq!(path, "/fallback/b.rs"),
        other => panic!("Expected File, got {other:?}"),
    }
}

#[test]
fn nested_edit_groups_flatten_in_order() {
    let json = minimal_chat_json(&request_json(
        "Edit",
        r#"{
            "kind": "textEditGroup",
            "uri": { "path": "/src/lib.rs" },
            "edits": [
                [{"text": "one"}, {"text": "two"}],
                [{"text": "three"}]
            ]
        }"#,
    ));
    let chat = parse_chat(&json).unwrap();
    match &chat.requests[0].response[0] {
        ResponseElement::TextEditGroup { edits, .. } => {
            assert_eq!(edits, &["one", "two", "three"]);
        }
        other => panic!("Expected TextEditGroup, got {other:?}"),
    }
}

#[test]
fn non_array_request_entries_decode_to_defaults() {
    // Entries of any JSON type decode to a default request.
    let json = r#"{
        "responderUsername": "Copilot",
        "requests": [5, "text", null]
    }"#;
    let chat = parse_chat(json).unwrap();
    assert_eq!(chat.requests.len(), 3);
    for req in &chat.requests {
        assert_eq!(req.timestamp, 0);
        assert_eq!(req.message.text, "");
        assert!(req.response.is_empty());
        assert!(req.context.is_empty());
    }
}

//! Tests for Markdown rendering.

use cp2md::parser::{ChatExport, Message, Request, ResponseElement};
use cp2md::renderer::{
    escape_xml_tags, format_path_display, heading, is_only_code_fences, render_chat,
    shift_headings, RenderOptions,
};

fn make_chat(requests: Vec<Request>) -> ChatExport {
    ChatExport {
        responder_username: "GitHub Copilot".into(),
        requests,
    }
}

fn make_request(message: &str, response: Vec<ResponseElement>) -> Request {
    Request {
        timestamp: 1_733_356_800_000, // 2024-12-05 00:00:00 UTC
        model_id: Some("example-model-1".into()),
        agent_name: None,
        context: vec![],
        message: Message {
            text: message.into(),
        },
        response,
    }
}

fn default_opts() -> RenderOptions {
    RenderOptions::default()
}

#[test]
fn renders_basic_chat_structure() {
    let chat = make_chat(vec![make_request("Hello", vec![])]);
    let output = render_chat(&chat, &default_opts());

    assert!(output.starts_with("# Copilot Chat\n\n"));
    assert!(output.contains("## User\n"));
    assert!(output.contains("## Assistant\n"));
}

#[test]
fn renders_user_message() {
    let chat = make_chat(vec![make_request("What is Rust?", vec![])]);
    let output = render_chat(&chat, &default_opts());

    assert!(output.contains("What is Rust?"));
}

#[test]
fn renders_text_response() {
    let chat = make_chat(vec![make_request(
        "Hi",
        vec![ResponseElement::Text("Hello there!".into())],
    )]);
    let output = render_chat(&chat, &default_opts());

    assert!(output.contains("Hello there!"));
}

#[test]
fn renders_multiple_text_responses_concatenated() {
    let chat = make_chat(vec![make_request(
        "Hi",
        vec![
            ResponseElement::Text("First ".into()),
            ResponseElement::Text("Second".into()),
        ],
    )]);
    let output = render_chat(&chat, &default_opts());

    assert!(output.contains("First Second"));
}

#[test]
fn renders_model_id_when_no_timestamps() {
    let chat = make_chat(vec![make_request("Hi", vec![])]);
    let opts = RenderOptions {
        show_tools: false,
        show_timestamps: false,
        ..Default::default()
    };
    let output = render_chat(&chat, &opts);

    assert!(output.contains("*example-model-1*"));
}

#[test]
fn renders_timestamp_and_model_when_enabled() {
    let chat = make_chat(vec![make_request("Hi", vec![])]);
    let opts = RenderOptions {
        show_tools: false,
        show_timestamps: true,
        ..Default::default()
    };
    let output = render_chat(&chat, &opts);

    assert!(output.contains("2024-12-05 00:00 UTC"));
    assert!(output.contains("example-model-1"));
}

#[test]
fn renders_inline_reference_with_name() {
    let chat = make_chat(vec![make_request(
        "Check",
        vec![ResponseElement::InlineReference {
            name: Some("main.rs".into()),
            path: "/src/main.rs".into(),
        }],
    )]);
    let output = render_chat(&chat, &default_opts());

    assert!(output.contains("`main.rs`"));
}

#[test]
fn renders_inline_reference_extracts_filename_from_path() {
    let chat = make_chat(vec![make_request(
        "Check",
        vec![ResponseElement::InlineReference {
            name: None,
            path: "/some/deep/path/to/file.rs".into(),
        }],
    )]);
    let output = render_chat(&chat, &default_opts());

    assert!(output.contains("`file.rs`"));
}

#[test]
fn renders_text_edit_group_summary() {
    let chat = make_chat(vec![make_request(
        "Edit",
        vec![ResponseElement::TextEditGroup {
            path: "/src/main.rs".into(),
            edits: vec!["fn main() {\n    println!(\"hi\");\n}".into()],
        }],
    )]);
    let output = render_chat(&chat, &default_opts());

    assert!(output.contains("*Modified `main.rs`"));
    assert!(output.contains("3 lines"));
}

#[test]
fn skips_empty_text_edit_group() {
    let chat = make_chat(vec![make_request(
        "Edit",
        vec![ResponseElement::TextEditGroup {
            path: "/src/main.rs".into(),
            edits: vec![],
        }],
    )]);
    let output = render_chat(&chat, &default_opts());

    assert!(!output.contains("Modified"));
}

#[test]
fn hides_tool_invocations_by_default() {
    let chat = make_chat(vec![make_request(
        "Search",
        vec![ResponseElement::ToolInvocation {
            past_tense: Some("Searched for files".into()),
        }],
    )]);
    let opts = RenderOptions {
        show_tools: false,
        show_timestamps: false,
        ..Default::default()
    };
    let output = render_chat(&chat, &opts);

    assert!(!output.contains("Searched for files"));
    assert!(!output.contains("\u{1F527}"));
}

#[test]
fn shows_tool_invocations_when_enabled() {
    let chat = make_chat(vec![make_request(
        "Search",
        vec![ResponseElement::ToolInvocation {
            past_tense: Some("Searched for files".into()),
        }],
    )]);
    let opts = RenderOptions {
        show_tools: true,
        show_timestamps: false,
        ..Default::default()
    };
    let output = render_chat(&chat, &opts);

    assert!(output.contains("> \u{1F527} Searched for files"));
}

#[test]
fn skips_tool_invocation_without_message() {
    let chat = make_chat(vec![make_request(
        "Search",
        vec![ResponseElement::ToolInvocation { past_tense: None }],
    )]);
    let opts = RenderOptions {
        show_tools: true,
        show_timestamps: false,
        ..Default::default()
    };
    let output = render_chat(&chat, &opts);

    assert!(!output.contains("\u{1F527}"));
}

#[test]
fn skips_codeblock_uri_and_other() {
    let chat = make_chat(vec![make_request(
        "Mixed",
        vec![
            ResponseElement::Text("visible".into()),
            ResponseElement::CodeBlockUri {
                path: "/src/main.rs".into(),
            },
            ResponseElement::Other,
        ],
    )]);
    let output = render_chat(&chat, &default_opts());

    assert!(output.contains("visible"));
    // CodeBlockUri and Other should not produce visible output
    assert!(!output.contains("/src/main.rs"));
}

#[test]
fn skips_empty_text() {
    let chat = make_chat(vec![make_request(
        "Hi",
        vec![
            ResponseElement::Text(String::new()),
            ResponseElement::Text("   ".into()),
            ResponseElement::Text("visible".into()),
        ],
    )]);
    let output = render_chat(&chat, &default_opts());

    let assistant_section = output.split("## Assistant").nth(1).unwrap();
    // Should only contain "visible", not empty strings
    assert!(assistant_section.contains("visible"));
}

#[test]
fn skips_code_fence_only_text() {
    let chat = make_chat(vec![make_request(
        "Hi",
        vec![
            ResponseElement::Text("```\n```".into()),
            ResponseElement::Text("```".into()),
            ResponseElement::Text("real content".into()),
        ],
    )]);
    let output = render_chat(&chat, &default_opts());

    assert!(output.contains("real content"));
}

// Tests for escape_xml_tags helper
#[test]
fn escapes_xml_tags() {
    assert_eq!(escape_xml_tags("<div>"), "&lt;div&gt;");
    assert_eq!(escape_xml_tags("</div>"), "&lt;/div&gt;");
    assert_eq!(escape_xml_tags("<!DOCTYPE>"), "&lt;!DOCTYPE&gt;");
}

#[test]
fn preserves_non_tag_less_than() {
    assert_eq!(escape_xml_tags("a < b"), "a < b");
    assert_eq!(escape_xml_tags("x<5"), "x<5");
    assert_eq!(escape_xml_tags("3 < 4 < 5"), "3 < 4 < 5");
}

#[test]
fn escapes_mixed_content() {
    assert_eq!(
        escape_xml_tags("Use <code> for x < 5"),
        "Use &lt;code&gt; for x < 5"
    );
}

#[test]
fn handles_empty_string() {
    assert_eq!(escape_xml_tags(""), "");
}

#[test]
fn handles_lone_less_than_at_end() {
    assert_eq!(escape_xml_tags("value<"), "value<");
}

// Tests for is_only_code_fences helper
#[test]
fn detects_code_fence_only() {
    assert!(is_only_code_fences("```"));
    assert!(is_only_code_fences("```\n```"));
    assert!(is_only_code_fences("  ```  "));
    assert!(is_only_code_fences("\n```\n\n```\n"));
}

#[test]
fn detects_non_code_fence_content() {
    assert!(!is_only_code_fences("```rust\nfn main() {}\n```"));
    assert!(!is_only_code_fences("some text"));
    assert!(!is_only_code_fences("``` more"));
}

#[test]
fn renders_multiple_requests() {
    let chat = make_chat(vec![
        make_request(
            "First question",
            vec![ResponseElement::Text("First answer".into())],
        ),
        make_request(
            "Second question",
            vec![ResponseElement::Text("Second answer".into())],
        ),
    ]);
    let output = render_chat(&chat, &default_opts());

    assert!(output.contains("First question"));
    assert!(output.contains("First answer"));
    assert!(output.contains("Second question"));
    assert!(output.contains("Second answer"));

    // Should have two User sections
    assert_eq!(output.matches("## User").count(), 2);
    assert_eq!(output.matches("## Assistant").count(), 2);
}

#[test]
fn escapes_xml_in_user_message() {
    let chat = make_chat(vec![make_request(
        "<instructions>do stuff</instructions>",
        vec![],
    )]);
    let output = render_chat(&chat, &default_opts());

    assert!(output.contains("&lt;instructions&gt;"));
    assert!(output.contains("&lt;/instructions&gt;"));
}

#[test]
fn escapes_xml_in_response_text() {
    let chat = make_chat(vec![make_request(
        "Hi",
        vec![ResponseElement::Text("<result>success</result>".into())],
    )]);
    let output = render_chat(&chat, &default_opts());

    assert!(output.contains("&lt;result&gt;"));
}

#[test]
fn escapes_xml_in_tool_message() {
    let chat = make_chat(vec![make_request(
        "Search",
        vec![ResponseElement::ToolInvocation {
            past_tense: Some("Found <file> tag".into()),
        }],
    )]);
    let opts = RenderOptions {
        show_tools: true,
        show_timestamps: false,
        ..Default::default()
    };
    let output = render_chat(&chat, &opts);

    assert!(output.contains("&lt;file&gt;"));
}

#[test]
fn escapes_backticks_in_inline_reference() {
    let chat = make_chat(vec![make_request(
        "Check",
        vec![ResponseElement::InlineReference {
            name: Some("`config`.json".into()),
            path: "/src/`config`.json".into(),
        }],
    )]);
    let output = render_chat(&chat, &default_opts());

    assert!(output.contains("`'config'.json`"));
    assert!(!output.contains("``"));
}

#[test]
fn escapes_backticks_in_file_edit_summary() {
    let chat = make_chat(vec![make_request(
        "Edit",
        vec![ResponseElement::TextEditGroup {
            path: "/src/`test`.rs".into(),
            edits: vec!["fn main() {}".into()],
        }],
    )]);
    let output = render_chat(&chat, &default_opts());

    assert!(output.contains("*Modified `'test'.rs`"));
}

#[test]
fn adds_blank_line_before_subsequent_user_sections() {
    let chat = make_chat(vec![
        make_request(
            "First question",
            vec![ResponseElement::Text("First answer".into())],
        ),
        make_request(
            "Second question",
            vec![ResponseElement::Text("Second answer".into())],
        ),
    ]);
    let output = render_chat(&chat, &default_opts());

    // Should have a blank line before the second "## User"
    // The pattern should be: response text, newline, newline, "## User"
    assert!(output.contains("First answer\n\n## User"));
}

// Tests for shift_headings helper
#[test]
fn shift_headings_basic() {
    assert_eq!(shift_headings("# H1", 2), "### H1");
    assert_eq!(shift_headings("## H2", 2), "#### H2");
    assert_eq!(shift_headings("### H3", 2), "##### H3");
}

#[test]
fn shift_headings_caps_at_h6() {
    assert_eq!(shift_headings("##### H5", 2), "###### H5");
    assert_eq!(shift_headings("###### H6", 2), "###### H6");
    assert_eq!(shift_headings("#### H4", 3), "###### H4");
}

#[test]
fn shift_headings_preserves_content_after_heading() {
    assert_eq!(
        shift_headings("## Title with **bold** and `code`", 2),
        "#### Title with **bold** and `code`"
    );
}

#[test]
fn shift_headings_multiline() {
    let input = "## First\n\nSome text\n\n### Second";
    let expected = "#### First\n\nSome text\n\n##### Second";
    assert_eq!(shift_headings(input, 2), expected);
}

#[test]
fn shift_headings_ignores_non_headings() {
    // No space after # - not a heading
    assert_eq!(shift_headings("#hashtag", 2), "#hashtag");
    // Just hashes
    assert_eq!(shift_headings("###", 2), "###");
    // Regular text
    assert_eq!(shift_headings("regular text", 2), "regular text");
}

#[test]
fn shift_headings_skips_code_blocks() {
    let input = "## Real heading\n\n```\n## Not a heading\n```\n\n## Another real one";
    let expected = "#### Real heading\n\n```\n## Not a heading\n```\n\n#### Another real one";
    assert_eq!(shift_headings(input, 2), expected);
}

#[test]
fn shift_headings_skips_tilde_code_blocks() {
    let input = "## Heading\n\n~~~\n# Code comment\n~~~";
    let expected = "#### Heading\n\n~~~\n# Code comment\n~~~";
    assert_eq!(shift_headings(input, 2), expected);
}

#[test]
fn shift_headings_handles_nested_code_blocks() {
    let input = "## Start\n\n```\ncode\n```\n\n## Middle\n\n```\nmore\n```\n\n## End";
    let expected = "#### Start\n\n```\ncode\n```\n\n#### Middle\n\n```\nmore\n```\n\n#### End";
    assert_eq!(shift_headings(input, 2), expected);
}

#[test]
fn shift_headings_empty_input() {
    assert_eq!(shift_headings("", 2), "");
}

#[test]
fn shift_headings_preserves_leading_whitespace() {
    // Indented headings aren't valid Markdown headings, should be unchanged
    assert_eq!(shift_headings("  ## Indented", 2), "  ## Indented");
}

#[test]
fn shift_headings_zero_shift() {
    assert_eq!(shift_headings("## Heading", 0), "## Heading");
}

#[test]
fn user_message_headings_are_shifted() {
    let chat = make_chat(vec![make_request(
        "## My Heading\n\nSome content\n\n### Subheading",
        vec![ResponseElement::Text("Response".into())],
    )]);
    let output = render_chat(&chat, &default_opts());

    // User's ## should become #### (shifted by 2)
    assert!(output.contains("#### My Heading"));
    // User's ### should become ##### (shifted by 2)
    assert!(output.contains("##### Subheading"));
    // Our structure should remain unchanged
    assert!(output.contains("## User"));
    assert!(output.contains("## Assistant"));
}

#[test]
fn user_message_headings_shifted_with_offset() {
    let chat = make_chat(vec![make_request(
        "# Top heading",
        vec![ResponseElement::Text("Response".into())],
    )]);
    let opts = RenderOptions {
        heading_offset: 1,
        ..Default::default()
    };
    let output = render_chat(&chat, &opts);

    // With offset 1: our H2 becomes H3, so user H1 shifts by 3 -> H4
    assert!(output.contains("#### Top heading"));
    // Our structure uses offset
    assert!(output.contains("### User"));
}

#[test]
fn renders_identically_on_repeated_calls() {
    let chat = make_chat(vec![make_request(
        "## Heading\n\n<tag> and x < 5",
        vec![ResponseElement::Text("Answer".into())],
    )]);
    let opts = default_opts();
    assert_eq!(render_chat(&chat, &opts), render_chat(&chat, &opts));
}

#[test]
fn heading_caps_at_six() {
    assert_eq!(heading(1, 0), "#");
    assert_eq!(heading(2, 3), "#####");
    assert_eq!(heading(2, 5), "######");
    assert_eq!(heading(1, 5), "######");
}

#[test]
fn path_display_short_and_long() {
    assert_eq!(format_path_display("a.rs", "/src/a.rs"), "`a.rs`");
    assert_eq!(format_path_display("name", ""), "`name`");
    let long = "/a/very/long/path/that/goes/on/and/on/file.rs";
    assert_eq!(
        format_path_display("file.rs", long),
        format!("[`file.rs`]({long} \"{long}\")")
    );
}

use chatlog::types::{ChatMessage, ChatSession, ContentBlock, MessageContent};

fn text_block(text: &str) -> ContentBlock {
    ContentBlock::plain(text.to_string())
}

fn message(content: MessageContent) -> ChatMessage {
    ChatMessage {
        uuid: "u1".to_string(),
        parent_uuid: None,
        timestamp: "2024-01-01T00:00:00Z".to_string(),
        message_type: "user".to_string(),
        content,
        tool_use_id: None,
        cwd: None,
        version: None,
        model: None,
    }
}

#[test]
fn backspace_removes_the_character_before_it() {
    assert_eq!(ChatSession::process_backspaces("ab\u{8}c"), "ac");
    assert_eq!(ChatSession::process_backspaces("abc\u{8}\u{8}d"), "ad");
    assert_eq!(ChatSession::process_backspaces("héé\u{8}llo"), "héllo");
}

#[test]
fn leading_backspace_deletes_nothing() {
    assert_eq!(ChatSession::process_backspaces("\u{8}abc"), "abc");
    assert_eq!(ChatSession::process_backspaces("\u{8}\u{8}"), "");
    assert_eq!(ChatSession::process_backspaces("a\u{8}\u{8}b"), "b");
}

#[test]
fn text_without_backspace_is_unchanged() {
    assert_eq!(ChatSession::process_backspaces("plain text"), "plain text");
    assert_eq!(ChatSession::process_backspaces(""), "");
}

#[test]
fn collapsing_twice_equals_collapsing_once() {
    for input in ["ab\u{8}c", "\u{8}x", "a\u{8}\u{8}\u{8}b\u{8}", "none", "xy\u{8}\u{8}\u{8}z"] {
        let once = ChatSession::process_backspaces(input);
        let twice = ChatSession::process_backspaces(&once);
        assert_eq!(once, twice);
    }
}

#[test]
fn long_first_line_is_cut_to_47_characters_and_dots() {
    let line = "a".repeat(60);
    let title = ChatSession::generate_title(&line);
    assert_eq!(title, format!("{}...", "a".repeat(47)));
    assert_eq!(title.chars().count(), 50);
}

#[test]
fn title_of_50_characters_is_kept_whole() {
    let line = "b".repeat(50);
    assert_eq!(ChatSession::generate_title(&line), line);
    let longer = "b".repeat(51);
    assert_eq!(
        ChatSession::generate_title(&longer),
        format!("{}...", "b".repeat(47))
    );
}

#[test]
fn title_is_cut_by_characters_not_bytes() {
    let line = "é".repeat(55);
    let title = ChatSession::generate_title(&line);
    assert_eq!(title, format!("{}...", "é".repeat(47)));
    let short = "日本語".repeat(10);
    assert_eq!(ChatSession::generate_title(&short), short);
}

#[test]
fn empty_text_gives_the_placeholder() {
    assert_eq!(ChatSession::generate_title(""), "Untitled Chat");
    assert_eq!(ChatSession::generate_title("   \n\t "), "Untitled Chat");
    assert_eq!(ChatSession::generate_title("ab\u{8}\u{8}"), "Untitled Chat");
}

#[test]
fn text_of_whitespace_only_gives_the_placeholder() {
    assert_eq!(ChatSession::generate_title("\u{3000}\u{2003}\r\n\u{85}"), "Untitled Chat");
    assert_eq!(ChatSession::generate_title(" \u{200B} "), "\u{200B}");
}

#[test]
fn title_is_the_first_line() {
    assert_eq!(ChatSession::generate_title("  hello\nworld"), "hello");
    assert_eq!(ChatSession::generate_title("first\r\nsecond"), "first");
    assert_eq!(ChatSession::generate_title("fix te\u{8}he bug"), "fix the bug");
}

#[test]
fn leading_tag_lines_are_skipped() {
    let text = "<command-name>/init</command-name>\n  <command-args></command-args>\n\nPlease set up\nmore";
    assert_eq!(ChatSession::generate_title(text), "Please set up");
    assert_eq!(
        ChatSession::generate_title("<tag>\n   indented line"),
        "   indented line"
    );
}

#[test]
fn text_of_tags_only_keeps_its_first_line() {
    assert_eq!(
        ChatSession::generate_title("<a>only</a>\n<b>tags</b>"),
        "<a>only</a>"
    );
}

#[test]
fn extract_text_joins_the_texts_of_blocks() {
    let mut tool = text_block("ignored");
    tool.text = None;
    tool.block_type = "tool_use".to_string();
    let m = message(MessageContent::Mixed(vec![
        text_block("one"),
        tool,
        text_block("tw\u{8}o"),
    ]));
    assert_eq!(m.extract_text(), "one\nto");
    assert_eq!(message(MessageContent::Mixed(vec![])).extract_text(), "");
    assert_eq!(
        message(MessageContent::Text("a\u{8}b".to_string())).extract_text(),
        "b"
    );
    assert_eq!(
        message(MessageContent::Mixed(vec![text_block(""), text_block("x")])).extract_text(),
        "\nx"
    );
}

#[test]
fn has_tool_calls_looks_for_tool_use_blocks() {
    let mut call = text_block("");
    call.block_type = "tool_use".to_string();
    let mut result = text_block("");
    result.block_type = "tool_result".to_string();
    assert!(message(MessageContent::Mixed(vec![text_block("a"), call])).has_tool_calls());
    assert!(!message(MessageContent::Mixed(vec![text_block("a"), result])).has_tool_calls());
    assert!(!message(MessageContent::Text("tool_use".to_string())).has_tool_calls());
}

#[test]
fn plain_block_holds_only_text() {
    let b = ContentBlock::plain("hi".to_string());
    assert_eq!(b.block_type, "text");
    assert_eq!(b.text.as_deref(), Some("hi"));
    assert!(b.name.is_none() && b.input.is_none() && b.tool_use_id.is_none());
    assert!(b.content.is_none() && b.tool_use_result.is_none() && b.thinking.is_none());
    assert!(!b.is_tool_use() && !b.is_tool_result());
}

#[test]
fn new_with_summary_prefers_the_summary() {
    let first = message(MessageContent::Text("hello there".to_string()));
    let s = ChatSession::new_with_summary(
        "sid".to_string(),
        &first,
        "/work".to_string(),
        Some("A summary".to_string()),
    );
    assert_eq!(s.id, "sid");
    assert_eq!(s.title, "A summary");
    assert_eq!(s.timestamp, "2024-01-01T00:00:00Z");
    assert_eq!(s.last_updated, "2024-01-01T00:00:00Z");
    assert_eq!(s.project_path, "/work");
    assert_eq!(s.message_count, 0);
    let t = ChatSession::new_with_summary("sid".to_string(), &first, "/work".to_string(), None);
    assert_eq!(t.title, "hello there");
}

#[test]
fn clones_keep_every_field() {
    let mut b = text_block("t");
    b.input = Some(serde_json::from_str("{\"a\":[1,2.5,null]}").unwrap());
    b.tool_use_id = Some("id".to_string());
    let m = message(MessageContent::Mixed(vec![b]));
    let c = m.clone();
    assert_eq!(c.uuid, m.uuid);
    assert_eq!(c.timestamp, m.timestamp);
    match (&c.content, &m.content) {
        (MessageContent::Mixed(x), MessageContent::Mixed(y)) => {
            assert_eq!(x.len(), 1);
            assert_eq!(x[0].input, y[0].input);
            assert_eq!(x[0].text, y[0].text);
            assert_eq!(x[0].tool_use_id, y[0].tool_use_id);
            assert_eq!(x[0].block_type, y[0].block_type);
        }
        _ => panic!("content changed its kind"),
    }
}

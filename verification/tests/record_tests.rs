use chatlog::chat_service::ChatService;
use chatlog::json::{decode, encode};
use chatlog::types::MessageContent;

fn service() -> ChatService {
    ChatService::new("/logs".to_string())
}

fn value(text: &str) -> serde_json::Value {
    serde_json::from_str(text).unwrap()
}

fn record_line(kind: &str, uuid: &str, extra: &str, content: &str) -> String {
    format!(
        "{{\"parentUuid\":null,\"cwd\":\"/work\",\"sessionId\":\"s1\",\"version\":\"1.0\",\"type\":\"{}\",\"message\":{{\"content\":{}{}}},\"uuid\":\"{}\",\"timestamp\":\"2024-01-01T00:00:00Z\"}}",
        kind, content, extra, uuid
    )
}

#[test]
fn decode_reads_json_and_rejects_other_text() {
    assert_eq!(decode("{\"a\": [1, \"x\"]}"), Some(value("{\"a\":[1,\"x\"]}")));
    assert_eq!(decode("not json"), None);
    assert_eq!(decode("{\"a\":1} trailing"), None);
    assert_eq!(decode(""), None);
}

#[test]
fn encode_gives_compact_json() {
    assert_eq!(encode(&value("{ \"b\" : 1, \"a\" : [true, null, \"x\\\"y\"] }")), "{\"a\":[true,null,\"x\\\"y\"],\"b\":1}");
    assert_eq!(encode(&value("2.5")), "2.5");
}

#[test]
fn block_of_tool_use_takes_its_own_id() {
    let b = service().parse_content_block(&value(
        "{\"type\":\"tool_use\",\"id\":\"call_1\",\"tool_use_id\":\"other\",\"name\":\"Bash\",\"input\":{\"command\":\"ls\"}}",
    ));
    assert_eq!(b.block_type, "tool_use");
    assert_eq!(b.tool_use_id.as_deref(), Some("call_1"));
    assert_eq!(b.name.as_deref(), Some("Bash"));
    assert_eq!(b.input, Some(value("{\"command\":\"ls\"}")));
    assert!(b.text.is_none() && b.content.is_none() && b.thinking.is_none());
    assert!(b.tool_use_result.is_none());
}

#[test]
fn block_of_tool_result_takes_the_id_it_refers_to() {
    let b = service().parse_content_block(&value(
        "{\"type\":\"tool_result\",\"id\":\"own\",\"tool_use_id\":\"call_1\",\"content\":\"done\"}",
    ));
    assert_eq!(b.block_type, "tool_result");
    assert_eq!(b.tool_use_id.as_deref(), Some("call_1"));
    assert_eq!(b.content.as_deref(), Some("done"));
}

#[test]
fn block_without_type_is_unknown() {
    let b = service().parse_content_block(&value("{\"text\":\"hi\",\"thinking\":\"hm\"}"));
    assert_eq!(b.block_type, "unknown");
    assert_eq!(b.text.as_deref(), Some("hi"));
    assert_eq!(b.thinking.as_deref(), Some("hm"));
    let c = service().parse_content_block(&value("5"));
    assert_eq!(c.block_type, "unknown");
    assert!(c.text.is_none() && c.input.is_none());
    let d = service().parse_content_block(&value("{\"type\":7,\"text\":[\"x\"],\"content\":[1]}"));
    assert_eq!(d.block_type, "unknown");
    assert!(d.text.is_none() && d.content.is_none());
}

#[test]
fn block_keeps_a_null_input() {
    let b = service().parse_content_block(&value("{\"type\":\"tool_use\",\"input\":null}"));
    assert_eq!(b.input, Some(serde_json::Value::Null));
    assert!(b.tool_use_id.is_none());
}

#[test]
fn content_of_a_string_is_plain_text() {
    match service().parse_message_content(&value("\"hello\"")) {
        MessageContent::Text(t) => assert_eq!(t, "hello"),
        _ => panic!("expected text"),
    }
}

#[test]
fn content_of_an_array_is_blocks() {
    match service().parse_message_content(&value(
        "[{\"type\":\"text\",\"text\":\"a\"}, 17, {\"type\":\"thinking\",\"thinking\":\"b\"}]",
    )) {
        MessageContent::Mixed(blocks) => {
            assert_eq!(blocks.len(), 3);
            assert_eq!(blocks[0].text.as_deref(), Some("a"));
            assert_eq!(blocks[1].block_type, "unknown");
            assert_eq!(blocks[2].thinking.as_deref(), Some("b"));
        }
        _ => panic!("expected blocks"),
    }
}

#[test]
fn content_of_any_other_value_is_its_json_text() {
    match service().parse_message_content(&value("{\"b\": 1, \"a\": null}")) {
        MessageContent::Text(t) => assert_eq!(t, "{\"a\":null,\"b\":1}"),
        _ => panic!("expected text"),
    }
    match service().parse_message_content(&value("42")) {
        MessageContent::Text(t) => assert_eq!(t, "42"),
        _ => panic!("expected text"),
    }
    match service().parse_message_content(&value("null")) {
        MessageContent::Text(t) => assert_eq!(t, "null"),
        _ => panic!("expected text"),
    }
}

#[test]
fn record_with_every_member_is_read() {
    let line = "{\"parentUuid\":\"p0\",\"cwd\":\"/work\",\"sessionId\":\"s1\",\"version\":\"1.2\",\"type\":\"assistant\",\"message\":{\"content\":\"hi\",\"id\":\"msg_1\",\"model\":\"m-1\"},\"uuid\":\"u1\",\"timestamp\":\"2024-02-03\",\"toolUseResult\":{\"ok\":true},\"extra\":1}";
    let r = service().parse_line(line).unwrap();
    assert_eq!(r.parent_uuid.as_deref(), Some("p0"));
    assert_eq!(r.cwd, "/work");
    assert_eq!(r.session_id, "s1");
    assert_eq!(r.version, "1.2");
    assert_eq!(r.message_type, "assistant");
    assert_eq!(r.message.content, value("\"hi\""));
    assert_eq!(r.message.id.as_deref(), Some("msg_1"));
    assert_eq!(r.message.model.as_deref(), Some("m-1"));
    assert_eq!(r.uuid, "u1");
    assert_eq!(r.timestamp, "2024-02-03");
    assert_eq!(r.tool_use_result, Some(value("{\"ok\":true}")));
}

#[test]
fn optional_members_may_be_missing_or_null() {
    let r = service()
        .parse_line(&record_line("user", "u1", ",\"id\":null", "\"x\""))
        .unwrap();
    assert!(r.parent_uuid.is_none());
    assert!(r.message.id.is_none());
    assert!(r.message.model.is_none());
    assert!(r.tool_use_result.is_none());
}

#[test]
fn record_of_another_kind_is_still_a_record() {
    let r = service()
        .parse_line(&record_line("system", "u1", "", "\"x\""))
        .unwrap();
    assert_eq!(r.message_type, "system");
}

#[test]
fn line_without_a_required_member_is_no_record() {
    let s = service();
    let full = record_line("user", "u1", "", "\"x\"");
    assert!(s.parse_line(&full).is_some());
    for member in ["cwd", "sessionId", "version", "type", "uuid", "timestamp", "message"] {
        let broken = full.replace(&format!("\"{}\":", member), &format!("\"{}_\":", member));
        assert!(s.parse_line(&broken).is_none(), "without {}", member);
    }
    let no_content = full.replace("\"content\":", "\"contents\":");
    assert!(s.parse_line(&no_content).is_none());
}

#[test]
fn member_of_the_wrong_kind_is_no_record() {
    let s = service();
    let full = record_line("user", "u1", "", "\"x\"");
    assert!(s.parse_line(&full.replace("\"cwd\":\"/work\"", "\"cwd\":5")).is_none());
    assert!(s.parse_line(&full.replace("\"parentUuid\":null", "\"parentUuid\":5")).is_none());
    assert!(s.parse_line(&record_line("user", "u1", ",\"id\":7", "\"x\"")).is_none());
    assert!(s.parse_line(&record_line("user", "u1", ",\"model\":[]", "\"x\"")).is_none());
    assert!(s.parse_line(&full.replace("\"message\":{\"content\":\"x\"}", "\"message\":\"x\"")).is_none());
}

#[test]
fn blank_broken_and_summary_lines_are_no_records() {
    let s = service();
    assert!(s.parse_line("").is_none());
    assert!(s.parse_line("   \t").is_none());
    assert!(s.parse_line("{\"type\":\"user\"").is_none());
    assert!(s.parse_line("[1,2,3]").is_none());
    assert!(s
        .parse_line("{\"type\":\"summary\",\"summary\":\"A title\",\"leafUuid\":\"u9\"}")
        .is_none());
    assert!(s.parse_line(&record_line("summary", "u1", "", "\"x\"")).is_none());
}

#[test]
fn parse_record_reads_a_decoded_value() {
    let s = service();
    let v = value(&record_line("user", "u7", "", "[]"));
    let r = s.parse_record(&v).unwrap();
    assert_eq!(r.uuid, "u7");
    assert!(s.parse_record(&value("{\"type\":\"user\"}")).is_none());
    assert!(s.parse_record(&value("null")).is_none());
}

#[test]
fn message_id_joins_record_and_provider_id() {
    let s = service();
    let r = s
        .parse_line(&record_line("assistant", "u1", ",\"id\":\"msg_9\",\"model\":\"m\"", "\"x\""))
        .unwrap();
    let m = s.convert_raw_to_chat_message(&r);
    assert_eq!(m.uuid, "u1#msg_9");
    assert_eq!(m.message_type, "assistant");
    assert_eq!(m.timestamp, "2024-01-01T00:00:00Z");
    assert_eq!(m.cwd.as_deref(), Some("/work"));
    assert_eq!(m.version.as_deref(), Some("1.0"));
    assert_eq!(m.model.as_deref(), Some("m"));
    assert!(m.parent_uuid.is_none());
    assert!(m.tool_use_id.is_none());
    let plain = s.parse_line(&record_line("user", "u2", "", "\"x\"")).unwrap();
    assert_eq!(s.convert_raw_to_chat_message(&plain).uuid, "u2");
}

#[test]
fn structured_result_is_placed_on_tool_results_of_a_user() {
    let s = service();
    let content = "[{\"type\":\"tool_result\",\"tool_use_id\":\"c1\",\"content\":\"ok\"},{\"type\":\"text\",\"text\":\"t\"}]";
    let line = record_line("user", "u1", "", content)
        .replace("\"uuid\":", "\"toolUseResult\":{\"files\":[\"a\"]},\"uuid\":");
    let m = s.convert_raw_to_chat_message(&s.parse_line(&line).unwrap());
    match m.content {
        MessageContent::Mixed(blocks) => {
            assert_eq!(blocks[0].tool_use_result, Some(value("{\"files\":[\"a\"]}")));
            assert_eq!(blocks[0].content.as_deref(), Some("ok"));
            assert!(blocks[1].tool_use_result.is_none());
        }
        _ => panic!("expected blocks"),
    }
    let from_assistant = line.replace("\"type\":\"user\"", "\"type\":\"assistant\"");
    let a = s.convert_raw_to_chat_message(&s.parse_line(&from_assistant).unwrap());
    match a.content {
        MessageContent::Mixed(blocks) => assert!(blocks[0].tool_use_result.is_none()),
        _ => panic!("expected blocks"),
    }
}

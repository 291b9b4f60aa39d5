use chatlog::chat_service::{ChatService, SessionFile};
use chatlog::types::{ChatMessage, ContentBlock, MessageContent};

fn service() -> ChatService {
    ChatService::new("/logs".to_string())
}

fn line(kind: &str, uuid: &str, id: Option<&str>, content: &str) -> String {
    let id_part = match id {
        Some(id) => format!(",\"id\":\"{}\"", id),
        None => String::new(),
    };
    format!(
        "{{\"parentUuid\":null,\"cwd\":\"/work\",\"sessionId\":\"s1\",\"version\":\"1.0\",\"type\":\"{}\",\"message\":{{\"content\":{}{}}},\"uuid\":\"{}\",\"timestamp\":\"t-{}\"}}",
        kind, content, id_part, uuid, uuid
    )
}

fn file(lines: Vec<String>) -> SessionFile {
    SessionFile { path: "/logs/p/s1.jsonl".to_string(), lines, complete: true }
}

fn blocks(m: &ChatMessage) -> &Vec<ContentBlock> {
    match &m.content {
        MessageContent::Mixed(b) => b,
        MessageContent::Text(_) => panic!("expected blocks"),
    }
}

fn msg(kind: &str, uuid: &str, content: MessageContent) -> ChatMessage {
    ChatMessage {
        uuid: uuid.to_string(),
        parent_uuid: None,
        timestamp: "t".to_string(),
        message_type: kind.to_string(),
        content,
        tool_use_id: None,
        cwd: None,
        version: None,
        model: None,
    }
}

fn block(kind: &str, id: Option<&str>) -> ContentBlock {
    let mut b = ContentBlock::plain(String::new());
    b.block_type = kind.to_string();
    b.text = None;
    b.tool_use_id = id.map(|s| s.to_string());
    b
}

#[test]
fn only_users_and_assistants_reach_the_conversation() {
    let f = file(vec![
        line("system", "u0", None, "\"boot\""),
        line("user", "u1", None, "\"hello\""),
        "{\"type\":\"summary\",\"summary\":\"T\",\"leafUuid\":\"u2\"}".to_string(),
        "garbage".to_string(),
        String::new(),
        line("assistant", "u2", Some("m1"), "\"hi\""),
        line("tool", "u3", None, "\"x\""),
        line("user", "u4", None, "\"bye\""),
    ]);
    let out = service().parse_messages_from_file(&f);
    let kinds: Vec<&str> = out.iter().map(|m| m.message_type.as_str()).collect();
    assert_eq!(kinds, vec!["user", "assistant", "user"]);
    let ids: Vec<&str> = out.iter().map(|m| m.uuid.as_str()).collect();
    assert_eq!(ids, vec!["u1", "u2#m1", "u4"]);
    let times: Vec<&str> = out.iter().map(|m| m.timestamp.as_str()).collect();
    assert_eq!(times, vec!["t-u1", "t-u2", "t-u4"]);
}

#[test]
fn messages_keep_file_order_even_against_their_times() {
    let f = file(vec![
        line("user", "z9", None, "\"later id first\""),
        line("user", "a1", None, "\"earlier id second\""),
    ]);
    let out = service().parse_messages_from_file(&f);
    assert_eq!(out[0].uuid, "z9");
    assert_eq!(out[1].uuid, "a1");
}

#[test]
fn fragments_of_one_turn_collapse_into_one_message() {
    let f = file(vec![
        line("assistant", "u1", Some("msg_1"), "[{\"type\":\"thinking\",\"thinking\":\"hm\"}]"),
        line("assistant", "u2", Some("msg_1"), "[{\"type\":\"text\",\"text\":\"a\"},{\"type\":\"tool_use\",\"id\":\"c1\",\"name\":\"Bash\"}]"),
    ]);
    let out = service().parse_messages_from_file(&f);
    assert_eq!(out.len(), 1);
    assert_eq!(out[0].uuid, "u1#msg_1");
    assert_eq!(out[0].timestamp, "t-u1");
    let b = blocks(&out[0]);
    assert_eq!(b.len(), 3);
    assert_eq!(b[0].block_type, "thinking");
    assert_eq!(b[1].text.as_deref(), Some("a"));
    assert_eq!(b[2].block_type, "tool_use");
}

#[test]
fn three_fragments_collapse_too() {
    let f = file(vec![
        line("assistant", "u1", Some("m"), "[{\"type\":\"text\",\"text\":\"1\"}]"),
        line("assistant", "u2", Some("m"), "[{\"type\":\"text\",\"text\":\"2\"}]"),
        line("assistant", "u3", Some("m"), "[{\"type\":\"text\",\"text\":\"3\"}]"),
    ]);
    let out = service().parse_messages_from_file(&f);
    assert_eq!(out.len(), 1);
    let texts: Vec<&str> = blocks(&out[0]).iter().map(|b| b.text.as_deref().unwrap()).collect();
    assert_eq!(texts, vec!["1", "2", "3"]);
}

#[test]
fn fragment_with_plain_text_becomes_a_text_block() {
    let f = file(vec![
        line("assistant", "u1", Some("m"), "\"intro\""),
        line("assistant", "u2", Some("m"), "[{\"type\":\"text\",\"text\":\"more\"}]"),
        line("assistant", "u3", Some("m"), "\"outro\""),
    ]);
    let out = service().parse_messages_from_file(&f);
    assert_eq!(out.len(), 1);
    let b = blocks(&out[0]);
    assert_eq!(b.len(), 3);
    assert_eq!(b[0].block_type, "text");
    assert_eq!(b[0].text.as_deref(), Some("intro"));
    assert_eq!(b[1].text.as_deref(), Some("more"));
    assert_eq!(b[2].block_type, "text");
    assert_eq!(b[2].text.as_deref(), Some("outro"));
}

#[test]
fn two_plain_text_fragments_become_two_text_blocks() {
    let f = file(vec![
        line("assistant", "u1", Some("m"), "\"first\""),
        line("assistant", "u2", Some("m"), "\"second\""),
    ]);
    let out = service().parse_messages_from_file(&f);
    assert_eq!(out.len(), 1);
    assert_eq!(out[0].uuid, "u1#m");
    let b = blocks(&out[0]);
    assert_eq!(b.len(), 2);
    assert_eq!(b[0].block_type, "text");
    assert_eq!(b[0].text.as_deref(), Some("first"));
    assert_eq!(b[1].block_type, "text");
    assert_eq!(b[1].text.as_deref(), Some("second"));
}

#[test]
fn merging_plain_text_into_plain_text_loses_nothing() {
    let s = service();
    let mut messages = vec![msg("assistant", "a", MessageContent::Text("s".to_string()))];
    let cur = msg("assistant", "b", MessageContent::Text("t".to_string()));
    s.merge_with_previous_by_id(&cur, &mut messages);
    assert_eq!(messages.len(), 1);
    let b = blocks(&messages[0]);
    assert_eq!(b.len(), 2);
    assert_eq!(b[0].text.as_deref(), Some("s"));
    assert_eq!(b[1].text.as_deref(), Some("t"));
    assert!(b.iter().all(|x| x.block_type == "text" && x.name.is_none() && x.content.is_none()));
}

#[test]
fn different_provider_ids_do_not_merge() {
    let f = file(vec![
        line("assistant", "u1", Some("m1"), "\"a\""),
        line("assistant", "u2", Some("m2"), "\"b\""),
        line("assistant", "u3", None, "\"c\""),
        line("user", "u4", Some("m2"), "\"d\""),
    ]);
    assert_eq!(service().parse_messages_from_file(&f).len(), 4);
}

#[test]
fn tool_result_is_absorbed_by_its_call() {
    let mut user = line("user", "u2", None, "[{\"type\":\"tool_result\",\"tool_use_id\":\"X\",\"content\":\"42 files\"}]");
    user = user.replace("\"uuid\":", "\"toolUseResult\":{\"count\":42},\"uuid\":");
    let f = file(vec![
        line("assistant", "u1", Some("m1"), "[{\"type\":\"text\",\"text\":\"run\"},{\"type\":\"tool_use\",\"id\":\"X\",\"name\":\"Ls\",\"input\":{}}]"),
        user,
    ]);
    let out = service().parse_messages_from_file(&f);
    assert_eq!(out.len(), 1);
    assert_eq!(out[0].message_type, "assistant");
    assert_eq!(out[0].uuid, "u1#m1");
    let b = blocks(&out[0]);
    assert_eq!(b.len(), 2);
    assert_eq!(b[1].block_type, "tool_use");
    assert_eq!(b[1].content.as_deref(), Some("42 files"));
    assert_eq!(b[1].tool_use_result, Some(serde_json::from_str("{\"count\":42}").unwrap()));
    assert_eq!(b[1].name.as_deref(), Some("Ls"));
    assert!(b[0].content.is_none());
}

#[test]
fn tool_result_without_a_matching_call_is_dropped() {
    let f = file(vec![
        line("assistant", "u1", None, "[{\"type\":\"tool_use\",\"id\":\"X\",\"name\":\"Ls\"}]"),
        line("user", "u2", None, "[{\"type\":\"tool_result\",\"tool_use_id\":\"Y\",\"content\":\"lost\"},{\"type\":\"tool_result\",\"content\":\"no id\"}]"),
    ]);
    let out = service().parse_messages_from_file(&f);
    assert_eq!(out.len(), 1);
    let b = blocks(&out[0]);
    assert_eq!(b.len(), 1);
    assert!(b[0].content.is_none());
}

#[test]
fn each_result_goes_to_the_first_call_with_its_id() {
    let f = file(vec![
        line("assistant", "u1", None, "[{\"type\":\"tool_use\",\"id\":\"A\"},{\"type\":\"tool_use\",\"id\":\"B\"},{\"type\":\"tool_use\",\"id\":\"A\"}]"),
        line("user", "u2", None, "[{\"type\":\"tool_result\",\"tool_use_id\":\"B\",\"content\":\"b\"},{\"type\":\"tool_result\",\"tool_use_id\":\"A\",\"content\":\"a1\"},{\"type\":\"tool_result\",\"tool_use_id\":\"A\",\"content\":\"a2\"}]"),
    ]);
    let out = service().parse_messages_from_file(&f);
    assert_eq!(out.len(), 1);
    let b = blocks(&out[0]);
    assert_eq!(b[0].content.as_deref(), Some("a2"));
    assert_eq!(b[1].content.as_deref(), Some("b"));
    assert!(b[2].content.is_none());
}

#[test]
fn user_message_with_more_than_tool_results_stands_alone() {
    let f = file(vec![
        line("assistant", "u1", None, "[{\"type\":\"tool_use\",\"id\":\"X\"}]"),
        line("user", "u2", None, "[{\"type\":\"tool_result\",\"tool_use_id\":\"X\",\"content\":\"r\"},{\"type\":\"text\",\"text\":\"and a note\"}]"),
    ]);
    let out = service().parse_messages_from_file(&f);
    assert_eq!(out.len(), 2);
    assert!(blocks(&out[0])[0].content.is_none());
    assert_eq!(out[1].message_type, "user");
}

#[test]
fn tool_results_need_an_assistant_with_calls_before_them() {
    let result = "[{\"type\":\"tool_result\",\"tool_use_id\":\"X\",\"content\":\"r\"}]";
    let s = service();
    assert_eq!(s.parse_messages_from_file(&file(vec![line("user", "u1", None, result)])).len(), 1);
    assert_eq!(
        s.parse_messages_from_file(&file(vec![
            line("assistant", "u1", None, "[{\"type\":\"text\",\"text\":\"no call\"}]"),
            line("user", "u2", None, result),
        ]))
        .len(),
        2
    );
    assert_eq!(
        s.parse_messages_from_file(&file(vec![
            line("user", "u1", None, "[{\"type\":\"tool_use\",\"id\":\"X\"}]"),
            line("user", "u2", None, result),
        ]))
        .len(),
        2
    );
    assert_eq!(
        s.parse_messages_from_file(&file(vec![
            line("assistant", "u1", None, "[{\"type\":\"tool_use\",\"id\":\"X\"}]"),
            line("user", "u2", None, "[]"),
        ]))
        .len(),
        2
    );
}

#[test]
fn should_merge_by_message_id_checks_roles_and_suffix() {
    let s = service();
    let raw = s.parse_line(&line("assistant", "u2", Some("m1"), "\"x\"")).unwrap();
    let cur = s.convert_raw_to_chat_message(&raw);
    let prev = msg("assistant", "u1#m1", MessageContent::Text("p".to_string()));
    assert!(s.should_merge_by_message_id(&cur, &raw, &vec![prev.clone()]));
    assert!(!s.should_merge_by_message_id(&cur, &raw, &vec![]));
    assert!(!s.should_merge_by_message_id(
        &cur,
        &raw,
        &vec![msg("user", "u1#m1", MessageContent::Text("p".to_string()))]
    ));
    assert!(!s.should_merge_by_message_id(
        &cur,
        &raw,
        &vec![msg("assistant", "u1#m2", MessageContent::Text("p".to_string()))]
    ));
    assert!(!s.should_merge_by_message_id(
        &msg("user", "u2#m1", MessageContent::Text("c".to_string())),
        &raw,
        &vec![prev.clone()]
    ));
    let no_id = s.parse_line(&line("assistant", "u2", None, "\"x\"")).unwrap();
    assert!(!s.should_merge_by_message_id(&cur, &no_id, &vec![prev]));
}

#[test]
fn merge_with_previous_changes_only_the_last_message() {
    let s = service();
    let mut messages = vec![
        msg("assistant", "a", MessageContent::Mixed(vec![block("text", None)])),
        msg("assistant", "b", MessageContent::Mixed(vec![block("thinking", None)])),
    ];
    let cur = msg("assistant", "c", MessageContent::Mixed(vec![block("tool_use", Some("X"))]));
    s.merge_with_previous_by_id(&cur, &mut messages);
    assert_eq!(messages.len(), 2);
    assert_eq!(blocks(&messages[0]).len(), 1);
    assert_eq!(messages[1].uuid, "b");
    let b = blocks(&messages[1]);
    assert_eq!(b.len(), 2);
    assert_eq!(b[0].block_type, "thinking");
    assert_eq!(b[1].tool_use_id.as_deref(), Some("X"));
    let mut none: Vec<ChatMessage> = vec![];
    s.merge_with_previous_by_id(&cur, &mut none);
    assert!(none.is_empty());
}

#[test]
fn merge_tool_results_leaves_plain_text_alone() {
    let s = service();
    let mut messages = vec![msg("assistant", "a", MessageContent::Text("t".to_string()))];
    let mut result = block("tool_result", Some("X"));
    result.content = Some("r".to_string());
    let cur = msg("user", "c", MessageContent::Mixed(vec![result]));
    s.merge_tool_results_with_assistant(&cur, &mut messages);
    assert_eq!(messages.len(), 1);
    match &messages[0].content {
        MessageContent::Text(t) => assert_eq!(t, "t"),
        _ => panic!("expected text"),
    }
    let mut calls = vec![msg("assistant", "a", MessageContent::Mixed(vec![block("tool_use", Some("X"))]))];
    s.merge_tool_results_with_assistant(&msg("user", "c", MessageContent::Text("X".to_string())), &mut calls);
    assert!(blocks(&calls[0])[0].content.is_none());
    s.merge_tool_results_with_assistant(&cur, &mut calls);
    assert_eq!(blocks(&calls[0])[0].content.as_deref(), Some("r"));
}

#[test]
fn should_merge_tool_results_wants_results_only() {
    let s = service();
    let prev = vec![msg("assistant", "a", MessageContent::Mixed(vec![block("tool_use", Some("X"))]))];
    let only = msg("user", "c", MessageContent::Mixed(vec![block("tool_result", Some("X"))]));
    let mixed = msg(
        "user",
        "c",
        MessageContent::Mixed(vec![block("tool_result", Some("X")), block("text", None)]),
    );
    assert!(s.should_merge_tool_results_with_assistant(&only, &prev));
    assert!(!s.should_merge_tool_results_with_assistant(&mixed, &prev));
    assert!(!s.should_merge_tool_results_with_assistant(&only, &vec![]));
    assert!(!s.should_merge_tool_results_with_assistant(
        &msg("assistant", "c", MessageContent::Mixed(vec![block("tool_result", Some("X"))])),
        &prev
    ));
    assert!(!s.should_merge_tool_results_with_assistant(
        &msg("user", "c", MessageContent::Text("tool_result".to_string())),
        &prev
    ));
}

#[test]
fn absorb_adds_a_new_message_when_no_rule_applies() {
    let s = service();
    let raw = s.parse_line(&line("user", "u2", None, "\"x\"")).unwrap();
    let cur = s.convert_raw_to_chat_message(&raw);
    let mut messages = vec![msg("assistant", "a", MessageContent::Text("t".to_string()))];
    s.absorb(cur, &raw, &mut messages);
    assert_eq!(messages.len(), 2);
    assert_eq!(messages[1].uuid, "u2");
}

use chatlog::chat_service::{ChatService, ProjectDir, ServiceError, SessionFile};
use chatlog::order::sort_newest_first;
use chatlog::sessions::SummaryIndex;
use chatlog::types::ChatSession;

fn service() -> ChatService {
    ChatService::new("/logs".to_string())
}

fn rec(kind: &str, uuid: &str, session: &str, cwd: &str, time: &str, content: &str) -> String {
    format!(
        "{{\"parentUuid\":null,\"cwd\":\"{}\",\"sessionId\":\"{}\",\"version\":\"1.0\",\"type\":\"{}\",\"message\":{{\"content\":{}}},\"uuid\":\"{}\",\"timestamp\":\"{}\"}}",
        cwd, session, kind, content, uuid, time
    )
}

fn summary(leaf: &str, title: &str) -> String {
    format!("{{\"type\":\"summary\",\"summary\":\"{}\",\"leafUuid\":\"{}\"}}", title, leaf)
}

fn file(path: &str, lines: Vec<String>) -> SessionFile {
    SessionFile { path: path.to_string(), lines, complete: true }
}

fn cut_short(path: &str, lines: Vec<String>) -> SessionFile {
    SessionFile { path: path.to_string(), lines, complete: false }
}

fn dir(path: &str, files: Vec<SessionFile>) -> ProjectDir {
    ProjectDir { path: path.to_string(), files }
}

fn session(id: &str, last_updated: &str) -> ChatSession {
    ChatSession {
        id: id.to_string(),
        title: "t".to_string(),
        timestamp: "0".to_string(),
        project_path: "/p".to_string(),
        message_count: 1,
        last_updated: last_updated.to_string(),
    }
}

fn simple_session(id: &str, time: &str) -> SessionFile {
    file(
        &format!("/logs/p/{}.jsonl", id),
        vec![rec("user", &format!("{}-u1", id), id, "/work", time, "\"hello\"")],
    )
}

#[test]
fn service_keeps_its_root() {
    assert_eq!(service().projects_path, "/logs");
}

#[test]
fn summary_index_keeps_the_latest_title() {
    let mut index = SummaryIndex::new();
    assert_eq!(index.get("a"), None);
    index.insert("a".to_string(), "first".to_string());
    index.insert("b".to_string(), "other".to_string());
    assert_eq!(index.get("a").as_deref(), Some("first"));
    index.insert("a".to_string(), "second".to_string());
    assert_eq!(index.get("a").as_deref(), Some("second"));
    assert_eq!(index.get("b").as_deref(), Some("other"));
    assert_eq!(index.get("c"), None);
    assert_eq!(index.get(""), None);
}

#[test]
fn summary_index_is_built_from_every_file() {
    let project = dir(
        "/logs/p",
        vec![
            file("a.jsonl", vec![
                summary("u1", "Title one"),
                "broken {".to_string(),
                String::new(),
                rec("user", "u9", "s", "/w", "t", "\"x\""),
                "{\"type\":\"summary\",\"summary\":7,\"leafUuid\":\"u2\"}".to_string(),
                "{\"type\":\"summary\",\"summary\":\"no leaf\"}".to_string(),
                "{\"type\":\"note\",\"summary\":\"not a summary\",\"leafUuid\":\"u3\"}".to_string(),
            ]),
            file("b.jsonl", vec![summary("u4", "Title four"), summary("u1", "Title one, again")]),
        ],
    );
    let index = service().build_summary_index(&project);
    assert_eq!(index.get("u1").as_deref(), Some("Title one, again"));
    assert_eq!(index.get("u4").as_deref(), Some("Title four"));
    assert_eq!(index.get("u2"), None);
    assert_eq!(index.get("u3"), None);
    assert_eq!(index.get("u9"), None);
}

#[test]
fn session_is_derived_from_its_records() {
    let f = file("s.jsonl", vec![
        summary("zz", "unrelated"),
        rec("system", "u0", "s1", "/first", "2024-01-01T00:00:00Z", "\"boot\""),
        rec("assistant", "u1", "s1", "/second", "2024-01-01T00:00:01Z", "\"hi\""),
        "not json".to_string(),
        rec("user", "u2", "s1", "/third", "2024-01-01T00:00:02Z", "\"Please help me\\nwith this\""),
        rec("user", "u3", "s1", "/third", "2024-01-01T00:00:03Z", "\"again\""),
        rec("assistant", "u4", "s1", "/third", "2024-01-01T00:00:04Z", "\"sure\""),
        rec("system", "u5", "s1", "/third", "2024-01-01T00:00:05Z", "\"bye\""),
    ]);
    let s = service()
        .parse_session_from_file_with_index(&f, &SummaryIndex::new())
        .unwrap();
    assert_eq!(s.id, "s1");
    assert_eq!(s.project_path, "/first");
    assert_eq!(s.title, "Please help me");
    assert_eq!(s.timestamp, "2024-01-01T00:00:02Z");
    assert_eq!(s.message_count, 4);
    assert_eq!(s.last_updated, "2024-01-01T00:00:04Z");
}

#[test]
fn session_title_comes_from_the_index_of_the_last_message() {
    let f = file("s.jsonl", vec![
        rec("user", "u1", "s1", "/w", "t1", "\"typed text\""),
        rec("assistant", "u2", "s1", "/w", "t2", "\"answer\""),
    ]);
    let mut index = SummaryIndex::new();
    index.insert("u1".to_string(), "for the first".to_string());
    let s = service().parse_session_from_file_with_index(&f, &index).unwrap();
    assert_eq!(s.title, "typed text");
    index.insert("u2".to_string(), "Summary of it all".to_string());
    let s = service().parse_session_from_file_with_index(&f, &index).unwrap();
    assert_eq!(s.title, "Summary of it all");
}

#[test]
fn session_with_an_empty_first_message_has_the_placeholder_title() {
    let f = file("s.jsonl", vec![rec("user", "u1", "s1", "/w", "t1", "\"   \"")]);
    let s = service()
        .parse_session_from_file_with_index(&f, &SummaryIndex::new())
        .unwrap();
    assert_eq!(s.title, "Untitled Chat");
    assert_eq!(s.message_count, 1);
}

#[test]
fn session_id_and_path_come_from_the_first_record() {
    let f = file("s.jsonl", vec![
        summary("u0", "not a record"),
        rec("user", "u1", "", "/a", "t1", "\"x\""),
        rec("user", "u2", "s2", "/b", "t2", "\"y\""),
        rec("user", "u3", "s3", "/c", "t3", "\"z\""),
    ]);
    let s = service()
        .parse_session_from_file_with_index(&f, &SummaryIndex::new())
        .unwrap();
    assert_eq!(s.id, "");
    assert_eq!(s.project_path, "/a");
    assert_eq!(s.title, "x");
    let g = file("s.jsonl", vec![
        rec("system", "u0", "s0", "/boot", "t0", "\"x\""),
        rec("user", "u1", "s1", "/a", "t1", "\"y\""),
    ]);
    let s = service()
        .parse_session_from_file_with_index(&g, &SummaryIndex::new())
        .unwrap();
    assert_eq!(s.id, "s0");
    assert_eq!(s.project_path, "/boot");
}

#[test]
fn file_without_a_record_of_the_conversation_gives_no_session() {
    let s = service();
    let index = SummaryIndex::new();
    for lines in [
        vec![],
        vec![summary("u1", "T")],
        vec![rec("system", "u1", "s1", "/w", "t", "\"x\""), "junk".to_string()],
        vec![String::new(), "   ".to_string()],
    ] {
        match s.parse_session_from_file_with_index(&file("s.jsonl", lines), &index) {
            Err(ServiceError::NoValidMessages) => {}
            other => panic!("expected no session, got {:?}", other),
        }
    }
}

#[test]
fn file_with_assistant_records_only_gives_a_session() {
    let f = file("s.jsonl", vec![
        rec("system", "u0", "s1", "/w", "t0", "\"boot\""),
        rec("assistant", "u1", "s1", "/w", "t1", "\"only the assistant\""),
        rec("assistant", "u2", "s1", "/w", "t2", "\"twice\""),
    ]);
    let mut index = SummaryIndex::new();
    let s = service().parse_session_from_file_with_index(&f, &index).unwrap();
    assert_eq!(s.id, "s1");
    assert_eq!(s.project_path, "/w");
    assert_eq!(s.title, "Untitled Chat");
    assert_eq!(s.timestamp, "t1");
    assert_eq!(s.message_count, 2);
    assert_eq!(s.last_updated, "t2");
    index.insert("u2".to_string(), "Summed up".to_string());
    let s = service().parse_session_from_file_with_index(&f, &index).unwrap();
    assert_eq!(s.title, "Summed up");
    let project = dir("/logs/p", vec![f]);
    let listed = service().get_project_sessions(&project);
    assert_eq!(listed.len(), 1);
    assert!(listed[0].message_count >= 1);
}

#[test]
fn session_starts_with_its_first_user_message() {
    let f = file("s.jsonl", vec![
        rec("assistant", "u1", "s1", "/w", "t1", "\"greeting\""),
        rec("user", "u2", "s1", "/w", "t2", "\"question\""),
    ]);
    let s = service()
        .parse_session_from_file_with_index(&f, &SummaryIndex::new())
        .unwrap();
    assert_eq!(s.timestamp, "t2");
    assert_eq!(s.title, "question");
    assert_eq!(s.message_count, 2);
}

#[test]
fn file_cut_short_is_not_listed_but_its_summaries_count() {
    let project = dir("/logs/p", vec![
        simple_session("s1", "2024-01-01"),
        cut_short("/logs/p/broken.jsonl", vec![
            summary("s1-u1", "Read before the failure"),
            rec("user", "b1", "broken", "/w", "2024-09-09", "\"never listed\""),
        ]),
    ]);
    let sessions = service().get_project_sessions(&project);
    assert_eq!(sessions.len(), 1);
    assert_eq!(sessions[0].id, "s1");
    assert_eq!(sessions[0].title, "Read before the failure");
    let only_broken = vec![dir("/logs/q", vec![cut_short("x.jsonl", vec![
        rec("user", "b1", "broken", "/w", "2024-09-09", "\"never listed\""),
    ])])];
    assert!(service().get_all_projects(&only_broken).is_empty());
}

#[test]
fn error_messages_name_what_went_wrong() {
    assert_eq!(ServiceError::NoValidMessages.message(), "No valid messages found in file");
    assert_eq!(
        ServiceError::SessionNotFound("abc-123".to_string()).message(),
        "Session file not found for ID: abc-123"
    );
}

#[test]
fn sessions_are_listed_newest_first() {
    let project = dir("/logs/p", vec![
        simple_session("old", "2024-01-01"),
        simple_session("new", "2024-03-01"),
    ]);
    let sessions = service().get_project_sessions(&project);
    let ids: Vec<&str> = sessions.iter().map(|s| s.id.as_str()).collect();
    assert_eq!(ids, vec!["new", "old"]);
    let swapped = dir("/logs/p", vec![
        simple_session("new", "2024-03-01"),
        simple_session("old", "2024-01-01"),
    ]);
    let ids: Vec<String> = service().get_project_sessions(&swapped).into_iter().map(|s| s.id).collect();
    assert_eq!(ids, vec!["new", "old"]);
}

#[test]
fn sessions_with_equal_times_keep_their_order() {
    let sorted = sort_newest_first(vec![
        session("a", "2"),
        session("b", "3"),
        session("c", "2"),
        session("d", "1"),
        session("e", "3"),
        session("f", "2"),
    ]);
    let ids: Vec<&str> = sorted.iter().map(|s| s.id.as_str()).collect();
    assert_eq!(ids, vec!["b", "e", "a", "c", "f", "d"]);
    assert!(sort_newest_first(Vec::<ChatSession>::new()).is_empty());
}

#[test]
fn files_without_a_session_are_left_out_of_the_listing() {
    let project = dir("/logs/p", vec![
        file("empty.jsonl", vec![]),
        simple_session("s1", "2024-01-01"),
        file("junk.jsonl", vec!["junk".to_string()]),
    ]);
    let sessions = service().get_project_sessions(&project);
    assert_eq!(sessions.len(), 1);
    assert_eq!(sessions[0].id, "s1");
}

#[test]
fn project_sessions_use_the_summaries_of_the_whole_project() {
    let project = dir("/logs/p", vec![
        simple_session("s1", "2024-01-01"),
        file("summaries.jsonl", vec![summary("s1-u1", "From another file")]),
    ]);
    let sessions = service().get_project_sessions(&project);
    assert_eq!(sessions.len(), 1);
    assert_eq!(sessions[0].title, "From another file");
}

#[test]
fn projects_are_listed_by_their_latest_session() {
    let dirs = vec![
        dir("/logs/a", vec![simple_session("a1", "2024-02-01"), simple_session("a2", "2024-01-01")]),
        dir("/logs/empty", vec![file("x.jsonl", vec!["junk".to_string()])]),
        dir("/logs/b", vec![simple_session("b1", "2024-01-15"), simple_session("b2", "2024-05-01")]),
        dir("/logs/none", vec![]),
        dir("/logs/c", vec![simple_session("c1", "2024-03-01")]),
    ];
    let projects = service().get_all_projects(&dirs);
    let paths: Vec<&str> = projects.iter().map(|p| p.path.as_str()).collect();
    assert_eq!(paths, vec!["/logs/b", "/logs/c", "/logs/a"]);
    assert_eq!(projects[0].name, "/work");
    let ids: Vec<&str> = projects[0].chat_sessions.iter().map(|s| s.id.as_str()).collect();
    assert_eq!(ids, vec!["b2", "b1"]);
    assert!(service().get_all_projects(&vec![]).is_empty());
}

#[test]
fn project_is_named_by_its_newest_session() {
    let dirs = vec![dir("/logs/a", vec![
        file("1.jsonl", vec![rec("user", "u1", "s1", "/old/place", "2024-01-01", "\"x\"")]),
        file("2.jsonl", vec![rec("user", "u2", "s2", "/new/place", "2024-02-01", "\"y\"")]),
    ])];
    let projects = service().get_all_projects(&dirs);
    assert_eq!(projects.len(), 1);
    assert_eq!(projects[0].name, "/new/place");
    assert_eq!(projects[0].path, "/logs/a");
}

#[test]
fn file_contains_session_id_reads_raw_lines() {
    let s = service();
    let f = file("s.jsonl", vec![
        String::new(),
        summary("u1", "mentions \\\"sessionId\\\":\\\"s1\\\" in a summary"),
        "{\"sessionId\":\"s1\",\"type\":\"summary\"}".to_string(),
        "{\"sessionId\": \"spaced\"}".to_string(),
        "not json but \"sessionId\":\"raw\" all the same".to_string(),
        rec("user", "u1", "s10", "/w", "t", "\"x\""),
    ]);
    assert!(s.file_contains_session_id(&f, "s10"));
    assert!(s.file_contains_session_id(&f, "raw"));
    assert!(!s.file_contains_session_id(&f, "s1"));
    assert!(!s.file_contains_session_id(&f, "spaced"));
    assert!(!s.file_contains_session_id(&f, "missing"));
    assert!(!s.file_contains_session_id(&file("e.jsonl", vec![]), "s1"));
}

#[test]
fn session_file_is_the_first_that_holds_the_id() {
    let s = service();
    let dirs = vec![
        dir("/logs/a", vec![simple_session("s1", "t"), simple_session("s2", "t")]),
        dir("/logs/b", vec![
            file("/logs/b/copy.jsonl", vec![rec("user", "u1", "s2", "/w", "t", "\"copy\"")]),
            simple_session("s3", "t"),
        ]),
    ];
    assert_eq!(s.find_session_file(&dirs, "s2").unwrap().path, "/logs/p/s2.jsonl");
    assert_eq!(s.get_session_file_path(&dirs, "s3").unwrap(), "/logs/p/s3.jsonl");
    assert_eq!(s.get_session_file_path(&dirs, "s1").unwrap(), "/logs/p/s1.jsonl");
}

#[test]
fn unknown_session_is_not_found() {
    let s = service();
    let dirs = vec![dir("/logs/a", vec![simple_session("s1", "t")])];
    match s.get_session_file_path(&dirs, "nope") {
        Err(ServiceError::SessionNotFound(id)) => assert_eq!(id, "nope"),
        other => panic!("expected not found, got {:?}", other),
    }
    match s.get_chat_messages(&dirs, "nope") {
        Err(e) => assert_eq!(e.message(), "Session file not found for ID: nope"),
        Ok(_) => panic!("expected not found"),
    }
    assert!(s.find_session_file(&vec![], "s1").is_err());
}

#[test]
fn chat_messages_are_those_of_the_session_file() {
    let s = service();
    let dirs = vec![dir("/logs/a", vec![
        simple_session("s1", "t"),
        file("/logs/a/s2.jsonl", vec![
            rec("user", "u1", "s2", "/w", "t1", "\"question\""),
            rec("assistant", "u2", "s2", "/w", "t2", "\"answer\""),
        ]),
    ])];
    let messages = s.get_chat_messages(&dirs, "s2").unwrap();
    assert_eq!(messages.len(), 2);
    assert_eq!(messages[0].uuid, "u1");
    assert_eq!(messages[1].message_type, "assistant");
}

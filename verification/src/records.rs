//! The record parser: from one decoded line to a typed record, and from a
//! record to the message it stands for.

use crate::chat_service::ChatService;
use crate::json::{
    decode, display, displayed, member, model, models, opt_model, optional_member, parsed,
    text_member, JsonModel,
};
use crate::text::{is_blank, same_text, trimmed};
use crate::types::{
    block_views, copy_opt_json, copy_opt_text, opt_text, BlockView, ChatMessage, ContentBlock,
    ContentView, MessageContent, MessageView, RawJsonlMessage, RawMessage, RawMessageView,
    RecordView,
};
use vstd::prelude::*;

verus! {

/// The block that a JSON value stands for. Every member is taken only where it
/// is a string; the call id of a `tool_use` block is its own `id`, that of any
/// other block the `tool_use_id` it refers to.
pub open spec fn block_of(m: JsonModel) -> BlockView {
    let kind = match m.text_field("type"@) {
        Some(kind) => kind,
        None => "unknown"@,
    };
    BlockView {
        block_type: kind,
        text: m.text_field("text"@),
        name: m.text_field("name"@),
        input: m.field("input"@),
        tool_use_id: if kind == "tool_use"@ {
            m.text_field("id"@)
        } else {
            m.text_field("tool_use_id"@)
        },
        content: m.text_field("content"@),
        tool_use_result: None,
        thinking: m.text_field("thinking"@),
    }
}

/// The blocks that the elements of a JSON array stand for.
pub open spec fn blocks_of(elements: Seq<JsonModel>) -> Seq<BlockView> {
    elements.map_values(|m: JsonModel| block_of(m))
}

/// The content that a JSON value stands for: a string is plain text, an array
/// is a sequence of blocks, and any other value is plain text in its JSON form.
pub open spec fn content_of(m: JsonModel) -> ContentView {
    match m {
        JsonModel::Text(t) => ContentView::Text(t),
        JsonModel::Array(elements) => ContentView::Mixed(blocks_of(elements)),
        _ => ContentView::Text(displayed(m)),
    }
}

/// The message part that a JSON value stands for: `content` must be given; `id`
/// and `model` may be left out or `null`, and are strings otherwise.
pub open spec fn raw_message_of(m: JsonModel) -> Option<RawMessageView> {
    if m.field("content"@) is Some && m.optional_text_ok("id"@) && m.optional_text_ok("model"@) {
        Some(
            RawMessageView {
                content: m.field("content"@).unwrap(),
                id: m.optional_text("id"@),
                model: m.optional_text("model"@),
            },
        )
    } else {
        None
    }
}

/// Whether a JSON value holds every member that a record must have, each of
/// the right kind.
pub open spec fn is_record(m: JsonModel) -> bool {
    &&& m.optional_text_ok("parentUuid"@)
    &&& m.text_field("cwd"@) is Some
    &&& m.text_field("sessionId"@) is Some
    &&& m.text_field("version"@) is Some
    &&& m.text_field("type"@) is Some
    &&& m.field("message"@) is Some
    &&& raw_message_of(m.field("message"@).unwrap()) is Some
    &&& m.text_field("uuid"@) is Some
    &&& m.text_field("timestamp"@) is Some
}

/// The record that a JSON value stands for, where it is one.
pub open spec fn record_of(m: JsonModel) -> Option<RecordView> {
    if is_record(m) {
        Some(
            RecordView {
                parent_uuid: m.optional_text("parentUuid"@),
                cwd: m.text_field("cwd"@).unwrap(),
                session_id: m.text_field("sessionId"@).unwrap(),
                version: m.text_field("version"@).unwrap(),
                message_type: m.text_field("type"@).unwrap(),
                message: raw_message_of(m.field("message"@).unwrap()).unwrap(),
                uuid: m.text_field("uuid"@).unwrap(),
                timestamp: m.text_field("timestamp"@).unwrap(),
                tool_use_result: m.optional_field("toolUseResult"@),
            },
        )
    } else {
        None
    }
}

/// Whether a JSON value is a summary entry.
pub open spec fn is_summary(m: JsonModel) -> bool {
    m.text_field("type"@) == Some("summary"@)
}

/// Whether a line decodes to a summary entry.
pub open spec fn summary_line(line: Seq<char>) -> bool {
    match parsed(line) {
        Some(m) => is_summary(m),
        None => false,
    }
}

/// The record that a line of a log file holds. A blank line holds none, nor
/// does a line that is no JSON document, a summary entry, or a document that
/// lacks a member of a record.
pub open spec fn record_in(line: Seq<char>) -> Option<RecordView> {
    if trimmed(line).len() == 0 {
        None
    } else {
        match parsed(line) {
            Some(m) => if is_summary(m) {
                None
            } else {
                record_of(m)
            },
            None => None,
        }
    }
}

/// The blocks with the structured result placed on every `tool_result` block.
pub open spec fn with_result(blocks: Seq<BlockView>, result: Option<JsonModel>) -> Seq<BlockView> {
    blocks.map_values(
        |b: BlockView|
            if b.is_tool_result() {
                BlockView { tool_use_result: result, ..b }
            } else {
                b
            },
    )
}

/// The id of the message that a record gives: the record's own id, followed by
/// `#` and the provider's message id where the record has one.
pub open spec fn message_id_of(r: RecordView) -> Seq<char> {
    match r.message.id {
        Some(id) => r.uuid + seq!['#'] + id,
        None => r.uuid,
    }
}

/// The content of the message that a record gives: the record's content, with
/// the record's structured tool result placed on every `tool_result` block
/// where the record is a user's and carries one.
pub open spec fn message_content_of(r: RecordView) -> ContentView {
    match content_of(r.message.content) {
        ContentView::Mixed(blocks) => if r.message_type == "user"@ && r.tool_use_result is Some {
            ContentView::Mixed(with_result(blocks, r.tool_use_result))
        } else {
            ContentView::Mixed(blocks)
        },
        ContentView::Text(t) => ContentView::Text(t),
    }
}

/// The message that a record stands for.
pub open spec fn message_of(r: RecordView) -> MessageView {
    MessageView {
        uuid: message_id_of(r),
        parent_uuid: r.parent_uuid,
        timestamp: r.timestamp,
        message_type: r.message_type,
        content: message_content_of(r),
        tool_use_id: None,
        cwd: Some(r.cwd),
        version: Some(r.version),
        model: r.message.model,
    }
}

/// The text of a member that may be left out. The outer `None` says that the
/// member is given and is neither `null` nor a string.
fn optional_text(v: &serde_json::Value, key: &str) -> (r: Option<Option<String>>)
    ensures
        r is Some == model(*v).optional_text_ok(key@),
        r matches Some(t) ==> opt_text(t) == model(*v).optional_text(key@),
{
    match optional_member(v, key) {
        Some(m) => match m.as_str() {
            Some(s) => Some(Some(s.to_owned())),
            None => None,
        },
        None => Some(None),
    }
}

impl ChatService {
    /// Reads one block of a message's content from a JSON value.
    pub fn parse_content_block(&self, block: &serde_json::Value) -> (r: ContentBlock)
        ensures
            r@ == block_of(model(*block)),
    {
        let block_type = match text_member(block, "type") {
            Some(kind) => kind,
            None => "unknown".to_owned(),
        };
        let tool_use_id = if same_text(block_type.as_str(), "tool_use") {
            text_member(block, "id")
        } else {
            text_member(block, "tool_use_id")
        };
        let input = match member(block, "input") {
            Some(v) => Some(v.clone()),
            None => None,
        };
        ContentBlock {
            block_type,
            text: text_member(block, "text"),
            name: text_member(block, "name"),
            input,
            tool_use_id,
            content: text_member(block, "content"),
            tool_use_result: None,
            thinking: text_member(block, "thinking"),
        }
    }

    /// Reads the content of a message from a JSON value.
    pub fn parse_message_content(&self, content: &serde_json::Value) -> (r: MessageContent)
        ensures
            r@ == content_of(model(*content)),
    {
        match content.as_str() {
            Some(text) => MessageContent::Text(text.to_owned()),
            None => match content.as_array() {
                Some(elements) => {
                    let mut blocks: Vec<ContentBlock> = Vec::new();
                    let mut i: usize = 0;
                    while i < elements.len()
                        invariant
                            i <= elements.len(),
                            blocks@.len() == i,
                            forall|k: int|
                                0 <= k < i ==> (#[trigger] blocks@[k])@ == block_of(
                                    model(elements@[k]),
                                ),
                        decreases elements.len() - i,
                    {
                        blocks.push(self.parse_content_block(&elements[i]));
                        i += 1;
                    }
                    assert(block_views(blocks@) =~= blocks_of(models(elements@)));
                    MessageContent::Mixed(blocks)
                },
                None => MessageContent::Text(display(content)),
            },
        }
    }

    /// Reads a record from a decoded line; `None` where a member that a record
    /// must have is missing or of the wrong kind.
    pub fn parse_record(&self, value: &serde_json::Value) -> (r: Option<RawJsonlMessage>)
        ensures
            match r {
                Some(record) => record_of(model(*value)) == Some(record@),
                None => record_of(model(*value)) is None,
            },
    {
        let parent_uuid = match optional_text(value, "parentUuid") {
            Some(t) => t,
            None => { return None; },
        };
        let cwd = match text_member(value, "cwd") {
            Some(t) => t,
            None => { return None; },
        };
        let session_id = match text_member(value, "sessionId") {
            Some(t) => t,
            None => { return None; },
        };
        let version = match text_member(value, "version") {
            Some(t) => t,
            None => { return None; },
        };
        let message_type = match text_member(value, "type") {
            Some(t) => t,
            None => { return None; },
        };
        let body = match member(value, "message") {
            Some(m) => m,
            None => { return None; },
        };
        let content = match member(body, "content") {
            Some(c) => c.clone(),
            None => { return None; },
        };
        let id = match optional_text(body, "id") {
            Some(t) => t,
            None => { return None; },
        };
        let model_name = match optional_text(body, "model") {
            Some(t) => t,
            None => { return None; },
        };
        let uuid = match text_member(value, "uuid") {
            Some(t) => t,
            None => { return None; },
        };
        let timestamp = match text_member(value, "timestamp") {
            Some(t) => t,
            None => { return None; },
        };
        let tool_use_result = match optional_member(value, "toolUseResult") {
            Some(v) => Some(v.clone()),
            None => None,
        };
        Some(
            RawJsonlMessage {
                parent_uuid,
                cwd,
                session_id,
                version,
                message_type,
                message: RawMessage { content, id, model: model_name },
                uuid,
                timestamp,
                tool_use_result,
            },
        )
    }

    /// Reads the record that a line of a log file holds, if it holds one.
    pub fn parse_line(&self, line: &str) -> (r: Option<RawJsonlMessage>)
        ensures
            match r {
                Some(record) => record_in(line@) == Some(record@),
                None => record_in(line@) is None,
            },
    {
        if is_blank(line) {
            return None;
        }
        match decode(line) {
            Some(value) => {
                if is_summary_entry(&value) {
                    None
                } else {
                    self.parse_record(&value)
                }
            },
            None => None,
        }
    }

    /// The content of the message that a record stands for: the record's
    /// content, with the record's structured tool result placed on every
    /// `tool_result` block where the record is a user's and carries one.
    pub fn message_content(&self, raw: &RawJsonlMessage) -> (r: MessageContent)
        ensures
            r@ == message_content_of(raw@),
    {
        match self.parse_message_content(&raw.message.content) {
            MessageContent::Mixed(blocks) => {
                if same_text(raw.message_type.as_str(), "user") && raw.tool_use_result.is_some() {
                    let mut out: Vec<ContentBlock> = Vec::new();
                    let mut i: usize = 0;
                    while i < blocks.len()
                        invariant
                            i <= blocks.len(),
                            out@.len() == i,
                            forall|k: int|
                                0 <= k < i ==> (#[trigger] out@[k])@ == with_result(
                                    block_views(blocks@),
                                    opt_model(raw.tool_use_result),
                                )[k],
                        decreases blocks.len() - i,
                    {
                        let mut block = blocks[i].clone();
                        if block.is_tool_result() {
                            block.tool_use_result = copy_opt_json(&raw.tool_use_result);
                        }
                        out.push(block);
                        i += 1;
                    }
                    assert(block_views(out@) =~= with_result(
                        block_views(blocks@),
                        opt_model(raw.tool_use_result),
                    ));
                    MessageContent::Mixed(out)
                } else {
                    MessageContent::Mixed(blocks)
                }
            },
            MessageContent::Text(text) => MessageContent::Text(text),
        }
    }

    /// The message that a record stands for.
    pub fn convert_raw_to_chat_message(&self, raw: &RawJsonlMessage) -> (r: ChatMessage)
        ensures
            r@ == message_of(raw@),
    {
        let content = self.message_content(raw);
        let uuid = match &raw.message.id {
            Some(id) => {
                let mut composite = raw.uuid.clone();
                proof {
                    reveal_strlit("#");
                }
                composite.append("#");
                composite.append(id.as_str());
                assert(composite@ =~= raw.uuid@ + seq!['#'] + id@);
                composite
            },
            None => raw.uuid.clone(),
        };
        ChatMessage {
            uuid,
            parent_uuid: copy_opt_text(&raw.parent_uuid),
            timestamp: raw.timestamp.clone(),
            message_type: raw.message_type.clone(),
            content,
            tool_use_id: None,
            cwd: Some(raw.cwd.clone()),
            version: Some(raw.version.clone()),
            model: copy_opt_text(&raw.message.model),
        }
    }
}

/// Whether a line decodes to a summary entry.
pub fn is_summary_line(line: &str) -> (r: bool)
    ensures
        r == summary_line(line@),
{
    match decode(line) {
        Some(value) => is_summary_entry(&value),
        None => false,
    }
}

/// Whether a decoded line is a summary entry.
pub fn is_summary_entry(value: &serde_json::Value) -> (r: bool)
    ensures
        r == is_summary(model(*value)),
{
    match text_member(value, "type") {
        Some(kind) => same_text(kind.as_str(), "summary"),
        None => false,
    }
}

} // verus!

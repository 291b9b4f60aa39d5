//! The data of a conversation log and its mathematical views, with the rules
//! that derive a message's text and a session's title.

use crate::json::{model, opt_model, JsonModel};
use crate::text::{
    chars_of, lemma_trimmed_blank, lines, lines_of, same_text, slice, string_of, trim, trimmed,
    whitespace,
};
use vstd::prelude::*;

verus! {

/// The text of a string that may be absent.
pub open spec fn opt_text(s: Option<String>) -> Option<Seq<char>> {
    match s {
        Some(s) => Some(s@),
        None => None,
    }
}

/// A copy of a string that may be absent.
pub fn copy_opt_text(s: &Option<String>) -> (r: Option<String>)
    ensures
        opt_text(r) == opt_text(*s),
{
    match s {
        Some(s) => Some(s.clone()),
        None => None,
    }
}

/// A copy of a document that may be absent.
pub fn copy_opt_json(v: &Option<serde_json::Value>) -> (r: Option<serde_json::Value>)
    ensures
        opt_model(r) == opt_model(*v),
{
    match v {
        Some(v) => Some(v.clone()),
        None => None,
    }
}

/// One block of a message's content.
#[derive(Debug)]
pub struct ContentBlock {
    pub block_type: String,
    pub text: Option<String>,
    pub name: Option<String>,
    pub input: Option<serde_json::Value>,
    pub tool_use_id: Option<String>,
    pub content: Option<String>,
    pub tool_use_result: Option<serde_json::Value>,
    pub thinking: Option<String>,
}

/// What a block holds.
pub struct BlockView {
    pub block_type: Seq<char>,
    pub text: Option<Seq<char>>,
    pub name: Option<Seq<char>>,
    pub input: Option<JsonModel>,
    pub tool_use_id: Option<Seq<char>>,
    pub content: Option<Seq<char>>,
    pub tool_use_result: Option<JsonModel>,
    pub thinking: Option<Seq<char>>,
}

impl View for ContentBlock {
    type V = BlockView;

    open spec fn view(&self) -> BlockView {
        BlockView {
            block_type: self.block_type@,
            text: opt_text(self.text),
            name: opt_text(self.name),
            input: opt_model(self.input),
            tool_use_id: opt_text(self.tool_use_id),
            content: opt_text(self.content),
            tool_use_result: opt_model(self.tool_use_result),
            thinking: opt_text(self.thinking),
        }
    }
}

impl Clone for ContentBlock {
    fn clone(&self) -> (r: Self)
        ensures
            r@ == self@,
    {
        ContentBlock {
            block_type: self.block_type.clone(),
            text: copy_opt_text(&self.text),
            name: copy_opt_text(&self.name),
            input: copy_opt_json(&self.input),
            tool_use_id: copy_opt_text(&self.tool_use_id),
            content: copy_opt_text(&self.content),
            tool_use_result: copy_opt_json(&self.tool_use_result),
            thinking: copy_opt_text(&self.thinking),
        }
    }
}

impl BlockView {
    /// A block of kind `text` that holds the given text and nothing else.
    pub open spec fn plain(text: Seq<char>) -> BlockView {
        BlockView {
            block_type: "text"@,
            text: Some(text),
            name: None,
            input: None,
            tool_use_id: None,
            content: None,
            tool_use_result: None,
            thinking: None,
        }
    }

    /// Whether the block asks for a tool.
    pub open spec fn is_tool_use(self) -> bool {
        self.block_type == "tool_use"@
    }

    /// Whether the block carries the result of a tool.
    pub open spec fn is_tool_result(self) -> bool {
        self.block_type == "tool_result"@
    }
}

impl ContentBlock {
    /// A block of kind `text` that holds the given text and nothing else.
    pub fn plain(text: String) -> (r: ContentBlock)
        ensures
            r@ == BlockView::plain(text@),
    {
        ContentBlock {
            block_type: "text".to_owned(),
            text: Some(text),
            name: None,
            input: None,
            tool_use_id: None,
            content: None,
            tool_use_result: None,
            thinking: None,
        }
    }

    /// Whether the block asks for a tool.
    pub fn is_tool_use(&self) -> (r: bool)
        ensures
            r == self@.is_tool_use(),
    {
        same_text(self.block_type.as_str(), "tool_use")
    }

    /// Whether the block carries the result of a tool.
    pub fn is_tool_result(&self) -> (r: bool)
        ensures
            r == self@.is_tool_result(),
    {
        same_text(self.block_type.as_str(), "tool_result")
    }
}

/// The views of a sequence of blocks.
pub open spec fn block_views(blocks: Seq<ContentBlock>) -> Seq<BlockView> {
    blocks.map_values(|b: ContentBlock| b@)
}

/// A copy of a sequence of blocks.
pub fn copy_blocks(blocks: &Vec<ContentBlock>) -> (r: Vec<ContentBlock>)
    ensures
        block_views(r@) == block_views(blocks@),
{
    let mut out: Vec<ContentBlock> = Vec::new();
    let mut i: usize = 0;
    while i < blocks.len()
        invariant
            i <= blocks.len(),
            out@.len() == i,
            forall|k: int| 0 <= k < i ==> (#[trigger] out@[k])@ == blocks@[k]@,
        decreases blocks.len() - i,
    {
        out.push(blocks[i].clone());
        i += 1;
    }
    assert(block_views(out@) =~= block_views(blocks@));
    out
}

/// The content of a message: plain text, or a sequence of blocks.
#[derive(Debug)]
pub enum MessageContent {
    Text(String),
    Mixed(Vec<ContentBlock>),
}

/// What the content of a message holds.
pub enum ContentView {
    Text(Seq<char>),
    Mixed(Seq<BlockView>),
}

impl View for MessageContent {
    type V = ContentView;

    open spec fn view(&self) -> ContentView {
        match self {
            MessageContent::Text(t) => ContentView::Text(t@),
            MessageContent::Mixed(blocks) => ContentView::Mixed(block_views(blocks@)),
        }
    }
}

impl Clone for MessageContent {
    fn clone(&self) -> (r: Self)
        ensures
            r@ == self@,
    {
        match self {
            MessageContent::Text(t) => MessageContent::Text(t.clone()),
            MessageContent::Mixed(blocks) => MessageContent::Mixed(copy_blocks(blocks)),
        }
    }
}

/// Whether some block asks for a tool.
pub open spec fn any_tool_use(blocks: Seq<BlockView>) -> bool {
    exists|i: int| 0 <= i < blocks.len() && (#[trigger] blocks[i]).is_tool_use()
}

/// The texts of the blocks that hold one, in order.
pub open spec fn block_texts(blocks: Seq<BlockView>) -> Seq<Seq<char>>
    decreases blocks.len(),
{
    if blocks.len() == 0 {
        Seq::empty()
    } else {
        let before = block_texts(blocks.drop_last());
        match blocks.last().text {
            Some(t) => before.push(t),
            None => before,
        }
    }
}

/// The parts, with a line feed between each two neighbours.
pub open spec fn join_lines(parts: Seq<Seq<char>>) -> Seq<char>
    decreases parts.len(),
{
    if parts.len() == 0 {
        Seq::empty()
    } else if parts.len() == 1 {
        parts[0]
    } else {
        join_lines(parts.drop_last()) + seq!['\n'] + parts.last()
    }
}

impl ContentView {
    /// The text as it was typed: plain text as it is, and of blocks the texts of
    /// those that hold one, a line each.
    pub open spec fn raw_text(self) -> Seq<char> {
        match self {
            ContentView::Text(t) => t,
            ContentView::Mixed(blocks) => join_lines(block_texts(blocks)),
        }
    }

    /// Whether some block asks for a tool.
    pub open spec fn has_tool_calls(self) -> bool {
        match self {
            ContentView::Text(_) => false,
            ContentView::Mixed(blocks) => any_tool_use(blocks),
        }
    }
}

/// One message of a reconstructed conversation.
#[derive(Debug)]
pub struct ChatMessage {
    pub uuid: String,
    pub parent_uuid: Option<String>,
    pub timestamp: String,
    pub message_type: String,
    pub content: MessageContent,
    pub tool_use_id: Option<String>,
    pub cwd: Option<String>,
    pub version: Option<String>,
    pub model: Option<String>,
}

/// What a message holds.
pub struct MessageView {
    pub uuid: Seq<char>,
    pub parent_uuid: Option<Seq<char>>,
    pub timestamp: Seq<char>,
    pub message_type: Seq<char>,
    pub content: ContentView,
    pub tool_use_id: Option<Seq<char>>,
    pub cwd: Option<Seq<char>>,
    pub version: Option<Seq<char>>,
    pub model: Option<Seq<char>>,
}

impl View for ChatMessage {
    type V = MessageView;

    open spec fn view(&self) -> MessageView {
        MessageView {
            uuid: self.uuid@,
            parent_uuid: opt_text(self.parent_uuid),
            timestamp: self.timestamp@,
            message_type: self.message_type@,
            content: self.content@,
            tool_use_id: opt_text(self.tool_use_id),
            cwd: opt_text(self.cwd),
            version: opt_text(self.version),
            model: opt_text(self.model),
        }
    }
}

impl Clone for ChatMessage {
    fn clone(&self) -> (r: Self)
        ensures
            r@ == self@,
    {
        ChatMessage {
            uuid: self.uuid.clone(),
            parent_uuid: copy_opt_text(&self.parent_uuid),
            timestamp: self.timestamp.clone(),
            message_type: self.message_type.clone(),
            content: self.content.clone(),
            tool_use_id: copy_opt_text(&self.tool_use_id),
            cwd: copy_opt_text(&self.cwd),
            version: copy_opt_text(&self.version),
            model: copy_opt_text(&self.model),
        }
    }
}

impl MessageView {
    /// Whether the message is a user's.
    pub open spec fn is_user(self) -> bool {
        self.message_type == "user"@
    }

    /// Whether the message is the assistant's.
    pub open spec fn is_assistant(self) -> bool {
        self.message_type == "assistant"@
    }

    /// The text a reader sees: the raw text with its backspaces collapsed.
    pub open spec fn text(self) -> Seq<char> {
        collapsed(self.content.raw_text())
    }
}

/// The views of a sequence of messages.
pub open spec fn message_views(messages: Seq<ChatMessage>) -> Seq<MessageView> {
    messages.map_values(|m: ChatMessage| m@)
}

/// The text with every backspace applied: read left to right, a backspace
/// removes the character kept last, if there is one, and is itself dropped.
pub open spec fn collapsed(s: Seq<char>) -> Seq<char>
    decreases s.len(),
{
    if s.len() == 0 {
        Seq::empty()
    } else {
        let before = collapsed(s.drop_last());
        if s.last() == '\u{8}' {
            if before.len() > 0 {
                before.drop_last()
            } else {
                before
            }
        } else {
            before.push(s.last())
        }
    }
}

/// A line that holds something, and whose first visible character opens no tag.
pub open spec fn substantive(line: Seq<char>) -> bool {
    let t = trimmed(line);
    t.len() > 0 && t[0] != '<'
}

/// The first substantive line at or after position `i`.
pub open spec fn first_substantive(ls: Seq<Seq<char>>, i: int) -> Option<Seq<char>>
    decreases ls.len() - i,
{
    if i < 0 || i >= ls.len() {
        None
    } else if substantive(ls[i]) {
        Some(ls[i])
    } else {
        first_substantive(ls, i + 1)
    }
}

/// The part of a trimmed, non-empty text that a title is taken from: where the
/// text opens with a tag, its first substantive line, if it has one.
pub open spec fn title_body(t: Seq<char>) -> Seq<char> {
    if t.len() > 0 && t[0] == '<' {
        match first_substantive(lines_of(t), 0) {
            Some(line) => line,
            None => t,
        }
    } else {
        t
    }
}

/// The first line of a text, or the text itself where it has no line.
pub open spec fn first_line(s: Seq<char>) -> Seq<char> {
    if lines_of(s).len() > 0 {
        lines_of(s)[0]
    } else {
        s
    }
}

/// A line cut to title length: up to 50 characters stay as they are; a longer
/// line keeps its first 47 characters, followed by three dots.
pub open spec fn shortened(line: Seq<char>) -> Seq<char> {
    if line.len() <= 50 {
        line
    } else {
        line.subrange(0, 47) + seq!['.', '.', '.']
    }
}

/// The title placed on a session that has no text to take one from.
pub open spec fn placeholder_title() -> Seq<char> {
    "Untitled Chat"@
}

/// The title derived from the text of a message.
pub open spec fn title_of(content: Seq<char>) -> Seq<char> {
    let t = trimmed(collapsed(content));
    if t.len() == 0 {
        placeholder_title()
    } else {
        shortened(first_line(title_body(t)))
    }
}

/// A collapsed text holds no backspace.
pub proof fn lemma_collapsed_has_no_backspace(s: Seq<char>)
    ensures
        forall|i: int| 0 <= i < collapsed(s).len() ==> collapsed(s)[i] != '\u{8}',
    decreases s.len(),
{
    if s.len() > 0 {
        lemma_collapsed_has_no_backspace(s.drop_last());
        let before = collapsed(s.drop_last());
        assert forall|i: int| 0 <= i < collapsed(s).len() implies collapsed(s)[i] != '\u{8}' by {
            if s.last() == '\u{8}' {
                assert(collapsed(s)[i] == before[i]);
            } else if i < before.len() {
                assert(collapsed(s)[i] == before[i]);
            }
        }
    }
}

/// Collapsing changes nothing in a text without backspaces.
pub proof fn lemma_collapsed_without_backspace(s: Seq<char>)
    requires
        forall|i: int| 0 <= i < s.len() ==> s[i] != '\u{8}',
    ensures
        collapsed(s) == s,
    decreases s.len(),
{
    if s.len() > 0 {
        lemma_collapsed_without_backspace(s.drop_last());
        assert(s.drop_last().push(s.last()) =~= s);
    }
}

/// Collapsing backspaces is idempotent: a second pass changes nothing.
pub proof fn lemma_collapse_idempotent(s: Seq<char>)
    ensures
        collapsed(collapsed(s)) == collapsed(s),
{
    lemma_collapsed_has_no_backspace(s);
    lemma_collapsed_without_backspace(collapsed(s));
}

/// A backspace at the very start of a text has nothing to remove: the text
/// collapses as if the backspace were not there.
pub proof fn lemma_leading_backspace(s: Seq<char>)
    ensures
        collapsed(seq!['\u{8}'] + s) == collapsed(s),
    decreases s.len(),
{
    let whole = seq!['\u{8}'] + s;
    if s.len() == 0 {
        assert(whole.drop_last() =~= Seq::<char>::empty());
        assert(collapsed(whole.drop_last()).len() == 0);
    } else {
        lemma_leading_backspace(s.drop_last());
        assert(whole.drop_last() =~= seq!['\u{8}'] + s.drop_last());
        assert(whole.last() == s.last());
    }
}

/// A first line of more than 50 characters gives a title of exactly 50: its
/// first 47 characters and three dots.
pub proof fn lemma_long_title(content: Seq<char>)
    requires
        trimmed(collapsed(content)).len() > 0,
        first_line(title_body(trimmed(collapsed(content)))).len() > 50,
    ensures
        title_of(content).len() == 50,
        title_of(content).subrange(0, 47) == first_line(
            title_body(trimmed(collapsed(content))),
        ).subrange(0, 47),
        title_of(content).subrange(47, 50) == seq!['.', '.', '.'],
{
    let line = first_line(title_body(trimmed(collapsed(content))));
    assert(title_of(content) == line.subrange(0, 47) + seq!['.', '.', '.']);
    assert(title_of(content).subrange(0, 47) =~= line.subrange(0, 47));
    assert(title_of(content).subrange(47, 50) =~= seq!['.', '.', '.']);
}

/// A text of whitespace only gives the placeholder title.
pub proof fn lemma_blank_title(content: Seq<char>)
    requires
        forall|k: int| 0 <= k < content.len() ==> whitespace(#[trigger] content[k]),
    ensures
        title_of(content) == placeholder_title(),
{
    assert forall|k: int| 0 <= k < content.len() implies content[k] != '\u{8}' by {
        assert(whitespace(content[k]));
    }
    lemma_collapsed_without_backspace(content);
    lemma_trimmed_blank(content);
}

/// A text that is empty once its backspaces are collapsed and its outer
/// whitespace is dropped gives the placeholder title.
pub proof fn lemma_empty_title(content: Seq<char>)
    requires
        trimmed(collapsed(content)).len() == 0,
    ensures
        title_of(content) == placeholder_title(),
{
}

impl ChatMessage {
    /// The text of the message with its backspaces collapsed.
    pub fn extract_text(&self) -> (r: String)
        ensures
            r@ == self@.text(),
    {
        let raw: String = match &self.content {
            MessageContent::Text(text) => text.clone(),
            MessageContent::Mixed(blocks) => {
                let mut joined: Vec<char> = Vec::new();
                let mut seen: bool = false;
                let mut i: usize = 0;
                while i < blocks.len()
                    invariant
                        i <= blocks.len(),
                        seen == (block_texts(block_views(blocks@.take(i as int))).len() > 0),
                        joined@ == join_lines(block_texts(block_views(blocks@.take(i as int)))),
                    decreases blocks.len() - i,
                {
                    proof {
                        let now = block_views(blocks@.take(i + 1));
                        assert(now.drop_last() =~= block_views(blocks@.take(i as int)));
                        assert(now.last() == blocks@[i as int]@);
                    }
                    match &blocks[i].text {
                        Some(text) => {
                            let ghost before = block_texts(block_views(blocks@.take(i as int)));
                            let ghost parts = before.push(text@);
                            assert(parts.drop_last() =~= before);
                            if seen {
                                joined.push('\n');
                            }
                            let chars = chars_of(text.as_str());
                            let mut k: usize = 0;
                            let ghost base = joined@;
                            while k < chars.len()
                                invariant
                                    k <= chars.len(),
                                    joined@ == base + chars@.take(k as int),
                                decreases chars.len() - k,
                            {
                                joined.push(chars[k]);
                                assert(joined@ =~= base + chars@.take(k + 1));
                                k += 1;
                            }
                            assert(chars@.take(chars@.len() as int) =~= chars@);
                            assert(joined@ =~= join_lines(parts));
                            seen = true;
                        },
                        None => {},
                    }
                    i += 1;
                }
                assert(blocks@.take(blocks@.len() as int) =~= blocks@);
                string_of(&joined)
            },
        };
        ChatSession::process_backspaces(raw.as_str())
    }

    /// Whether some block of the message asks for a tool.
    pub fn has_tool_calls(&self) -> (r: bool)
        ensures
            r == self@.content.has_tool_calls(),
    {
        match &self.content {
            MessageContent::Text(_) => false,
            MessageContent::Mixed(blocks) => {
                let mut i: usize = 0;
                while i < blocks.len()
                    invariant
                        i <= blocks.len(),
                        self@.content == ContentView::Mixed(block_views(blocks@)),
                        forall|k: int| 0 <= k < i ==> !(#[trigger] blocks@[k])@.is_tool_use(),
                    decreases blocks.len() - i,
                {
                    if blocks[i].is_tool_use() {
                        proof {
                            let views = block_views(blocks@);
                            assert(views[i as int] == blocks@[i as int]@);
                            assert(0 <= i < views.len() && views[i as int].is_tool_use());
                            assert(any_tool_use(views));
                        }
                        return true;
                    }
                    i += 1;
                }
                assert forall|k: int| 0 <= k < block_views(blocks@).len() implies !(
                #[trigger] block_views(blocks@)[k]).is_tool_use() by {
                    assert(!blocks@[k]@.is_tool_use());
                }
                assert(!any_tool_use(block_views(blocks@)));
                false
            },
        }
    }
}

/// One conversation, as listed under its project.
#[derive(Debug)]
pub struct ChatSession {
    pub id: String,
    pub title: String,
    pub timestamp: String,
    pub project_path: String,
    pub message_count: usize,
    pub last_updated: String,
}

/// What a session holds.
pub struct SessionView {
    pub id: Seq<char>,
    pub title: Seq<char>,
    pub timestamp: Seq<char>,
    pub project_path: Seq<char>,
    pub message_count: nat,
    pub last_updated: Seq<char>,
}

impl View for ChatSession {
    type V = SessionView;

    open spec fn view(&self) -> SessionView {
        SessionView {
            id: self.id@,
            title: self.title@,
            timestamp: self.timestamp@,
            project_path: self.project_path@,
            message_count: self.message_count as nat,
            last_updated: self.last_updated@,
        }
    }
}

impl Clone for ChatSession {
    fn clone(&self) -> (r: Self)
        ensures
            r@ == self@,
    {
        ChatSession {
            id: self.id.clone(),
            title: self.title.clone(),
            timestamp: self.timestamp.clone(),
            project_path: self.project_path.clone(),
            message_count: self.message_count,
            last_updated: self.last_updated.clone(),
        }
    }
}

/// The views of a sequence of sessions.
pub open spec fn session_views(sessions: Seq<ChatSession>) -> Seq<SessionView> {
    sessions.map_values(|s: ChatSession| s@)
}

impl ChatSession {
    /// A session that starts with `first_message`, with no message counted yet.
    /// Its title is the summary where one is given, and else derived from the
    /// text of the first message.
    pub fn new_with_summary(
        id: String,
        first_message: &ChatMessage,
        project_path: String,
        summary_title: Option<String>,
    ) -> (r: Self)
        ensures
            r@ == (SessionView {
                id: id@,
                title: match summary_title {
                    Some(summary) => summary@,
                    None => title_of(first_message@.text()),
                },
                timestamp: first_message@.timestamp,
                project_path: project_path@,
                message_count: 0,
                last_updated: first_message@.timestamp,
            }),
    {
        let title = match summary_title {
            Some(summary) => summary,
            None => {
                let text = first_message.extract_text();
                Self::generate_title(text.as_str())
            },
        };
        ChatSession {
            id,
            title,
            timestamp: first_message.timestamp.clone(),
            project_path,
            message_count: 0,
            last_updated: first_message.timestamp.clone(),
        }
    }

    /// The title derived from the text of a message.
    pub fn generate_title(content: &str) -> (r: String)
        ensures
            r@ == title_of(content@),
    {
        let processed = Self::process_backspaces(content);
        let chars = chars_of(processed.as_str());
        let t = trim(&chars);
        if t.len() == 0 {
            return "Untitled Chat".to_owned();
        }
        let body: Vec<char> = if t[0] == '<' {
            let ls = lines(&t);
            let mut found: Option<Vec<char>> = None;
            let mut i: usize = 0;
            while i < ls.len() && found.is_none()
                invariant
                    i <= ls.len(),
                    ls@.len() == lines_of(t@).len(),
                    forall|k: int| 0 <= k < ls@.len() ==> (#[trigger] ls@[k])@ == lines_of(t@)[k],
                    match found {
                        Some(line) => first_substantive(lines_of(t@), 0) == Some(line@),
                        None => first_substantive(lines_of(t@), 0) == first_substantive(
                            lines_of(t@),
                            i as int,
                        ),
                    },
                decreases ls.len() - i, found.is_none() as int,
            {
                let inner = trim(&ls[i]);
                if inner.len() > 0 && inner[0] != '<' {
                    found = Some(slice(&ls[i], 0, ls[i].len()));
                    assert(ls@[i as int]@.subrange(0, ls@[i as int]@.len() as int) =~= ls@[i as int]@);
                } else {
                    i += 1;
                }
            }
            match found {
                Some(line) => line,
                None => t,
            }
        } else {
            t
        };
        let ls = lines(&body);
        let mut title: Vec<char> = if ls.len() > 0 {
            assert(ls@[0]@.subrange(0, ls@[0]@.len() as int) =~= ls@[0]@);
            slice(&ls[0], 0, ls[0].len())
        } else {
            body
        };
        if title.len() > 50 {
            let ghost line = title@;
            title.truncate(47);
            title.push('.');
            title.push('.');
            title.push('.');
            assert(title@ =~= line.subrange(0, 47) + seq!['.', '.', '.']);
        }
        string_of(&title)
    }

    /// The text with every backspace applied.
    pub fn process_backspaces(text: &str) -> (r: String)
        ensures
            r@ == collapsed(text@),
    {
        let chars = chars_of(text);
        let mut out: Vec<char> = Vec::new();
        let mut i: usize = 0;
        while i < chars.len()
            invariant
                i <= chars.len(),
                out@ == collapsed(chars@.take(i as int)),
            decreases chars.len() - i,
        {
            assert(chars@.take(i + 1).drop_last() =~= chars@.take(i as int));
            if chars[i] == '\u{8}' {
                out.pop();
            } else {
                out.push(chars[i]);
            }
            i += 1;
        }
        assert(chars@.take(chars@.len() as int) =~= chars@);
        string_of(&out)
    }
}

/// The sessions of one project.
#[derive(Debug)]
pub struct ProjectFolder {
    pub name: String,
    pub path: String,
    pub chat_sessions: Vec<ChatSession>,
}

/// What a project folder holds.
pub struct FolderView {
    pub name: Seq<char>,
    pub path: Seq<char>,
    pub chat_sessions: Seq<SessionView>,
}

impl View for ProjectFolder {
    type V = FolderView;

    open spec fn view(&self) -> FolderView {
        FolderView {
            name: self.name@,
            path: self.path@,
            chat_sessions: session_views(self.chat_sessions@),
        }
    }
}

impl Clone for ProjectFolder {
    fn clone(&self) -> (r: Self)
        ensures
            r@ == self@,
    {
        let mut sessions: Vec<ChatSession> = Vec::new();
        let mut i: usize = 0;
        while i < self.chat_sessions.len()
            invariant
                i <= self.chat_sessions.len(),
                sessions@.len() == i,
                forall|k: int| 0 <= k < i ==> (#[trigger] sessions@[k])@ == self.chat_sessions@[k]@,
            decreases self.chat_sessions.len() - i,
        {
            sessions.push(self.chat_sessions[i].clone());
            i += 1;
        }
        assert(session_views(sessions@) =~= session_views(self.chat_sessions@));
        ProjectFolder { name: self.name.clone(), path: self.path.clone(), chat_sessions: sessions }
    }
}

/// The views of a sequence of folders.
pub open spec fn folder_views(folders: Seq<ProjectFolder>) -> Seq<FolderView> {
    folders.map_values(|f: ProjectFolder| f@)
}

/// One place where a search found its query.
#[derive(Debug)]
pub struct SearchResult {
    pub session_id: String,
    pub message_uuid: String,
    pub snippet: String,
    pub match_type: String,
}

/// What a search result holds.
pub struct ResultView {
    pub session_id: Seq<char>,
    pub message_uuid: Seq<char>,
    pub snippet: Seq<char>,
    pub match_type: Seq<char>,
}

impl View for SearchResult {
    type V = ResultView;

    open spec fn view(&self) -> ResultView {
        ResultView {
            session_id: self.session_id@,
            message_uuid: self.message_uuid@,
            snippet: self.snippet@,
            match_type: self.match_type@,
        }
    }
}

/// The views of a sequence of search results.
pub open spec fn result_views(results: Seq<SearchResult>) -> Seq<ResultView> {
    results.map_values(|r: SearchResult| r@)
}

/// The message part of a record.
#[derive(Debug)]
pub struct RawMessage {
    pub content: serde_json::Value,
    pub id: Option<String>,
    pub model: Option<String>,
}

/// What the message part of a record holds.
pub struct RawMessageView {
    pub content: JsonModel,
    pub id: Option<Seq<char>>,
    pub model: Option<Seq<char>>,
}

impl View for RawMessage {
    type V = RawMessageView;

    open spec fn view(&self) -> RawMessageView {
        RawMessageView { content: model(self.content), id: opt_text(self.id), model: opt_text(self.model) }
    }
}

/// One line of a session file, decoded.
#[derive(Debug)]
pub struct RawJsonlMessage {
    pub parent_uuid: Option<String>,
    pub cwd: String,
    pub session_id: String,
    pub version: String,
    pub message_type: String,
    pub message: RawMessage,
    pub uuid: String,
    pub timestamp: String,
    pub tool_use_result: Option<serde_json::Value>,
}

/// What a record holds.
pub struct RecordView {
    pub parent_uuid: Option<Seq<char>>,
    pub cwd: Seq<char>,
    pub session_id: Seq<char>,
    pub version: Seq<char>,
    pub message_type: Seq<char>,
    pub message: RawMessageView,
    pub uuid: Seq<char>,
    pub timestamp: Seq<char>,
    pub tool_use_result: Option<JsonModel>,
}

impl View for RawJsonlMessage {
    type V = RecordView;

    open spec fn view(&self) -> RecordView {
        RecordView {
            parent_uuid: opt_text(self.parent_uuid),
            cwd: self.cwd@,
            session_id: self.session_id@,
            version: self.version@,
            message_type: self.message_type@,
            message: self.message@,
            uuid: self.uuid@,
            timestamp: self.timestamp@,
            tool_use_result: opt_model(self.tool_use_result),
        }
    }
}

} // verus!

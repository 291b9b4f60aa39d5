//! The reconstruction engine: folds the records of one log file into the
//! messages of the conversation. A record either continues the message before
//! it, answers the tool calls of the message before it, or starts a new one.

use crate::chat_service::{ChatService, SessionFile};
use crate::records::{message_of, record_in};
use crate::text::{chars_of, ends_with, has_suffix, same_text};
use crate::types::{
    any_tool_use, block_views, copy_blocks, copy_opt_json, copy_opt_text, message_views, opt_text,
    BlockView, ChatMessage, ContentBlock, ContentView, MessageContent, MessageView,
    RawJsonlMessage, RecordView,
};
use vstd::prelude::*;

verus! {

/// A fragment continues the message before it where both are the assistant's
/// and the id of the message before ends with the fragment's provider id.
pub open spec fn continues(prev: MessageView, cur: MessageView, provider_id: Option<Seq<char>>) -> bool {
    &&& provider_id is Some
    &&& prev.is_assistant()
    &&& cur.is_assistant()
    &&& has_suffix(prev.uuid, provider_id.unwrap())
}

/// The blocks that a content stands for: plain text is one text block.
pub open spec fn as_blocks(content: ContentView) -> Seq<BlockView> {
    match content {
        ContentView::Text(t) => seq![BlockView::plain(t)],
        ContentView::Mixed(blocks) => blocks,
    }
}

/// The content of a message once a fragment is appended: the blocks of the
/// message followed by the blocks of the fragment, where plain text on either
/// side stands as one text block. Nothing of either side is lost.
pub open spec fn appended(prev: ContentView, cur: ContentView) -> ContentView {
    match (prev, cur) {
        (ContentView::Text(p), ContentView::Text(c)) => ContentView::Mixed(
            seq![BlockView::plain(p), BlockView::plain(c)],
        ),
        (ContentView::Text(p), ContentView::Mixed(c)) => ContentView::Mixed(
            seq![BlockView::plain(p)] + c,
        ),
        (ContentView::Mixed(p), ContentView::Text(c)) => ContentView::Mixed(
            p.push(BlockView::plain(c)),
        ),
        (ContentView::Mixed(p), ContentView::Mixed(c)) => ContentView::Mixed(p + c),
    }
}

/// Appending keeps every block of both sides, in order: the result is blocks,
/// those of the message followed by those of the fragment.
pub proof fn lemma_appended_keeps_all(prev: ContentView, cur: ContentView)
    ensures
        appended(prev, cur) == ContentView::Mixed(as_blocks(prev) + as_blocks(cur)),
        as_blocks(appended(prev, cur)).len() == as_blocks(prev).len() + as_blocks(cur).len(),
{
    match (prev, cur) {
        (ContentView::Text(p), ContentView::Text(c)) => {
            assert(seq![BlockView::plain(p), BlockView::plain(c)] =~= seq![BlockView::plain(p)]
                + seq![BlockView::plain(c)]);
        },
        (ContentView::Mixed(p), ContentView::Text(c)) => {
            assert(p.push(BlockView::plain(c)) =~= p + seq![BlockView::plain(c)]);
        },
        _ => {},
    }
}

/// Every block is a tool result, and there is at least one.
pub open spec fn all_tool_results(blocks: Seq<BlockView>) -> bool {
    blocks.len() > 0 && forall|i: int| 0 <= i < blocks.len() ==> (#[trigger] blocks[i]).is_tool_result()
}

/// The content consists of tool results only.
pub open spec fn only_tool_results(content: ContentView) -> bool {
    match content {
        ContentView::Mixed(blocks) => all_tool_results(blocks),
        ContentView::Text(_) => false,
    }
}

/// A user's message that consists of tool results only answers the assistant's
/// message before it where that one asks for a tool.
pub open spec fn answers_tools(prev: MessageView, cur: MessageView) -> bool {
    &&& cur.is_user()
    &&& only_tool_results(cur.content)
    &&& prev.is_assistant()
    &&& prev.content.has_tool_calls()
}

/// Whether a block is the tool call with the given call id.
pub open spec fn is_call(block: BlockView, id: Seq<char>) -> bool {
    block.is_tool_use() && block.tool_use_id == Some(id)
}

/// The position of the first tool call with the given id at or after `from`.
pub open spec fn first_call(blocks: Seq<BlockView>, id: Seq<char>, from: int) -> Option<int>
    decreases blocks.len() - from,
{
    if from < 0 || from >= blocks.len() {
        None
    } else if is_call(blocks[from], id) {
        Some(from)
    } else {
        first_call(blocks, id, from + 1)
    }
}

/// A tool call with the result fields of a tool result written into it.
pub open spec fn answered(call: BlockView, result: BlockView) -> BlockView {
    BlockView { content: result.content, tool_use_result: result.tool_use_result, ..call }
}

/// The blocks once one result is attached: a tool result that names a call id
/// is written into the first tool call with that id; any other block, and a
/// result whose id no call has, changes nothing.
pub open spec fn attach(blocks: Seq<BlockView>, result: BlockView) -> Seq<BlockView> {
    if result.is_tool_result() && result.tool_use_id is Some {
        match first_call(blocks, result.tool_use_id.unwrap(), 0) {
            Some(j) => blocks.update(j, answered(blocks[j], result)),
            None => blocks,
        }
    } else {
        blocks
    }
}

/// The blocks once every result is attached, in order.
pub open spec fn attach_all(blocks: Seq<BlockView>, results: Seq<BlockView>) -> Seq<BlockView>
    decreases results.len(),
{
    if results.len() == 0 {
        blocks
    } else {
        attach(attach_all(blocks, results.drop_last()), results.last())
    }
}

/// The content of a message once the tool results of the next one are paired
/// with its calls. Plain text on either side changes nothing.
pub open spec fn paired(prev: ContentView, cur: ContentView) -> ContentView {
    match (prev, cur) {
        (ContentView::Mixed(p), ContentView::Mixed(c)) => ContentView::Mixed(attach_all(p, c)),
        _ => prev,
    }
}

/// The messages with the content of the last one replaced.
pub open spec fn with_last_content(out: Seq<MessageView>, content: ContentView) -> Seq<MessageView> {
    if out.len() > 0 {
        out.update(out.len() - 1, MessageView { content, ..out.last() })
    } else {
        out
    }
}

/// The messages once one more is taken in: it continues the last one, answers
/// the tool calls of the last one, or is added as a new message.
pub open spec fn absorbed(
    out: Seq<MessageView>,
    cur: MessageView,
    provider_id: Option<Seq<char>>,
) -> Seq<MessageView> {
    if out.len() > 0 && continues(out.last(), cur, provider_id) {
        with_last_content(out, appended(out.last().content, cur.content))
    } else if out.len() > 0 && answers_tools(out.last(), cur) {
        with_last_content(out, paired(out.last().content, cur.content))
    } else {
        out.push(cur)
    }
}

/// Whether a record is part of the conversation: a user's or the assistant's.
pub open spec fn in_conversation(r: RecordView) -> bool {
    r.message_type == "user"@ || r.message_type == "assistant"@
}

/// The messages once one more line of the file is read.
pub open spec fn with_line(out: Seq<MessageView>, line: Seq<char>) -> Seq<MessageView> {
    match record_in(line) {
        Some(r) => if in_conversation(r) {
            absorbed(out, message_of(r), r.message.id)
        } else {
            out
        },
        None => out,
    }
}

/// The conversation that the lines of a log file hold, read in file order.
pub open spec fn reconstructed(lines: Seq<Seq<char>>) -> Seq<MessageView>
    decreases lines.len(),
{
    if lines.len() == 0 {
        Seq::empty()
    } else {
        with_line(reconstructed(lines.drop_last()), lines.last())
    }
}

/// Whether a message is a user's or the assistant's.
pub open spec fn has_role(m: MessageView) -> bool {
    m.is_user() || m.is_assistant()
}

/// Every message is a user's or the assistant's.
pub open spec fn all_have_role(out: Seq<MessageView>) -> bool {
    forall|k: int| 0 <= k < out.len() ==> has_role(#[trigger] out[k])
}

/// The second sequence keeps every message of the first at its position, with
/// its id, time and role, and content that is blocks stays blocks; all but the
/// last are kept entirely.
pub open spec fn extends(before: Seq<MessageView>, after: Seq<MessageView>) -> bool {
    &&& before.len() <= after.len()
    &&& forall|k: int|
        0 <= k < before.len() ==> {
            &&& (#[trigger] after[k]).uuid == before[k].uuid
            &&& after[k].timestamp == before[k].timestamp
            &&& after[k].message_type == before[k].message_type
            &&& before[k].content is Mixed ==> after[k].content is Mixed
        }
    &&& forall|k: int| 0 <= k < before.len() - 1 ==> #[trigger] after[k] == before[k]
}

/// Reading one more line keeps what was reconstructed and its roles.
pub proof fn lemma_with_line(out: Seq<MessageView>, line: Seq<char>)
    ensures
        extends(out, with_line(out, line)),
        all_have_role(out) ==> all_have_role(with_line(out, line)),
{
    let after = with_line(out, line);
    if all_have_role(out) {
        assert forall|k: int| 0 <= k < after.len() implies has_role(#[trigger] after[k]) by {
            if k < out.len() {
                assert(has_role(out[k]));
            }
        }
    }
}

/// A conversation holds no message but those of a user and of the assistant.
pub proof fn lemma_roles(lines: Seq<Seq<char>>)
    ensures
        all_have_role(reconstructed(lines)),
    decreases lines.len(),
{
    if lines.len() > 0 {
        lemma_roles(lines.drop_last());
        lemma_with_line(reconstructed(lines.drop_last()), lines.last());
    }
}

/// Messages stand in file order: what the first `n` lines give keeps its place,
/// id, time and role when the rest of the file is read; only the last of those
/// messages may still grow, and content that is blocks never turns back into
/// plain text.
pub proof fn lemma_file_order(lines: Seq<Seq<char>>, n: int)
    requires
        0 <= n <= lines.len(),
    ensures
        extends(reconstructed(lines.take(n)), reconstructed(lines)),
    decreases lines.len() - n,
{
    if n == lines.len() {
        assert(lines.take(n) =~= lines);
    } else {
        let shorter = lines.drop_last();
        lemma_file_order(shorter, n);
        assert(shorter.take(n) =~= lines.take(n));
        lemma_with_line(reconstructed(shorter), lines.last());
    }
}

/// Two fragments of one turn give one message: where two records that follow
/// each other are both the assistant's and carry the same provider id, and the
/// first starts a message, the conversation gains exactly one message, whose
/// blocks are the blocks of the first followed by the blocks of the second.
pub proof fn lemma_fragments_collapse(
    out: Seq<MessageView>,
    first: RecordView,
    second: RecordView,
)
    requires
        first.message_type == "assistant"@,
        second.message_type == "assistant"@,
        first.message.id is Some,
        second.message.id == first.message.id,
        out.len() > 0 ==> !continues(out.last(), message_of(first), first.message.id),
    ensures
        ({
            let after = absorbed(
                absorbed(out, message_of(first), first.message.id),
                message_of(second),
                second.message.id,
            );
            &&& after.len() == out.len() + 1
            &&& after.subrange(0, out.len() as int) == out
            &&& after.last().uuid == message_of(first).uuid
            &&& after.last().content == ContentView::Mixed(
                as_blocks(message_of(first).content) + as_blocks(message_of(second).content),
            )
        }),
{
    reveal_strlit("assistant");
    reveal_strlit("user");
    let one = message_of(first);
    let two = message_of(second);
    let id = first.message.id.unwrap();
    assert(!one.is_user()) by {
        assert("assistant"@[0] != "user"@[0]);
    }
    let mid = absorbed(out, one, first.message.id);
    assert(mid == out.push(one));
    assert(has_suffix(one.uuid, id)) by {
        let whole = first.uuid + seq!['#'] + id;
        assert(whole.subrange(whole.len() - id.len(), whole.len() as int) =~= id);
    }
    assert(continues(mid.last(), two, second.message.id));
    let after = absorbed(mid, two, second.message.id);
    assert(after == with_last_content(mid, appended(one.content, two.content)));
    assert(after.subrange(0, out.len() as int) =~= out);
    lemma_appended_keeps_all(one.content, two.content);
}

/// A tool result is absorbed by the call it answers: where the last message is
/// the assistant's and holds a tool call with id `id`, and the next message is
/// a user's that consists of one tool result for `id`, the conversation keeps
/// its length, and the first call with that id holds the result's fields.
pub proof fn lemma_tool_result_absorbed(
    out: Seq<MessageView>,
    cur: MessageView,
    provider_id: Option<Seq<char>>,
    id: Seq<char>,
)
    requires
        out.len() > 0,
        out.last().is_assistant(),
        out.last().content matches ContentView::Mixed(calls) && first_call(calls, id, 0) is Some,
        cur.is_user(),
        cur.content matches ContentView::Mixed(results) && results.len() == 1
            && results[0].is_tool_result() && results[0].tool_use_id == Some(id),
    ensures
        ({
            let after = absorbed(out, cur, provider_id);
            let calls = out.last().content->Mixed_0;
            let result = cur.content->Mixed_0[0];
            let j = first_call(calls, id, 0).unwrap();
            &&& after.len() == out.len()
            &&& after.subrange(0, out.len() - 1) == out.subrange(0, out.len() - 1)
            &&& after.last().uuid == out.last().uuid
            &&& after.last().is_assistant()
            &&& after.last().content == ContentView::Mixed(
                calls.update(j, answered(calls[j], result)),
            )
        }),
{
    reveal_strlit("assistant");
    reveal_strlit("user");
    assert(!cur.is_assistant()) by {
        assert("assistant"@[0] != "user"@[0]);
    }
    let calls = out.last().content->Mixed_0;
    let results = cur.content->Mixed_0;
    lemma_first_call(calls, id, 0);
    let j = first_call(calls, id, 0).unwrap();
    assert(calls[j].is_tool_use());
    assert(any_tool_use(calls));
    assert(all_tool_results(results));
    assert(answers_tools(out.last(), cur));
    assert(results.drop_last() =~= Seq::<BlockView>::empty());
    assert(attach_all(calls, results.drop_last()) == calls);
    assert(attach_all(calls, results) == attach(calls, results.last()));
    let after = absorbed(out, cur, provider_id);
    assert(after.subrange(0, out.len() - 1) =~= out.subrange(0, out.len() - 1));
}

/// `first_call` yields the first tool call with the id at or after `from`,
/// and nothing only where there is none.
pub proof fn lemma_first_call(blocks: Seq<BlockView>, id: Seq<char>, from: int)
    requires
        0 <= from,
    ensures
        match first_call(blocks, id, from) {
            Some(j) => from <= j < blocks.len() && is_call(blocks[j], id) && forall|k: int|
                from <= k < j ==> !is_call(#[trigger] blocks[k], id),
            None => forall|k: int| from <= k < blocks.len() ==> !is_call(#[trigger] blocks[k], id),
        },
    decreases blocks.len() - from,
{
    if from < blocks.len() && !is_call(blocks[from], id) {
        lemma_first_call(blocks, id, from + 1);
    }
}

/// Whether a message is the assistant's.
fn is_assistant(m: &ChatMessage) -> (r: bool)
    ensures
        r == m@.is_assistant(),
{
    same_text(m.message_type.as_str(), "assistant")
}

/// Whether a message is a user's.
fn is_user(m: &ChatMessage) -> (r: bool)
    ensures
        r == m@.is_user(),
{
    same_text(m.message_type.as_str(), "user")
}

/// Whether every block is a tool result, and there is at least one.
fn holds_only_tool_results(blocks: &Vec<ContentBlock>) -> (r: bool)
    ensures
        r == all_tool_results(block_views(blocks@)),
{
    if blocks.len() == 0 {
        return false;
    }
    let mut i: usize = 0;
    while i < blocks.len()
        invariant
            i <= blocks.len(),
            blocks.len() > 0,
            forall|k: int| 0 <= k < i ==> (#[trigger] blocks@[k])@.is_tool_result(),
        decreases blocks.len() - i,
    {
        if !blocks[i].is_tool_result() {
            assert(!block_views(blocks@)[i as int].is_tool_result());
            return false;
        }
        i += 1;
    }
    assert forall|k: int| 0 <= k < block_views(blocks@).len() implies (#[trigger] block_views(
        blocks@,
    )[k]).is_tool_result() by {
        assert(blocks@[k]@.is_tool_result());
    }
    true
}

/// The blocks with one result attached.
fn attach_result(blocks: &mut Vec<ContentBlock>, result: &ContentBlock)
    ensures
        block_views(final(blocks)@) == attach(block_views(old(blocks)@), result@),
{
    if !result.is_tool_result() {
        return ;
    }
    let id = match &result.tool_use_id {
        Some(id) => id,
        None => { return ; },
    };
    let ghost views = block_views(blocks@);
    let mut j: usize = 0;
    while j < blocks.len()
        invariant
            j <= blocks.len(),
            views == block_views(blocks@),
            blocks@ == old(blocks)@,
            result@.is_tool_result(),
            result@.tool_use_id == Some(id@),
            first_call(views, id@, 0) == first_call(views, id@, j as int),
        decreases blocks.len() - j,
    {
        let hit = blocks[j].is_tool_use() && match &blocks[j].tool_use_id {
            Some(own) => same_text(own.as_str(), id.as_str()),
            None => false,
        };
        assert(views[j as int] == blocks@[j as int]@);
        assert(hit == is_call(views[j as int], id@));
        if hit {
            let mut block = blocks[j].clone();
            block.content = copy_opt_text(&result.content);
            block.tool_use_result = copy_opt_json(&result.tool_use_result);
            blocks.set(j, block);
            assert(block_views(blocks@) =~= views.update(
                j as int,
                answered(views[j as int], result@),
            ));
            return ;
        }
        j += 1;
    }
}

impl ChatService {
    /// Whether `current_msg`, read from `raw_msg`, continues the last of
    /// `messages`.
    pub fn should_merge_by_message_id(
        &self,
        current_msg: &ChatMessage,
        raw_msg: &RawJsonlMessage,
        messages: &Vec<ChatMessage>,
    ) -> (r: bool)
        ensures
            r == (messages@.len() > 0 && continues(
                messages@.last()@,
                current_msg@,
                opt_text(raw_msg.message.id),
            )),
    {
        match &raw_msg.message.id {
            Some(message_id) => {
                if messages.len() == 0 {
                    return false;
                }
                let prev = &messages[messages.len() - 1];
                if is_assistant(prev) && is_assistant(current_msg) {
                    let id = chars_of(prev.uuid.as_str());
                    let suffix = chars_of(message_id.as_str());
                    ends_with(&id, &suffix)
                } else {
                    false
                }
            },
            None => false,
        }
    }

    /// Appends the content of `current_msg` to the last of `messages`.
    pub fn merge_with_previous_by_id(&self, current_msg: &ChatMessage, messages: &mut Vec<ChatMessage>)
        ensures
            message_views(final(messages)@) == if old(messages)@.len() > 0 {
                with_last_content(
                    message_views(old(messages)@),
                    appended(old(messages)@.last()@.content, current_msg@.content),
                )
            } else {
                message_views(old(messages)@)
            },
    {
        let prev = match messages.pop() {
            Some(prev) => prev,
            None => { return ; },
        };
        let ghost before = prev@;
        let ChatMessage {
            uuid,
            parent_uuid,
            timestamp,
            message_type,
            content,
            tool_use_id,
            cwd,
            version,
            model,
        } = prev;
        let mut blocks: Vec<ContentBlock> = match content {
            MessageContent::Text(text) => {
                let mut blocks: Vec<ContentBlock> = Vec::new();
                blocks.push(ContentBlock::plain(text));
                assert(block_views(blocks@) =~= seq![BlockView::plain(text@)]);
                blocks
            },
            MessageContent::Mixed(blocks) => blocks,
        };
        assert(block_views(blocks@) == as_blocks(before.content));
        match &current_msg.content {
            MessageContent::Mixed(current_blocks) => {
                append_blocks(&mut blocks, current_blocks);
            },
            MessageContent::Text(text) => {
                let ghost views = block_views(blocks@);
                blocks.push(ContentBlock::plain(text.clone()));
                assert(block_views(blocks@) =~= views + seq![BlockView::plain(text@)]);
            },
        }
        let merged = MessageContent::Mixed(blocks);
        proof {
            lemma_appended_keeps_all(before.content, current_msg@.content);
        }
        assert(merged@ == appended(before.content, current_msg@.content));
        let ghost rest = messages@;
        messages.push(
            ChatMessage {
                uuid,
                parent_uuid,
                timestamp,
                message_type,
                content: merged,
                tool_use_id,
                cwd,
                version,
                model,
            },
        );
        assert(message_views(messages@) =~= with_last_content(
            message_views(old(messages)@),
            appended(before.content, current_msg@.content),
        ));
    }

    /// Whether `current_msg` answers the tool calls of the last of `messages`.
    pub fn should_merge_tool_results_with_assistant(
        &self,
        current_msg: &ChatMessage,
        messages: &Vec<ChatMessage>,
    ) -> (r: bool)
        ensures
            r == (messages@.len() > 0 && answers_tools(messages@.last()@, current_msg@)),
    {
        if !is_user(current_msg) {
            return false;
        }
        let only_results = match &current_msg.content {
            MessageContent::Mixed(blocks) => holds_only_tool_results(blocks),
            MessageContent::Text(_) => false,
        };
        if !only_results {
            return false;
        }
        if messages.len() == 0 {
            return false;
        }
        let prev = &messages[messages.len() - 1];
        is_assistant(prev) && prev.has_tool_calls()
    }

    /// Writes the tool results of `current_msg` into the tool calls of the last
    /// of `messages`.
    pub fn merge_tool_results_with_assistant(
        &self,
        current_msg: &ChatMessage,
        messages: &mut Vec<ChatMessage>,
    )
        ensures
            message_views(final(messages)@) == if old(messages)@.len() > 0 {
                with_last_content(
                    message_views(old(messages)@),
                    paired(old(messages)@.last()@.content, current_msg@.content),
                )
            } else {
                message_views(old(messages)@)
            },
    {
        let prev = match messages.pop() {
            Some(prev) => prev,
            None => { return ; },
        };
        let ghost before = prev@;
        let ChatMessage {
            uuid,
            parent_uuid,
            timestamp,
            message_type,
            content,
            tool_use_id,
            cwd,
            version,
            model,
        } = prev;
        let merged = match content {
            MessageContent::Mixed(mut blocks) => match &current_msg.content {
                MessageContent::Mixed(results) => {
                    let ghost calls = block_views(blocks@);
                    let mut i: usize = 0;
                    while i < results.len()
                        invariant
                            i <= results.len(),
                            block_views(blocks@) == attach_all(
                                calls,
                                block_views(results@).take(i as int),
                            ),
                        decreases results.len() - i,
                    {
                        proof {
                            let now = block_views(results@).take(i + 1);
                            assert(now.drop_last() =~= block_views(results@).take(i as int));
                            assert(now.last() == results@[i as int]@);
                        }
                        attach_result(&mut blocks, &results[i]);
                        i += 1;
                    }
                    assert(block_views(results@).take(results@.len() as int) =~= block_views(
                        results@,
                    ));
                    MessageContent::Mixed(blocks)
                },
                MessageContent::Text(_) => MessageContent::Mixed(blocks),
            },
            MessageContent::Text(text) => MessageContent::Text(text),
        };
        assert(merged@ == paired(before.content, current_msg@.content));
        messages.push(
            ChatMessage {
                uuid,
                parent_uuid,
                timestamp,
                message_type,
                content: merged,
                tool_use_id,
                cwd,
                version,
                model,
            },
        );
        assert(message_views(messages@) =~= with_last_content(
            message_views(old(messages)@),
            paired(before.content, current_msg@.content),
        ));
    }

    /// Takes one more message into the conversation.
    pub fn absorb(
        &self,
        current_msg: ChatMessage,
        raw_msg: &RawJsonlMessage,
        messages: &mut Vec<ChatMessage>,
    )
        ensures
            message_views(final(messages)@) == absorbed(
                message_views(old(messages)@),
                current_msg@,
                opt_text(raw_msg.message.id),
            ),
    {
        proof {
            if messages@.len() > 0 {
                assert(message_views(messages@).last() == messages@.last()@);
            }
        }
        if self.should_merge_by_message_id(&current_msg, raw_msg, messages) {
            self.merge_with_previous_by_id(&current_msg, messages);
        } else if self.should_merge_tool_results_with_assistant(&current_msg, messages) {
            self.merge_tool_results_with_assistant(&current_msg, messages);
        } else {
            let ghost views = message_views(messages@);
            messages.push(current_msg);
            assert(message_views(messages@) =~= views.push(current_msg@));
        }
    }

    /// The conversation that a log file holds.
    pub fn parse_messages_from_file(&self, file: &SessionFile) -> (r: Vec<ChatMessage>)
        ensures
            message_views(r@) == reconstructed(file@.lines),
    {
        let mut messages: Vec<ChatMessage> = Vec::new();
        let mut i: usize = 0;
        assert(file@.lines.take(0) =~= Seq::<Seq<char>>::empty());
        assert(message_views(messages@) =~= Seq::<MessageView>::empty());
        while i < file.lines.len()
            invariant
                i <= file.lines.len(),
                message_views(messages@) == reconstructed(file@.lines.take(i as int)),
            decreases file.lines.len() - i,
        {
            proof {
                let now = file@.lines.take(i + 1);
                assert(now.drop_last() =~= file@.lines.take(i as int));
                assert(now.last() == file.lines@[i as int]@);
            }
            match self.parse_line(file.lines[i].as_str()) {
                Some(raw_msg) => {
                    if same_text(raw_msg.message_type.as_str(), "user") || same_text(
                        raw_msg.message_type.as_str(),
                        "assistant",
                    ) {
                        let chat_msg = self.convert_raw_to_chat_message(&raw_msg);
                        self.absorb(chat_msg, &raw_msg, &mut messages);
                    }
                },
                None => {},
            }
            i += 1;
        }
        assert(file@.lines.take(file@.lines.len() as int) =~= file@.lines);
        messages
    }
}

/// Appends copies of `more` to `blocks`.
fn append_blocks(blocks: &mut Vec<ContentBlock>, more: &Vec<ContentBlock>)
    ensures
        block_views(final(blocks)@) == block_views(old(blocks)@) + block_views(more@),
{
    let ghost start = block_views(blocks@);
    let mut extra = copy_blocks(more);
    blocks.append(&mut extra);
    assert(block_views(blocks@) =~= start + block_views(more@)) by {
        assert(block_views(extra@).len() == 0);
    }
}

} // verus!

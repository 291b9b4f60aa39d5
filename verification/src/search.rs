//! The search engine: a case-insensitive scan of raw log lines that reports
//! every field in which the query occurs, with a snippet of it, and ranks the
//! matches by the kind of field.

use crate::chat_service::{dir_views, ChatService, DirView, FileView, ProjectDir, SessionFile};
use crate::json::{decode, encode, encoded, parsed, JsonModel};
use crate::reconstruct::in_conversation;
use crate::records::{
    is_summary_entry, is_summary_line, message_content_of, record_of, summary_line,
};
use crate::text::{
    chars_of, contains, contains_text, find, find_from, first_match, first_match_from, is_blank,
    lemma_first_match_from, lower_len, lowercase, lowered, lowered_char, matches_at, same_text,
    slice, string_of, trimmed,
};
use crate::types::{
    block_views, opt_text, result_views, BlockView, ContentBlock, ContentView, MessageContent,
    RecordView, ResultView, SearchResult,
};
use vstd::prelude::*;

verus! {

/// The mark that stands where a snippet leaves text out.
pub open spec fn dots() -> Seq<char> {
    seq!['.', '.', '.']
}

/// The length of the lowercase form of the first `n` characters of a text,
/// taken character by character.
pub open spec fn lower_width(text: Seq<char>, n: int) -> int
    decreases n,
{
    if n <= 0 || n > text.len() {
        0
    } else {
        lower_width(text, n - 1) + lowered_char(text[n - 1]).len()
    }
}

/// The position, at or after `from`, of the character whose lowercase form
/// covers position `at` of the lowercase text; the length where none does.
pub open spec fn covering(text: Seq<char>, at: int, from: int) -> int
    decreases text.len() - from,
{
    if from < 0 || from >= text.len() {
        text.len() as int
    } else if lower_width(text, from + 1) > at {
        from
    } else {
        covering(text, at, from + 1)
    }
}

/// The least number of characters, at least `from`, whose lowercase forms
/// reach position `to` of the lowercase text; the length where none does.
pub open spec fn reaching(text: Seq<char>, to: int, from: int) -> int
    decreases text.len() - from,
{
    if from < 0 || from >= text.len() {
        text.len() as int
    } else if lower_width(text, from) >= to {
        from
    } else {
        reaching(text, to, from + 1)
    }
}

/// The characters of a text that a match in its lowercase form comes from: the
/// match of `len` characters at position `at` of the lowercase text stems from
/// the characters from the first to the second position given.
pub open spec fn matched_in(text: Seq<char>, at: int, len: int) -> (int, int) {
    let first = covering(text, at, 0);
    (first, reaching(text, at + len, first))
}

/// The snippet round the characters from `from` to `to`: those characters with
/// up to 30 characters before them and up to 30 behind them, and dots on each
/// side on which text is left out.
pub open spec fn cut_round(text: Seq<char>, from: int, to: int) -> Seq<char> {
    let start = if from > 30 {
        from - 30
    } else {
        0
    };
    let end = if to + 30 < text.len() {
        to + 30
    } else {
        text.len() as int
    };
    let lead = if start > 0 {
        dots()
    } else {
        Seq::empty()
    };
    let trail = if end < text.len() {
        dots()
    } else {
        Seq::empty()
    };
    lead + text.subrange(start, end) + trail
}

/// The snippet of `text` for a query, where `lower` is the lowercase form of
/// the text. The query is looked for in `lower`; the snippet is cut round the
/// characters of `text` that the first match stems from. Without a match the
/// snippet is the first 60 characters.
pub open spec fn snippet_of(text: Seq<char>, lower: Seq<char>, query: Seq<char>) -> Seq<char> {
    match first_match(lower, query) {
        Some(at) => {
            let found = matched_in(text, at, query.len() as int);
            cut_round(text, found.0, found.1)
        },
        None => if text.len() > 60 {
            text.subrange(0, 60) + dots()
        } else {
            text
        },
    }
}

/// `covering` lies within the text, at or after `from`.
pub proof fn lemma_covering(text: Seq<char>, at: int, from: int)
    requires
        0 <= from <= text.len(),
    ensures
        from <= covering(text, at, from) <= text.len(),
    decreases text.len() - from,
{
    if from < text.len() && lower_width(text, from + 1) <= at {
        lemma_covering(text, at, from + 1);
    }
}

/// `reaching` lies within the text, at or after `from`.
pub proof fn lemma_reaching(text: Seq<char>, to: int, from: int)
    requires
        0 <= from <= text.len(),
    ensures
        from <= reaching(text, to, from) <= text.len(),
    decreases text.len() - from,
{
    if from < text.len() && lower_width(text, from) < to {
        lemma_reaching(text, to, from + 1);
    }
}

/// A snippet holds the characters it is cut round.
pub proof fn lemma_cut_holds_range(text: Seq<char>, from: int, to: int)
    requires
        0 <= from <= to <= text.len(),
    ensures
        contains_text(cut_round(text, from, to), text.subrange(from, to)),
{
    let start = if from > 30 {
        from - 30
    } else {
        0
    };
    let lead: int = if start > 0 {
        3
    } else {
        0
    };
    let cut = cut_round(text, from, to);
    let at = lead + (from - start);
    assert(cut.subrange(at, at + (to - from)) =~= text.subrange(from, to));
    assert(matches_at(cut, text.subrange(from, to), at));
}

/// The snippet of a match holds the characters that the match stems from.
pub proof fn lemma_snippet_holds_match(text: Seq<char>, lower: Seq<char>, query: Seq<char>)
    requires
        first_match(lower, query) is Some,
    ensures
        ({
            let found = matched_in(text, first_match(lower, query).unwrap(), query.len() as int);
            &&& 0 <= found.0 <= found.1 <= text.len()
            &&& contains_text(snippet_of(text, lower, query), text.subrange(found.0, found.1))
        }),
{
    let at = first_match(lower, query).unwrap();
    lemma_first_match_from(lower, query, 0);
    lemma_covering(text, at, 0);
    let first = covering(text, at, 0);
    lemma_reaching(text, at + query.len(), first);
    lemma_cut_holds_range(text, first, reaching(text, at + query.len(), first));
}

/// Where every character up to `n` has a lowercase form of one character, the
/// lowercase form of the first `n` characters has `n` characters.
pub proof fn lemma_even_width(text: Seq<char>, n: int)
    requires
        0 <= n <= text.len(),
        forall|i: int| 0 <= i < n ==> (#[trigger] lowered_char(text[i])).len() == 1,
    ensures
        lower_width(text, n) == n,
    decreases n,
{
    if n > 0 {
        lemma_even_width(text, n - 1);
    }
}

/// Where every character up to `n` has a lowercase form of one character, a
/// position before `n` of the lowercase text is covered by the character at
/// that position.
pub proof fn lemma_even_covering(text: Seq<char>, n: int, at: int, from: int)
    requires
        0 <= from <= at < n <= text.len(),
        forall|i: int| 0 <= i < n ==> (#[trigger] lowered_char(text[i])).len() == 1,
    ensures
        covering(text, at, from) == at,
    decreases at - from,
{
    lemma_even_width(text, from + 1);
    if from < at {
        lemma_even_covering(text, n, at, from + 1);
    }
}

/// Where every character up to `n` has a lowercase form of one character, a
/// position up to `n` of the lowercase text is reached by as many characters.
pub proof fn lemma_even_reaching(text: Seq<char>, n: int, to: int, from: int)
    requires
        0 <= from <= to <= n <= text.len(),
        forall|i: int| 0 <= i < n ==> (#[trigger] lowered_char(text[i])).len() == 1,
    ensures
        reaching(text, to, from) == to,
    decreases to - from,
{
    lemma_even_width(text, from);
    if from < to {
        lemma_even_reaching(text, n, to, from + 1);
    }
}

/// A match in the interior of a text gives a snippet centred on it: where the
/// characters up to the end of the match keep their number in lowercase, more
/// than 30 characters stand before the match and more than 30 behind it, the
/// snippet is the match with 30 characters on each side, between dots.
pub proof fn lemma_interior_snippet(text: Seq<char>, lower: Seq<char>, query: Seq<char>, pos: int)
    requires
        first_match(lower, query) == Some(pos),
        query.len() > 0,
        pos > 30,
        pos + query.len() + 30 < text.len(),
        forall|i: int|
            0 <= i < pos + query.len() ==> (#[trigger] lowered_char(text[i])).len() == 1,
    ensures
        snippet_of(text, lower, query) == dots() + text.subrange(pos - 30, pos + query.len() + 30)
            + dots(),
        snippet_of(text, lower, query).len() == query.len() + 66,
{
    let n = pos + query.len();
    lemma_even_covering(text, n, pos, 0);
    lemma_even_reaching(text, n, n, pos);
}

/// The key under which a line names its session.
pub open spec fn session_id_key() -> Seq<char> {
    "\"sessionId\":\""@
}

/// The session id that a line names: the text between the first occurrence of
/// the key and the next double quote. Nothing where either is missing.
pub open spec fn session_id_in(line: Seq<char>) -> Option<Seq<char>> {
    match first_match(line, session_id_key()) {
        Some(pos) => {
            let start = pos + session_id_key().len();
            match first_match_from(line, seq!['"'], start) {
                Some(end) => Some(line.subrange(start, end)),
                None => None,
            }
        },
        None => None,
    }
}

/// A match of a query in a field of a message.
pub open spec fn hit(
    session_id: Seq<char>,
    message_uuid: Seq<char>,
    snippet: Seq<char>,
    match_type: Seq<char>,
) -> ResultView {
    ResultView { session_id, message_uuid, snippet, match_type }
}

/// Whether the query occurs in the text, letter case aside.
pub open spec fn mentions(text: Seq<char>, query: Seq<char>) -> bool {
    contains_text(lowered(text), query)
}

/// The match that a text field gives, if the query occurs in it.
pub open spec fn field_hits(
    field: Option<Seq<char>>,
    kind: Seq<char>,
    session_id: Seq<char>,
    message_uuid: Seq<char>,
    query: Seq<char>,
) -> Seq<ResultView> {
    match field {
        Some(text) => if mentions(text, query) {
            seq![hit(session_id, message_uuid, snippet_of(text, lowered(text), query), kind)]
        } else {
            Seq::empty()
        },
        None => Seq::empty(),
    }
}

/// The match that a tool's name gives, if the query occurs in it.
pub open spec fn name_hits(
    name: Option<Seq<char>>,
    session_id: Seq<char>,
    message_uuid: Seq<char>,
    query: Seq<char>,
) -> Seq<ResultView> {
    match name {
        Some(name) => if mentions(name, query) {
            seq![hit(session_id, message_uuid, "Tool: "@ + name, "tool_name"@)]
        } else {
            Seq::empty()
        },
        None => Seq::empty(),
    }
}

/// The JSON text of a document that may be absent.
pub open spec fn opt_encoded(m: Option<JsonModel>) -> Option<Seq<char>> {
    match m {
        Some(m) => Some(encoded(m)),
        None => None,
    }
}

/// The matches that one block gives: its text, its thinking, its tool name, its
/// tool input as JSON text, its tool result, and its structured tool result as
/// JSON text, in this order, each where the query occurs in it.
pub open spec fn block_hits(
    b: BlockView,
    session_id: Seq<char>,
    message_uuid: Seq<char>,
    query: Seq<char>,
) -> Seq<ResultView> {
    field_hits(b.text, "content"@, session_id, message_uuid, query) + field_hits(
        b.thinking,
        "thinking"@,
        session_id,
        message_uuid,
        query,
    ) + name_hits(b.name, session_id, message_uuid, query) + field_hits(
        opt_encoded(b.input),
        "tool_input"@,
        session_id,
        message_uuid,
        query,
    ) + field_hits(b.content, "tool_result"@, session_id, message_uuid, query) + field_hits(
        opt_encoded(b.tool_use_result),
        "tool_structured_result"@,
        session_id,
        message_uuid,
        query,
    )
}

/// The matches that a sequence of blocks gives, block by block.
pub open spec fn blocks_hits(
    blocks: Seq<BlockView>,
    session_id: Seq<char>,
    message_uuid: Seq<char>,
    query: Seq<char>,
) -> Seq<ResultView>
    decreases blocks.len(),
{
    if blocks.len() == 0 {
        Seq::empty()
    } else {
        blocks_hits(blocks.drop_last(), session_id, message_uuid, query) + block_hits(
            blocks.last(),
            session_id,
            message_uuid,
            query,
        )
    }
}

/// The matches that the content of a message gives.
pub open spec fn content_hits(
    content: ContentView,
    session_id: Seq<char>,
    message_uuid: Seq<char>,
    query: Seq<char>,
) -> Seq<ResultView> {
    match content {
        ContentView::Text(text) => field_hits(
            Some(text),
            "content"@,
            session_id,
            message_uuid,
            query,
        ),
        ContentView::Mixed(blocks) => blocks_hits(blocks, session_id, message_uuid, query),
    }
}

/// What a search of a file knows so far: the session that the file belongs to,
/// once a line has named it, and the matches found.
pub struct SearchState {
    pub session: Option<Seq<char>>,
    pub results: Seq<ResultView>,
}

/// The record that a line decodes to.
pub open spec fn decoded_record(line: Seq<char>) -> Option<RecordView> {
    match parsed(line) {
        Some(m) => record_of(m),
        None => None,
    }
}

/// The search once a line that mentions the query is decoded to a record. The
/// record names the session if no line has done so before; a record of the
/// conversation adds the matches of the content of its message, which holds
/// the record's structured tool result on its tool results.
pub open spec fn record_searched(state: SearchState, r: RecordView, query: Seq<char>) -> SearchState {
    let session_id = match state.session {
        Some(known) => known,
        None => r.session_id,
    };
    SearchState {
        session: Some(session_id),
        results: if in_conversation(r) {
            state.results + content_hits(message_content_of(r), session_id, r.uuid, query)
        } else {
            state.results
        },
    }
}

/// The search once one more line is read. A blank line and a summary entry
/// are passed over. A line that does not mention the query only serves to name
/// the session. Any other line is decoded, and passed over where it is no
/// record.
pub open spec fn line_searched(state: SearchState, line: Seq<char>, query: Seq<char>) -> SearchState {
    if trimmed(line).len() == 0 {
        state
    } else if summary_line(line) {
        state
    } else if !mentions(line, query) {
        SearchState {
            session: if state.session is None {
                session_id_in(line)
            } else {
                state.session
            },
            results: state.results,
        }
    } else {
        match decoded_record(line) {
            Some(r) => record_searched(state, r, query),
            None => state,
        }
    }
}

/// The search of the lines of a file.
pub open spec fn lines_searched(lines: Seq<Seq<char>>, query: Seq<char>) -> SearchState
    decreases lines.len(),
{
    if lines.len() == 0 {
        SearchState { session: None, results: Seq::empty() }
    } else {
        line_searched(lines_searched(lines.drop_last(), query), lines.last(), query)
    }
}

/// The matches that a file gives to a search: those found in its lines, and
/// none where the file was not read to its end.
pub open spec fn file_hits(file: FileView, query: Seq<char>) -> Seq<ResultView> {
    if file.complete {
        lines_searched(file.lines, query).results
    } else {
        Seq::empty()
    }
}

/// The matches found in the files of a project, file by file.
pub open spec fn files_hits(files: Seq<FileView>, query: Seq<char>) -> Seq<ResultView>
    decreases files.len(),
{
    if files.len() == 0 {
        Seq::empty()
    } else {
        files_hits(files.drop_last(), query) + file_hits(files.last(), query)
    }
}

/// The matches found in all projects, project by project.
pub open spec fn dirs_hits(dirs: Seq<DirView>, query: Seq<char>) -> Seq<ResultView>
    decreases dirs.len(),
{
    if dirs.len() == 0 {
        Seq::empty()
    } else {
        dirs_hits(dirs.drop_last(), query) + files_hits(dirs.last().files, query)
    }
}

/// The rank of a kind of match: content first, then thinking, tool name, tool
/// input and tool result; every other kind comes last.
pub open spec fn priority(kind: Seq<char>) -> int {
    if kind == "content"@ {
        0
    } else if kind == "thinking"@ {
        1
    } else if kind == "tool_name"@ {
        2
    } else if kind == "tool_input"@ {
        3
    } else if kind == "tool_result"@ {
        4
    } else {
        5
    }
}

/// The matches of one rank, in order.
pub open spec fn of_priority(s: Seq<ResultView>, p: int) -> Seq<ResultView>
    decreases s.len(),
{
    if s.len() == 0 {
        Seq::empty()
    } else if priority(s.last().match_type) == p {
        of_priority(s.drop_last(), p).push(s.last())
    } else {
        of_priority(s.drop_last(), p)
    }
}

/// The matches ranked: rank by rank, and within a rank in the order in which
/// they were found.
pub open spec fn ranked(s: Seq<ResultView>) -> Seq<ResultView> {
    of_priority(s, 0) + of_priority(s, 1) + of_priority(s, 2) + of_priority(s, 3) + of_priority(
        s,
        4,
    ) + of_priority(s, 5)
}

/// No match stands before one of a better rank.
pub open spec fn is_ranked(s: Seq<ResultView>) -> bool {
    forall|i: int, j: int|
        0 <= i < j < s.len() ==> priority((#[trigger] s[i]).match_type) <= priority(
            (#[trigger] s[j]).match_type,
        )
}

/// Every match among those of a rank has that rank.
pub proof fn lemma_of_priority(s: Seq<ResultView>, p: int)
    ensures
        forall|k: int|
            0 <= k < of_priority(s, p).len() ==> priority(
                (#[trigger] of_priority(s, p)[k]).match_type,
            ) == p,
    decreases s.len(),
{
    if s.len() > 0 {
        lemma_of_priority(s.drop_last(), p);
        let before = of_priority(s.drop_last(), p);
        assert forall|k: int| 0 <= k < of_priority(s, p).len() implies priority(
            (#[trigger] of_priority(s, p)[k]).match_type,
        ) == p by {
            if k < before.len() {
                assert(of_priority(s, p)[k] == before[k]);
            }
        }
    }
}

/// Ranked matches are in the order of their ranks.
pub proof fn lemma_ranked_is_ranked(s: Seq<ResultView>)
    ensures
        is_ranked(ranked(s)),
{
    lemma_of_priority(s, 0);
    lemma_of_priority(s, 1);
    lemma_of_priority(s, 2);
    lemma_of_priority(s, 3);
    lemma_of_priority(s, 4);
    lemma_of_priority(s, 5);
    let r = ranked(s);
    let a0 = of_priority(s, 0);
    let a1 = a0 + of_priority(s, 1);
    let a2 = a1 + of_priority(s, 2);
    let a3 = a2 + of_priority(s, 3);
    let a4 = a3 + of_priority(s, 4);
    assert forall|k: int| 0 <= k < r.len() implies priority((#[trigger] r[k]).match_type) == (if k
        < a0.len() {
        0int
    } else if k < a1.len() {
        1
    } else if k < a2.len() {
        2
    } else if k < a3.len() {
        3
    } else if k < a4.len() {
        4
    } else {
        5
    }) by {
        if k < a0.len() {
            assert(r[k] == of_priority(s, 0)[k]);
        } else if k < a1.len() {
            assert(r[k] == of_priority(s, 1)[k - a0.len()]);
        } else if k < a2.len() {
            assert(r[k] == of_priority(s, 2)[k - a1.len()]);
        } else if k < a3.len() {
            assert(r[k] == of_priority(s, 3)[k - a2.len()]);
        } else if k < a4.len() {
            assert(r[k] == of_priority(s, 4)[k - a3.len()]);
        } else {
            assert(r[k] == of_priority(s, 5)[k - a4.len()]);
        }
    }
}

/// A match in a message's content stands before every match in a tool's
/// result, whatever the order in which the two were found.
pub proof fn lemma_content_before_tool_result(s: Seq<ResultView>, i: int, j: int)
    requires
        0 <= i < ranked(s).len(),
        0 <= j < ranked(s).len(),
        ranked(s)[i].match_type == "content"@,
        ranked(s)[j].match_type == "tool_result"@,
    ensures
        i < j,
{
    reveal_strlit("content");
    reveal_strlit("tool_result");
    reveal_strlit("thinking");
    reveal_strlit("tool_name");
    reveal_strlit("tool_input");
    lemma_ranked_is_ranked(s);
    assert("content"@.len() != "tool_result"@.len());
    assert("thinking"@.len() != "tool_result"@.len());
    assert("tool_name"@.len() != "tool_result"@.len());
    assert("tool_input"@.len() != "tool_result"@.len());
    assert(priority("tool_result"@) == 4);
    assert(priority("content"@) == 0);
    if j <= i {
        if j < i {
            assert(priority(ranked(s)[j].match_type) <= priority(ranked(s)[i].match_type));
        }
    }
}

/// The characters of a text that a match in its lowercase form comes from.
pub fn matched_range(text: &Vec<char>, at: usize, len: usize) -> (r: (usize, usize))
    requires
        at + len <= usize::MAX,
    ensures
        (r.0 as int, r.1 as int) == matched_in(text@, at as int, len as int),
        r.0 <= r.1 <= text.len(),
{
    let to: usize = at + len;
    let mut width: usize = 0;
    let mut first: usize = 0;
    let mut covered: bool = false;
    while first < text.len() && !covered
        invariant
            first <= text.len(),
            width == lower_width(text@, first as int),
            width <= at,
            covering(text@, at as int, 0) == covering(text@, at as int, first as int),
            covered ==> first < text.len() && lower_width(text@, first + 1) > at,
        decreases text.len() - first, !covered as int,
    {
        let step = lower_len(text[first]);
        if step > at - width {
            covered = true;
        } else {
            width += step;
            first += 1;
        }
    }
    assert(first == covering(text@, at as int, 0));
    let mut last: usize = first;
    while last < text.len() && width < to
        invariant
            first <= last <= text.len(),
            first == covering(text@, at as int, 0),
            to == at + len,
            width == lower_width(text@, last as int),
            reaching(text@, to as int, first as int) == reaching(text@, to as int, last as int),
        decreases text.len() - last,
    {
        let step = lower_len(text[last]);
        if step >= to - width {
            assert(lower_width(text@, last + 1) >= to);
            assert(reaching(text@, to as int, last as int) == reaching(text@, to as int, last + 1));
            assert(reaching(text@, to as int, last + 1) == last + 1);
            return (first, last + 1);
        }
        width += step;
        last += 1;
    }
    assert(reaching(text@, to as int, last as int) == last);
    (first, last)
}

/// The snippet round the characters from `from` to `to`.
pub fn cut(text: &Vec<char>, from: usize, to: usize) -> (r: Vec<char>)
    requires
        from <= to <= text.len(),
    ensures
        r@ == cut_round(text@, from as int, to as int),
{
    let start: usize = if from > 30 {
        from - 30
    } else {
        0
    };
    let end: usize = if text.len() - to > 30 {
        to + 30
    } else {
        text.len()
    };
    let mut out: Vec<char> = Vec::new();
    if start > 0 {
        push_dots(&mut out);
    }
    let mut body = slice(text, start, end);
    out.append(&mut body);
    if end < text.len() {
        push_dots(&mut out);
    }
    assert(out@ =~= cut_round(text@, from as int, to as int));
    out
}

/// The snippet of `text` for a query, where `lower` is the lowercase form of
/// the text.
pub fn snippet(text: &Vec<char>, lower: &Vec<char>, query: &Vec<char>) -> (r: Vec<char>)
    ensures
        r@ == snippet_of(text@, lower@, query@),
{
    match find(lower, query) {
        Some(at) => {
            proof {
                lemma_first_match_from(lower@, query@, 0);
                assert(matches_at(lower@, query@, at as int));
                assert(at + query@.len() <= lower@.len() == lower.len());
            }
            let (from, to) = matched_range(text, at, query.len());
            cut(text, from, to)
        },
        None => {
            if text.len() > 60 {
                let mut out = slice(text, 0, 60);
                push_dots(&mut out);
                out
            } else {
                let out = slice(text, 0, text.len());
                assert(text@.subrange(0, text@.len() as int) =~= text@);
                out
            }
        },
    }
}

/// Appends the mark for text left out.
fn push_dots(out: &mut Vec<char>)
    ensures
        final(out)@ == old(out)@ + dots(),
{
    out.push('.');
    out.push('.');
    out.push('.');
    assert(out@ =~= old(out)@ + dots());
}

/// Whether the query occurs in the text, letter case aside.
fn mentioned(text: &str, query: &Vec<char>) -> (r: bool)
    ensures
        r == mentions(text@, query@),
{
    let lower = lowercase(text);
    let chars = chars_of(lower.as_str());
    contains(&chars, query)
}

/// A match of a query in a field of a message.
fn new_hit(session_id: &str, message_uuid: &str, snippet: String, kind: &str) -> (r: SearchResult)
    ensures
        r@ == hit(session_id@, message_uuid@, snippet@, kind@),
{
    SearchResult {
        session_id: session_id.to_owned(),
        message_uuid: message_uuid.to_owned(),
        snippet,
        match_type: kind.to_owned(),
    }
}

impl Clone for SearchResult {
    fn clone(&self) -> (r: Self)
        ensures
            r@ == self@,
    {
        SearchResult {
            session_id: self.session_id.clone(),
            message_uuid: self.message_uuid.clone(),
            snippet: self.snippet.clone(),
            match_type: self.match_type.clone(),
        }
    }
}

impl ChatService {
    /// The session id that a line names, found without decoding the line.
    pub fn extract_session_id_fast(&self, line: &str) -> (r: Option<String>)
        ensures
            opt_text(r) == session_id_in(line@),
    {
        let chars = chars_of(line);
        let key = chars_of("\"sessionId\":\"");
        match find(&chars, &key) {
            Some(pos) => {
                proof {
                    lemma_first_match_from(chars@, key@, 0);
                    assert(matches_at(chars@, key@, pos as int));
                    assert(pos + key@.len() <= chars@.len() == chars.len());
                }
                let start: usize = pos + key.len();
                let mut quote: Vec<char> = Vec::new();
                quote.push('"');
                assert(quote@ =~= seq!['"']);
                match find_from(&chars, &quote, start) {
                    Some(end) => {
                        proof {
                            lemma_first_match_from(chars@, quote@, start as int);
                        }
                        let id = slice(&chars, start, end);
                        Some(string_of(&id))
                    },
                    None => None,
                }
            },
            None => None,
        }
    }

    /// A snippet of `text` round the first place at which `query` occurs in
    /// its lowercase form.
    pub fn create_snippet(&self, text: &str, query: &str) -> (r: String)
        ensures
            r@ == snippet_of(text@, lowered(text@), query@),
    {
        let lower = lowercase(text);
        let out = snippet(&chars_of(text), &chars_of(lower.as_str()), &chars_of(query));
        string_of(&out)
    }

    /// Adds the match that a text field gives, if the query occurs in it.
    fn search_field(
        &self,
        field: &Option<String>,
        kind: &str,
        session_id: &str,
        message_uuid: &str,
        query_lower: &str,
        results: &mut Vec<SearchResult>,
    )
        ensures
            result_views(final(results)@) == result_views(old(results)@) + field_hits(
                opt_text(*field),
                kind@,
                session_id@,
                message_uuid@,
                query_lower@,
            ),
    {
        let ghost before = result_views(results@);
        match field {
            Some(text) => {
                if mentioned(text.as_str(), &chars_of(query_lower)) {
                    let snippet = self.create_snippet(text.as_str(), query_lower);
                    let found = new_hit(session_id, message_uuid, snippet, kind);
                    results.push(found);
                    assert(result_views(results@) =~= before + seq![found@]);
                } else {
                    assert(result_views(results@) =~= before + Seq::<ResultView>::empty());
                }
            },
            None => {
                assert(result_views(results@) =~= before + Seq::<ResultView>::empty());
            },
        }
    }

    /// Adds the matches that one block gives.
    pub fn search_block(
        &self,
        block: &ContentBlock,
        session_id: &str,
        message_uuid: &str,
        query_lower: &str,
        results: &mut Vec<SearchResult>,
    )
        ensures
            result_views(final(results)@) == result_views(old(results)@) + block_hits(
                block@,
                session_id@,
                message_uuid@,
                query_lower@,
            ),
    {
        let ghost before = result_views(results@);
        let ghost b = block@;
        let ghost s = session_id@;
        let ghost u = message_uuid@;
        let ghost q = query_lower@;
        self.search_field(&block.text, "content", session_id, message_uuid, query_lower, results);
        self.search_field(
            &block.thinking,
            "thinking",
            session_id,
            message_uuid,
            query_lower,
            results,
        );
        let ghost mid = result_views(results@);
        match &block.name {
            Some(name) => {
                if mentioned(name.as_str(), &chars_of(query_lower)) {
                    let mut label = "Tool: ".to_owned();
                    label.append(name.as_str());
                    let found = new_hit(session_id, message_uuid, label, "tool_name");
                    results.push(found);
                    assert(result_views(results@) =~= mid + seq![found@]);
                } else {
                    assert(result_views(results@) =~= mid + Seq::<ResultView>::empty());
                }
            },
            None => {
                assert(result_views(results@) =~= mid + Seq::<ResultView>::empty());
            },
        }
        assert(result_views(results@) == mid + name_hits(b.name, s, u, q));
        let input_text = match &block.input {
            Some(input) => Some(encode(input)),
            None => None,
        };
        self.search_field(
            &input_text,
            "tool_input",
            session_id,
            message_uuid,
            query_lower,
            results,
        );
        self.search_field(
            &block.content,
            "tool_result",
            session_id,
            message_uuid,
            query_lower,
            results,
        );
        let result_text = match &block.tool_use_result {
            Some(result) => Some(encode(result)),
            None => None,
        };
        self.search_field(
            &result_text,
            "tool_structured_result",
            session_id,
            message_uuid,
            query_lower,
            results,
        );
        assert(result_views(results@) =~= before + block_hits(b, s, u, q));
    }

    /// Adds the matches that the content of a message gives.
    pub fn search_content(
        &self,
        content: &MessageContent,
        session_id: &str,
        message_uuid: &str,
        query_lower: &str,
        results: &mut Vec<SearchResult>,
    )
        ensures
            result_views(final(results)@) == result_views(old(results)@) + content_hits(
                content@,
                session_id@,
                message_uuid@,
                query_lower@,
            ),
    {
        let ghost before = result_views(results@);
        match content {
            MessageContent::Text(text) => {
                let field = Some(text.clone());
                self.search_field(
                    &field,
                    "content",
                    session_id,
                    message_uuid,
                    query_lower,
                    results,
                );
            },
            MessageContent::Mixed(blocks) => {
                let ghost views = block_views(blocks@);
                let mut k: usize = 0;
                assert(views.take(0) =~= Seq::<BlockView>::empty());
                assert(result_views(results@) =~= before + Seq::<ResultView>::empty());
                while k < blocks.len()
                    invariant
                        k <= blocks.len(),
                        views == block_views(blocks@),
                        result_views(results@) == before + blocks_hits(
                            views.take(k as int),
                            session_id@,
                            message_uuid@,
                            query_lower@,
                        ),
                    decreases blocks.len() - k,
                {
                    let ghost so_far = blocks_hits(
                        views.take(k as int),
                        session_id@,
                        message_uuid@,
                        query_lower@,
                    );
                    proof {
                        assert(views.take(k + 1).drop_last() =~= views.take(k as int));
                        assert(views.take(k + 1).last() == blocks@[k as int]@);
                    }
                    self.search_block(&blocks[k], session_id, message_uuid, query_lower, results);
                    assert(result_views(results@) =~= before + (so_far + block_hits(
                        blocks@[k as int]@,
                        session_id@,
                        message_uuid@,
                        query_lower@,
                    )));
                    k += 1;
                }
                assert(views.take(views.len() as int) =~= views);
            },
        }
    }

    /// The matches of a query, given in lowercase, in one log file.
    pub fn search_file_streaming(&self, file: &SessionFile, query_lower: &str) -> (r: Vec<
        SearchResult,
    >)
        ensures
            result_views(r@) == lines_searched(file@.lines, query_lower@).results,
    {
        let mut results: Vec<SearchResult> = Vec::new();
        let mut current_session_id: Option<String> = None;
        let query = chars_of(query_lower);
        let mut i: usize = 0;
        assert(file@.lines.take(0) =~= Seq::<Seq<char>>::empty());
        assert(result_views(results@) =~= Seq::<ResultView>::empty());
        while i < file.lines.len()
            invariant
                i <= file.lines.len(),
                query@ == query_lower@,
                lines_searched(file@.lines.take(i as int), query_lower@) == (SearchState {
                    session: opt_text(current_session_id),
                    results: result_views(results@),
                }),
            decreases file.lines.len() - i,
        {
            proof {
                let now = file@.lines.take(i + 1);
                assert(now.drop_last() =~= file@.lines.take(i as int));
                assert(now.last() == file.lines@[i as int]@);
            }
            let line = file.lines[i].as_str();
            i += 1;
            if is_blank(line) {
                continue ;
            }
            if !mentioned(line, &query) {
                if current_session_id.is_none() {
                    let named = self.extract_session_id_fast(line);
                    if named.is_some() && !is_summary_line(line) {
                        current_session_id = named;
                    }
                }
                continue ;
            }
            let raw_msg = match decode(line) {
                Some(value) => {
                    if is_summary_entry(&value) {
                        continue ;
                    }
                    match self.parse_record(&value) {
                        Some(raw_msg) => raw_msg,
                        None => {
                            continue ;
                        },
                    }
                },
                None => {
                    continue ;
                },
            };
            let session_id = match current_session_id {
                Some(known) => known,
                None => raw_msg.session_id.clone(),
            };
            if same_text(raw_msg.message_type.as_str(), "user") || same_text(
                raw_msg.message_type.as_str(),
                "assistant",
            ) {
                let content = self.message_content(&raw_msg);
                self.search_content(
                    &content,
                    session_id.as_str(),
                    raw_msg.uuid.as_str(),
                    query_lower,
                    &mut results,
                );
            }
            current_session_id = Some(session_id);
        }
        assert(file@.lines.take(file@.lines.len() as int) =~= file@.lines);
        results
    }

    /// Every match of a query in the logs, ranked by the kind of field in which
    /// it was found.
    pub fn search_chats(&self, dirs: &Vec<ProjectDir>, query: &str) -> (r: Vec<SearchResult>)
        ensures
            result_views(r@) == ranked(dirs_hits(dir_views(dirs@), lowered(query@))),
    {
        let query_lower = lowercase(query);
        let mut results: Vec<SearchResult> = Vec::new();
        let ghost all = dir_views(dirs@);
        let mut d: usize = 0;
        assert(all.take(0) =~= Seq::<DirView>::empty());
        assert(result_views(results@) =~= Seq::<ResultView>::empty());
        while d < dirs.len()
            invariant
                d <= dirs.len(),
                all == dir_views(dirs@),
                query_lower@ == lowered(query@),
                result_views(results@) == dirs_hits(all.take(d as int), query_lower@),
            decreases dirs.len() - d,
        {
            let dir = &dirs[d];
            let ghost files = dir@.files;
            let ghost start = result_views(results@);
            proof {
                assert(all.take(d + 1).drop_last() =~= all.take(d as int));
                assert(all.take(d + 1).last() == dir@);
                assert(files.take(0) =~= Seq::<FileView>::empty());
                assert(start =~= start + Seq::<ResultView>::empty());
            }
            let mut f: usize = 0;
            while f < dir.files.len()
                invariant
                    f <= dir.files.len(),
                    files == dir@.files,
                    result_views(results@) == start + files_hits(
                        files.take(f as int),
                        query_lower@,
                    ),
                decreases dir.files.len() - f,
            {
                let ghost so_far = files_hits(files.take(f as int), query_lower@);
                proof {
                    assert(files.take(f + 1).drop_last() =~= files.take(f as int));
                    assert(files.take(f + 1).last() == dir.files@[f as int]@);
                }
                let ghost had = result_views(results@);
                if dir.files[f].complete {
                    let mut found = self.search_file_streaming(
                        &dir.files[f],
                        query_lower.as_str(),
                    );
                    let ghost more = result_views(found@);
                    results.append(&mut found);
                    assert(result_views(results@) =~= had + more);
                    assert(had + more =~= start + (so_far + more));
                } else {
                    assert(had =~= start + (so_far + Seq::<ResultView>::empty()));
                }
                f += 1;
            }
            assert(files.take(files.len() as int) =~= files);
            d += 1;
        }
        assert(all.take(all.len() as int) =~= all);
        self.rank_results(&results)
    }

    /// The matches ranked by kind; matches of one kind keep their order.
    pub fn rank_results(&self, results: &Vec<SearchResult>) -> (r: Vec<SearchResult>)
        ensures
            result_views(r@) == ranked(result_views(results@)),
    {
        let ghost views = result_views(results@);
        let mut out: Vec<SearchResult> = Vec::new();
        let mut p: u8 = 0;
        assert(result_views(out@) =~= Seq::<ResultView>::empty());
        while p < 6
            invariant
                p <= 6,
                views == result_views(results@),
                result_views(out@) == ranked_below(views, p as int),
            decreases 6 - p,
        {
            let ghost start = result_views(out@);
            let mut i: usize = 0;
            assert(views.take(0) =~= Seq::<ResultView>::empty());
            assert(start =~= start + Seq::<ResultView>::empty());
            while i < results.len()
                invariant
                    i <= results.len(),
                    p < 6,
                    views == result_views(results@),
                    result_views(out@) == start + of_priority(views.take(i as int), p as int),
                decreases results.len() - i,
            {
                proof {
                    assert(views.take(i + 1).drop_last() =~= views.take(i as int));
                    assert(views.take(i + 1).last() == results@[i as int]@);
                }
                if rank_of(&results[i]) == p {
                    let ghost had = result_views(out@);
                    out.push(results[i].clone());
                    assert(result_views(out@) =~= had.push(results@[i as int]@));
                    assert(had.push(results@[i as int]@) =~= start + of_priority(
                        views.take(i as int),
                        p as int,
                    ).push(results@[i as int]@));
                }
                i += 1;
            }
            assert(views.take(views.len() as int) =~= views);
            p += 1;
        }
        assert(ranked_below(views, 6) =~= ranked(views)) by {
            reveal_with_fuel(ranked_below, 7);
        }
        out
    }
}

/// The matches of the ranks below `p`, rank by rank.
pub open spec fn ranked_below(s: Seq<ResultView>, p: int) -> Seq<ResultView>
    decreases p,
{
    if p <= 0 {
        Seq::empty()
    } else {
        ranked_below(s, p - 1) + of_priority(s, p - 1)
    }
}

/// The rank of a match.
pub fn rank_of(result: &SearchResult) -> (r: u8)
    ensures
        r == priority(result@.match_type),
{
    let kind = result.match_type.as_str();
    if same_text(kind, "content") {
        0
    } else if same_text(kind, "thinking") {
        1
    } else if same_text(kind, "tool_name") {
        2
    } else if same_text(kind, "tool_input") {
        3
    } else if same_text(kind, "tool_result") {
        4
    } else {
        5
    }
}

} // verus!

//! The aggregator: the summary index of a project, the session that a log
//! file describes, and the listing of sessions and projects by recency.

use crate::chat_service::{
    dir_views, file_views, ChatService, DirView, FileView, ProjectDir, ServiceError, SessionFile,
};
use crate::json::{decode, parsed, text_member};
use crate::order::{
    lemma_newest_first_keeps, lemma_slot, newest_first, placed, slot, sort_newest_first, Dated,
    Stamped,
};
use crate::reconstruct::{in_conversation, reconstructed};
use crate::records::{
    is_summary, is_summary_entry, is_summary_line, message_of, record_in, summary_line,
};
use crate::text::{
    chars_of, contains, contains_text, is_blank, less, same_text, text_less, trimmed,
};
use crate::types::{
    folder_views, lemma_collapse_idempotent, message_views, placeholder_title, session_views,
    title_of, ChatMessage, ChatSession, FolderView, MessageView, ProjectFolder, RecordView,
    SessionView,
};
use vstd::prelude::*;

verus! {

/// The titles that summary entries give, by the id of the message that a
/// conversation ends with. An entry found later replaces an earlier one for
/// the same id.
#[derive(Debug)]
pub struct SummaryIndex {
    entries: Vec<(String, String)>,
}

/// The map that a sequence of entries stands for: a later entry replaces an
/// earlier one with the same key.
pub open spec fn entry_map(entries: Seq<(String, String)>) -> Map<Seq<char>, Seq<char>>
    decreases entries.len(),
{
    if entries.len() == 0 {
        Map::empty()
    } else {
        entry_map(entries.drop_last()).insert(entries.last().0@, entries.last().1@)
    }
}

impl View for SummaryIndex {
    type V = Map<Seq<char>, Seq<char>>;

    closed spec fn view(&self) -> Map<Seq<char>, Seq<char>> {
        entry_map(self.entries@)
    }
}

impl SummaryIndex {
    /// An index without entries.
    pub fn new() -> (r: Self)
        ensures
            r@ == Map::<Seq<char>, Seq<char>>::empty(),
    {
        SummaryIndex { entries: Vec::new() }
    }

    /// Records the title for a message id, in place of any earlier one.
    pub fn insert(&mut self, leaf: String, title: String)
        ensures
            final(self)@ == old(self)@.insert(leaf@, title@),
    {
        let ghost before = self.entries@;
        self.entries.push((leaf, title));
        assert(self.entries@.drop_last() =~= before);
    }

    /// The title recorded for a message id.
    pub fn get(&self, leaf: &str) -> (r: Option<String>)
        ensures
            match r {
                Some(title) => self@.contains_key(leaf@) && self@[leaf@] == title@,
                None => !self@.contains_key(leaf@),
            },
    {
        let mut i: usize = self.entries.len();
        assert(self.entries@.take(i as int) =~= self.entries@);
        while i > 0
            invariant
                i <= self.entries.len(),
                self@.contains_key(leaf@) == entry_map(self.entries@.take(i as int)).contains_key(
                    leaf@,
                ),
                self@.contains_key(leaf@) ==> self@[leaf@] == entry_map(
                    self.entries@.take(i as int),
                )[leaf@],
            decreases i,
        {
            i -= 1;
            assert(self.entries@.take(i + 1).drop_last() =~= self.entries@.take(i as int));
            if same_text(self.entries[i].0.as_str(), leaf) {
                return Some(self.entries[i].1.clone());
            }
        }
        None
    }
}

/// The entry that a line of a log file adds to the summary index: a summary
/// entry gives one where it names the last message and the title as strings.
pub open spec fn summary_entry(line: Seq<char>) -> Option<(Seq<char>, Seq<char>)> {
    if trimmed(line).len() == 0 {
        None
    } else {
        match parsed(line) {
            Some(m) => if is_summary(m) && m.text_field("leafUuid"@) is Some && m.text_field(
                "summary"@,
            ) is Some {
                Some((m.text_field("leafUuid"@).unwrap(), m.text_field("summary"@).unwrap()))
            } else {
                None
            },
            None => None,
        }
    }
}

/// The index once the lines of one file are read.
pub open spec fn indexed_lines(
    index: Map<Seq<char>, Seq<char>>,
    lines: Seq<Seq<char>>,
) -> Map<Seq<char>, Seq<char>>
    decreases lines.len(),
{
    if lines.len() == 0 {
        index
    } else {
        let before = indexed_lines(index, lines.drop_last());
        match summary_entry(lines.last()) {
            Some(entry) => before.insert(entry.0, entry.1),
            None => before,
        }
    }
}

/// The summary index of a project: every file read in turn, line by line.
pub open spec fn project_index(files: Seq<FileView>) -> Map<Seq<char>, Seq<char>>
    decreases files.len(),
{
    if files.len() == 0 {
        Map::empty()
    } else {
        indexed_lines(project_index(files.drop_last()), files.last().lines)
    }
}

/// What a scan of a session file has found so far.
pub struct Scan {
    /// Whether a record has been read.
    pub named: bool,
    /// The session id of the first record.
    pub session_id: Seq<char>,
    /// The working directory of the first record.
    pub project_path: Seq<char>,
    /// The first message of a user.
    pub first: Option<MessageView>,
    /// The time of the first record of the conversation.
    pub started: Seq<char>,
    /// The number of records of the conversation.
    pub count: nat,
    /// The time of the last record of the conversation.
    pub last_updated: Seq<char>,
    /// The id of the last record of the conversation.
    pub last_uuid: Seq<char>,
}

/// The scan before any record is read.
pub open spec fn scan_start() -> Scan {
    Scan {
        named: false,
        session_id: Seq::empty(),
        project_path: Seq::empty(),
        first: None,
        started: Seq::empty(),
        count: 0,
        last_updated: Seq::empty(),
        last_uuid: Seq::empty(),
    }
}

/// The scan once it is known which session the file belongs to: the first
/// record, of whatever kind, gives the session's id and working directory.
pub open spec fn scan_named(s: Scan, r: RecordView) -> Scan {
    if s.named {
        s
    } else {
        Scan { named: true, session_id: r.session_id, project_path: r.cwd, ..s }
    }
}

/// The scan once one more record is read. A record of the conversation is
/// counted and gives the time and id of the last message; the first of them
/// gives the time at which the conversation started, and the first record of a
/// user gives the first message.
pub open spec fn scan_record(s: Scan, r: RecordView) -> Scan {
    let named = scan_named(s, r);
    if in_conversation(r) {
        Scan {
            count: named.count + 1,
            started: if named.count == 0 {
                r.timestamp
            } else {
                named.started
            },
            last_updated: r.timestamp,
            last_uuid: r.uuid,
            first: if named.first is None && r.message_type == "user"@ {
                Some(message_of(r))
            } else {
                named.first
            },
            ..named
        }
    } else {
        named
    }
}

/// The scan of the lines of a session file.
pub open spec fn scanned(lines: Seq<Seq<char>>) -> Scan
    decreases lines.len(),
{
    if lines.len() == 0 {
        scan_start()
    } else {
        let before = scanned(lines.drop_last());
        match record_in(lines.last()) {
            Some(r) => scan_record(before, r),
            None => before,
        }
    }
}

/// The title of a session: the summary recorded for its last message; else the
/// title derived from the text of its first message of a user; else, where no
/// user has written, the placeholder.
pub open spec fn session_title(
    index: Map<Seq<char>, Seq<char>>,
    last_uuid: Seq<char>,
    first: Option<MessageView>,
) -> Seq<char> {
    if index.contains_key(last_uuid) {
        index[last_uuid]
    } else {
        match first {
            Some(first) => title_of(first.text()),
            None => placeholder_title(),
        }
    }
}

/// The time at which a session was created: that of its first message of a
/// user, and where no user has written, that of its first record.
pub open spec fn session_start(s: Scan) -> Seq<char> {
    match s.first {
        Some(first) => first.timestamp,
        None => s.started,
    }
}

/// The session that the lines of a file describe; none where the file holds no
/// record of the conversation.
pub open spec fn session_of(lines: Seq<Seq<char>>, index: Map<Seq<char>, Seq<char>>) -> Option<
    SessionView,
> {
    let s = scanned(lines);
    if s.count > 0 {
        Some(
            SessionView {
                id: s.session_id,
                title: session_title(index, s.last_uuid, s.first),
                timestamp: session_start(s),
                project_path: s.project_path,
                message_count: s.count,
                last_updated: s.last_updated,
            },
        )
    } else {
        None
    }
}

/// A session without a summary carries the placeholder title where no user has
/// written, and where the first message of a user shows nothing but
/// whitespace.
pub proof fn lemma_untitled_session(lines: Seq<Seq<char>>, index: Map<Seq<char>, Seq<char>>)
    requires
        scanned(lines).count > 0,
        !index.contains_key(scanned(lines).last_uuid),
        scanned(lines).first matches Some(first) ==> trimmed(first.text()).len() == 0,
    ensures
        session_of(lines, index) is Some,
        session_of(lines, index).unwrap().title == placeholder_title(),
{
    if scanned(lines).first is Some {
        lemma_collapse_idempotent(scanned(lines).first.unwrap().content.raw_text());
    }
}

/// A file describes a session exactly when it holds a record of the
/// conversation, and the session counts at least one message.
pub proof fn lemma_session_counts(lines: Seq<Seq<char>>, index: Map<Seq<char>, Seq<char>>)
    ensures
        session_of(lines, index) is Some <==> scanned(lines).count > 0,
        session_of(lines, index) matches Some(session) ==> session.message_count >= 1,
{
}

/// The session that a file gives to a listing: the one that its lines
/// describe, and none where the file was not read to its end.
pub open spec fn file_session(file: FileView, index: Map<Seq<char>, Seq<char>>) -> Option<
    SessionView,
> {
    if file.complete {
        session_of(file.lines, index)
    } else {
        None
    }
}

/// The sessions that the files of a project describe, in the order of the
/// files.
pub open spec fn listed_sessions(files: Seq<FileView>, index: Map<Seq<char>, Seq<char>>) -> Seq<
    SessionView,
>
    decreases files.len(),
{
    if files.len() == 0 {
        Seq::empty()
    } else {
        let before = listed_sessions(files.drop_last(), index);
        match file_session(files.last(), index) {
            Some(session) => before.push(session),
            None => before,
        }
    }
}

impl Stamped for SessionView {
    open spec fn stamp(&self) -> Seq<char> {
        self.last_updated
    }
}

impl Stamped for ChatSession {
    open spec fn stamp(&self) -> Seq<char> {
        self@.last_updated
    }
}

impl Dated for ChatSession {
    fn stamp_chars(&self) -> (r: Vec<char>) {
        chars_of(self.last_updated.as_str())
    }
}

/// The latest time at which a session of the sequence was updated; the empty
/// text where there is no session.
pub open spec fn latest(sessions: Seq<SessionView>) -> Seq<char>
    decreases sessions.len(),
{
    if sessions.len() == 0 {
        Seq::empty()
    } else {
        let before = latest(sessions.drop_last());
        if text_less(before, sessions.last().last_updated) {
            sessions.last().last_updated
        } else {
            before
        }
    }
}

impl Stamped for FolderView {
    open spec fn stamp(&self) -> Seq<char> {
        latest(self.chat_sessions)
    }
}

impl Stamped for ProjectFolder {
    open spec fn stamp(&self) -> Seq<char> {
        latest(self@.chat_sessions)
    }
}

impl Dated for ProjectFolder {
    fn stamp_chars(&self) -> (r: Vec<char>) {
        let mut best: Vec<char> = Vec::new();
        let mut i: usize = 0;
        assert(session_views(self.chat_sessions@).take(0) =~= Seq::<SessionView>::empty());
        while i < self.chat_sessions.len()
            invariant
                i <= self.chat_sessions.len(),
                best@ == latest(session_views(self.chat_sessions@).take(i as int)),
            decreases self.chat_sessions.len() - i,
        {
            proof {
                let now = session_views(self.chat_sessions@).take(i + 1);
                assert(now.drop_last() =~= session_views(self.chat_sessions@).take(i as int));
                assert(now.last() == self.chat_sessions@[i as int]@);
            }
            let stamp = chars_of(self.chat_sessions[i].last_updated.as_str());
            if less(&best, &stamp) {
                best = stamp;
            }
            i += 1;
        }
        assert(session_views(self.chat_sessions@).take(self.chat_sessions@.len() as int)
            =~= session_views(self.chat_sessions@));
        best
    }
}

/// The sessions of a project as they are listed: newest first.
pub open spec fn project_sessions(files: Seq<FileView>) -> Seq<SessionView> {
    newest_first(listed_sessions(files, project_index(files)))
}

/// The folder that a project directory gives: none where it has no session;
/// else it is named by the working directory of its first listed session.
pub open spec fn folder_of(dir: DirView) -> Option<FolderView> {
    let sessions = project_sessions(dir.files);
    if sessions.len() > 0 {
        Some(FolderView { name: sessions[0].project_path, path: dir.path, chat_sessions: sessions })
    } else {
        None
    }
}

/// The folders that the project directories give, in the order of the
/// directories.
pub open spec fn listed_folders(dirs: Seq<DirView>) -> Seq<FolderView>
    decreases dirs.len(),
{
    if dirs.len() == 0 {
        Seq::empty()
    } else {
        let before = listed_folders(dirs.drop_last());
        match folder_of(dirs.last()) {
            Some(folder) => before.push(folder),
            None => before,
        }
    }
}

/// The projects as they are listed: those with a session, the one with the
/// latest activity first.
pub open spec fn all_projects(dirs: Seq<DirView>) -> Seq<FolderView> {
    newest_first(listed_folders(dirs))
}

/// Every folder among those found holds a session.
pub open spec fn all_hold_sessions(folders: Seq<FolderView>) -> bool {
    forall|k: int| 0 <= k < folders.len() ==> (#[trigger] folders[k]).chat_sessions.len() > 0
}

/// The folders found for a sequence of directories each hold a session.
pub proof fn lemma_listed_folders_hold_sessions(dirs: Seq<DirView>)
    ensures
        all_hold_sessions(listed_folders(dirs)),
    decreases dirs.len(),
{
    if dirs.len() > 0 {
        lemma_listed_folders_hold_sessions(dirs.drop_last());
        let before = listed_folders(dirs.drop_last());
        assert forall|k: int| 0 <= k < listed_folders(dirs).len() implies (#[trigger] listed_folders(
            dirs,
        )[k]).chat_sessions.len() > 0 by {
            if k < before.len() {
                assert(listed_folders(dirs)[k] == before[k]);
            }
        }
    }
}

/// A project without a session is never listed.
pub proof fn lemma_no_empty_project(dirs: Seq<DirView>)
    ensures
        all_hold_sessions(all_projects(dirs)),
{
    let found = listed_folders(dirs);
    lemma_listed_folders_hold_sessions(dirs);
    lemma_newest_first_keeps(found);
    assert forall|k: int| 0 <= k < all_projects(dirs).len() implies (#[trigger] all_projects(
        dirs,
    )[k]).chat_sessions.len() > 0 by {
        let folder = all_projects(dirs)[k];
        assert(found.contains(folder));
        let j = choose|j: int| 0 <= j < found.len() && found[j] == folder;
        assert(found[j].chat_sessions.len() > 0);
    }
}

/// The position at which a session is placed is the one at which its view is.
pub proof fn lemma_session_slot(s: Seq<ChatSession>, key: Seq<char>, from: int)
    requires
        0 <= from,
    ensures
        slot(session_views(s), key, from) == slot(s, key, from),
    decreases s.len() - from,
{
    if from < s.len() {
        assert(session_views(s)[from] == s[from]@);
        lemma_session_slot(s, key, from + 1);
    }
}

/// Ordering sessions orders their views.
pub proof fn lemma_sorted_session_views(s: Seq<ChatSession>)
    ensures
        session_views(newest_first(s)) == newest_first(session_views(s)),
    decreases s.len(),
{
    if s.len() == 0 {
        assert(session_views(newest_first(s)) =~= newest_first(session_views(s)));
    } else {
        let before = newest_first(s.drop_last());
        lemma_sorted_session_views(s.drop_last());
        lemma_session_slot(before, s.last().stamp(), 0);
        lemma_slot(before, s.last().stamp(), 0);
        assert(session_views(s).drop_last() =~= session_views(s.drop_last()));
        assert(session_views(s).last() == s.last()@);
        assert(session_views(placed(before, s.last())) =~= placed(
            session_views(before),
            s.last()@,
        ));
    }
}

/// The position at which a folder is placed is the one at which its view is.
pub proof fn lemma_folder_slot(s: Seq<ProjectFolder>, key: Seq<char>, from: int)
    requires
        0 <= from,
    ensures
        slot(folder_views(s), key, from) == slot(s, key, from),
    decreases s.len() - from,
{
    if from < s.len() {
        assert(folder_views(s)[from] == s[from]@);
        lemma_folder_slot(s, key, from + 1);
    }
}

/// Ordering folders orders their views.
pub proof fn lemma_sorted_folder_views(s: Seq<ProjectFolder>)
    ensures
        folder_views(newest_first(s)) == newest_first(folder_views(s)),
    decreases s.len(),
{
    if s.len() == 0 {
        assert(folder_views(newest_first(s)) =~= newest_first(folder_views(s)));
    } else {
        let before = newest_first(s.drop_last());
        lemma_sorted_folder_views(s.drop_last());
        lemma_folder_slot(before, s.last().stamp(), 0);
        lemma_slot(before, s.last().stamp(), 0);
        assert(folder_views(s).drop_last() =~= folder_views(s.drop_last()));
        assert(folder_views(s).last() == s.last()@);
        assert(folder_views(placed(before, s.last())) =~= placed(folder_views(before), s.last()@));
    }
}

/// A line names a session where it holds something, is no summary entry, and
/// contains the session's id as the value of the key `sessionId`.
pub open spec fn names_session(line: Seq<char>, session_id: Seq<char>) -> bool {
    &&& trimmed(line).len() > 0
    &&& !summary_line(line)
    &&& contains_text(line, session_key(session_id))
}

/// The text by which a line names a session.
pub open spec fn session_key(session_id: Seq<char>) -> Seq<char> {
    "\"sessionId\":\""@ + session_id + "\""@
}

/// Some line at or after `from` names the session.
pub open spec fn holds_session_from(lines: Seq<Seq<char>>, session_id: Seq<char>, from: int) -> bool {
    exists|i: int| from <= i < lines.len() && names_session(#[trigger] lines[i], session_id)
}

/// Some line of the file names the session.
pub open spec fn holds_session(lines: Seq<Seq<char>>, session_id: Seq<char>) -> bool {
    holds_session_from(lines, session_id, 0)
}

/// The first file at or after `from` that holds the session.
pub open spec fn first_holder(files: Seq<FileView>, session_id: Seq<char>, from: int) -> Option<
    FileView,
>
    decreases files.len() - from,
{
    if from < 0 || from >= files.len() {
        None
    } else if holds_session(files[from].lines, session_id) {
        Some(files[from])
    } else {
        first_holder(files, session_id, from + 1)
    }
}

/// The file that holds the session: the first one, in the order of the
/// directories and of their files.
pub open spec fn session_file(dirs: Seq<DirView>, session_id: Seq<char>, from: int) -> Option<
    FileView,
>
    decreases dirs.len() - from,
{
    if from < 0 || from >= dirs.len() {
        None
    } else {
        match first_holder(dirs[from].files, session_id, 0) {
            Some(file) => Some(file),
            None => session_file(dirs, session_id, from + 1),
        }
    }
}

impl ChatService {
    /// The summary index of a project.
    pub fn build_summary_index(&self, project: &ProjectDir) -> (r: SummaryIndex)
        ensures
            r@ == project_index(project@.files),
    {
        let mut index = SummaryIndex::new();
        let mut f: usize = 0;
        let ghost files = project@.files;
        assert(files.take(0) =~= Seq::<FileView>::empty());
        while f < project.files.len()
            invariant
                f <= project.files.len(),
                files == project@.files,
                index@ == project_index(files.take(f as int)),
            decreases project.files.len() - f,
        {
            let file = &project.files[f];
            let ghost start = index@;
            proof {
                assert(files.take(f + 1).drop_last() =~= files.take(f as int));
                assert(files.take(f + 1).last() == file@);
                assert(file@.lines.take(0) =~= Seq::<Seq<char>>::empty());
            }
            let mut i: usize = 0;
            while i < file.lines.len()
                invariant
                    i <= file.lines.len(),
                    index@ == indexed_lines(start, file@.lines.take(i as int)),
                decreases file.lines.len() - i,
            {
                proof {
                    let now = file@.lines.take(i + 1);
                    assert(now.drop_last() =~= file@.lines.take(i as int));
                    assert(now.last() == file.lines@[i as int]@);
                }
                let line = file.lines[i].as_str();
                if !is_blank(line) {
                    match decode(line) {
                        Some(value) => {
                            if is_summary_entry(&value) {
                                match text_member(&value, "leafUuid") {
                                    Some(leaf) => match text_member(&value, "summary") {
                                        Some(summary) => {
                                            index.insert(leaf, summary);
                                        },
                                        None => {},
                                    },
                                    None => {},
                                }
                            }
                        },
                        None => {},
                    }
                }
                i += 1;
            }
            assert(file@.lines.take(file@.lines.len() as int) =~= file@.lines);
            f += 1;
        }
        assert(files.take(files.len() as int) =~= files);
        index
    }

    /// The session that a log file describes. A file without a record of the
    /// conversation describes none.
    pub fn parse_session_from_file_with_index(
        &self,
        file: &SessionFile,
        summary_index: &SummaryIndex,
    ) -> (r: Result<ChatSession, ServiceError>)
        ensures
            match r {
                Ok(session) => session_of(file@.lines, summary_index@) == Some(session@),
                Err(e) => session_of(file@.lines, summary_index@) is None
                    && e is NoValidMessages,
            },
    {
        let mut named: bool = false;
        let mut session_id = String::new();
        let mut project_path = String::new();
        let mut first_message: Option<ChatMessage> = None;
        let mut started = String::new();
        let mut message_count: usize = 0;
        let mut last_updated = String::new();
        let mut last_message_uuid = String::new();
        let mut i: usize = 0;
        assert(file@.lines.take(0) =~= Seq::<Seq<char>>::empty());
        while i < file.lines.len()
            invariant
                i <= file.lines.len(),
                message_count <= i,
                scanned(file@.lines.take(i as int)) == (Scan {
                    named,
                    session_id: session_id@,
                    project_path: project_path@,
                    first: match first_message {
                        Some(m) => Some(m@),
                        None => None,
                    },
                    started: started@,
                    count: message_count as nat,
                    last_updated: last_updated@,
                    last_uuid: last_message_uuid@,
                }),
            decreases file.lines.len() - i,
        {
            proof {
                let now = file@.lines.take(i + 1);
                assert(now.drop_last() =~= file@.lines.take(i as int));
                assert(now.last() == file.lines@[i as int]@);
            }
            match self.parse_line(file.lines[i].as_str()) {
                Some(raw_msg) => {
                    if !named {
                        named = true;
                        session_id = raw_msg.session_id.clone();
                        project_path = raw_msg.cwd.clone();
                    }
                    let from_user = same_text(raw_msg.message_type.as_str(), "user");
                    if from_user || same_text(raw_msg.message_type.as_str(), "assistant") {
                        if message_count == 0 {
                            started = raw_msg.timestamp.clone();
                        }
                        message_count += 1;
                        last_updated = raw_msg.timestamp.clone();
                        last_message_uuid = raw_msg.uuid.clone();
                        if first_message.is_none() && from_user {
                            first_message = Some(self.convert_raw_to_chat_message(&raw_msg));
                        }
                    }
                },
                None => {},
            }
            i += 1;
        }
        assert(file@.lines.take(file@.lines.len() as int) =~= file@.lines);
        if message_count == 0 {
            return Err(ServiceError::NoValidMessages);
        }
        let summary_title = summary_index.get(last_message_uuid.as_str());
        match first_message {
            Some(first_msg) => {
                let mut session = ChatSession::new_with_summary(
                    session_id,
                    &first_msg,
                    project_path,
                    summary_title,
                );
                session.message_count = message_count;
                session.last_updated = last_updated;
                Ok(session)
            },
            None => {
                let title = match summary_title {
                    Some(summary) => summary,
                    None => "Untitled Chat".to_owned(),
                };
                Ok(
                    ChatSession {
                        id: session_id,
                        title,
                        timestamp: started,
                        project_path,
                        message_count,
                        last_updated,
                    },
                )
            },
        }
    }

    /// The sessions of a project, newest first.
    pub fn get_project_sessions(&self, project: &ProjectDir) -> (r: Vec<ChatSession>)
        ensures
            session_views(r@) == project_sessions(project@.files),
    {
        let summary_index = self.build_summary_index(project);
        let mut sessions: Vec<ChatSession> = Vec::new();
        let ghost files = project@.files;
        let mut f: usize = 0;
        assert(files.take(0) =~= Seq::<FileView>::empty());
        assert(session_views(sessions@) =~= Seq::<SessionView>::empty());
        while f < project.files.len()
            invariant
                f <= project.files.len(),
                files == project@.files,
                session_views(sessions@) == listed_sessions(files.take(f as int), summary_index@),
            decreases project.files.len() - f,
        {
            proof {
                assert(files.take(f + 1).drop_last() =~= files.take(f as int));
                assert(files.take(f + 1).last() == project.files@[f as int]@);
            }
            if project.files[f].complete {
                match self.parse_session_from_file_with_index(&project.files[f], &summary_index) {
                    Ok(session) => {
                        let ghost views = session_views(sessions@);
                        sessions.push(session);
                        assert(session_views(sessions@) =~= views.push(session@));
                    },
                    Err(_) => {},
                }
            }
            f += 1;
        }
        assert(files.take(files.len() as int) =~= files);
        proof {
            lemma_sorted_session_views(sessions@);
        }
        sort_newest_first(sessions)
    }

    /// The projects that have a session, the one with the latest activity
    /// first.
    pub fn get_all_projects(&self, dirs: &Vec<ProjectDir>) -> (r: Vec<ProjectFolder>)
        ensures
            folder_views(r@) == all_projects(dir_views(dirs@)),
    {
        let mut projects: Vec<ProjectFolder> = Vec::new();
        let ghost all = dir_views(dirs@);
        let mut d: usize = 0;
        assert(all.take(0) =~= Seq::<DirView>::empty());
        assert(folder_views(projects@) =~= Seq::<FolderView>::empty());
        while d < dirs.len()
            invariant
                d <= dirs.len(),
                all == dir_views(dirs@),
                folder_views(projects@) == listed_folders(all.take(d as int)),
            decreases dirs.len() - d,
        {
            proof {
                assert(all.take(d + 1).drop_last() =~= all.take(d as int));
                assert(all.take(d + 1).last() == dirs@[d as int]@);
            }
            let sessions = self.get_project_sessions(&dirs[d]);
            if sessions.len() > 0 {
                assert(session_views(sessions@)[0] == sessions@[0]@);
                let folder = ProjectFolder {
                    name: sessions[0].project_path.clone(),
                    path: dirs[d].path.clone(),
                    chat_sessions: sessions,
                };
                let ghost views = folder_views(projects@);
                projects.push(folder);
                assert(folder_views(projects@) =~= views.push(folder@));
            }
            d += 1;
        }
        assert(all.take(all.len() as int) =~= all);
        proof {
            lemma_sorted_folder_views(projects@);
        }
        sort_newest_first(projects)
    }

    /// Whether a log file holds the session with the given id.
    pub fn file_contains_session_id(&self, file: &SessionFile, session_id: &str) -> (r: bool)
        ensures
            r == holds_session(file@.lines, session_id@),
    {
        let mut key = chars_of("\"sessionId\":\"");
        let mut id = chars_of(session_id);
        key.append(&mut id);
        proof {
            reveal_strlit("\"");
        }
        key.push('"');
        assert(key@ =~= session_key(session_id@));
        let mut i: usize = 0;
        while i < file.lines.len()
            invariant
                i <= file.lines.len(),
                key@ == session_key(session_id@),
                forall|k: int| 0 <= k < i ==> !names_session(#[trigger] file@.lines[k], session_id@),
            decreases file.lines.len() - i,
        {
            let line = file.lines[i].as_str();
            assert(file@.lines[i as int] == line@);
            let chars = chars_of(line);
            if contains(&chars, &key) && !is_blank(line) {
                if !is_summary_line(line) {
                    assert(names_session(file@.lines[i as int], session_id@));
                    return true;
                }
            }
            i += 1;
        }
        false
    }

    /// The first log file that holds the session with the given id.
    pub fn find_session_file<'a>(&self, dirs: &'a Vec<ProjectDir>, session_id: &str) -> (r: Result<
        &'a SessionFile,
        ServiceError,
    >)
        ensures
            match r {
                Ok(file) => session_file(dir_views(dirs@), session_id@, 0) == Some(file@),
                Err(e) => session_file(dir_views(dirs@), session_id@, 0) is None
                    && e.is_not_found(session_id@),
            },
    {
        let ghost all = dir_views(dirs@);
        let mut d: usize = 0;
        while d < dirs.len()
            invariant
                d <= dirs.len(),
                all == dir_views(dirs@),
                session_file(all, session_id@, 0) == session_file(all, session_id@, d as int),
            decreases dirs.len() - d,
        {
            let dir = &dirs[d];
            assert(all[d as int] == dir@);
            let ghost files = dir@.files;
            let mut f: usize = 0;
            while f < dir.files.len()
                invariant
                    f <= dir.files.len(),
                    0 <= d < all.len(),
                    all == dir_views(dirs@),
                    all[d as int].files == files,
                    session_file(all, session_id@, 0) == session_file(all, session_id@, d as int),
                    files == dir@.files,
                    files == file_views(dir.files@),
                    first_holder(files, session_id@, 0) == first_holder(
                        files,
                        session_id@,
                        f as int,
                    ),
                decreases dir.files.len() - f,
            {
                assert(files[f as int] == dir.files@[f as int]@);
                if self.file_contains_session_id(&dir.files[f], session_id) {
                    assert(first_holder(files, session_id@, f as int) == Some(files[f as int]));
                    assert(session_file(all, session_id@, d as int) == Some(files[f as int]));
                    return Ok(&dir.files[f]);
                }
                f += 1;
            }
            d += 1;
        }
        Err(ServiceError::SessionNotFound(session_id.to_owned()))
    }

    /// The conversation of the session with the given id.
    pub fn get_chat_messages(&self, dirs: &Vec<ProjectDir>, session_id: &str) -> (r: Result<
        Vec<ChatMessage>,
        ServiceError,
    >)
        ensures
            match r {
                Ok(messages) => session_file(dir_views(dirs@), session_id@, 0) matches Some(file)
                    && message_views(messages@) == reconstructed(file.lines),
                Err(e) => session_file(dir_views(dirs@), session_id@, 0) is None
                    && e.is_not_found(session_id@),
            },
    {
        match self.find_session_file(dirs, session_id) {
            Ok(file) => Ok(self.parse_messages_from_file(file)),
            Err(e) => Err(e),
        }
    }

    /// The path of the log file that holds the session with the given id.
    pub fn get_session_file_path(&self, dirs: &Vec<ProjectDir>, session_id: &str) -> (r: Result<
        String,
        ServiceError,
    >)
        ensures
            match r {
                Ok(path) => session_file(dir_views(dirs@), session_id@, 0) matches Some(file)
                    && path@ == file.path,
                Err(e) => session_file(dir_views(dirs@), session_id@, 0) is None
                    && e.is_not_found(session_id@),
            },
    {
        match self.find_session_file(dirs, session_id) {
            Ok(file) => Ok(file.path.clone()),
            Err(e) => Err(e),
        }
    }
}

} // verus!

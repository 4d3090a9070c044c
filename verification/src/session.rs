//! What is kept from one run of the explorer to the next: files, queries,
//! preferences and column layouts.

use crate::paths::{is_same_path, same_path};
use crate::text::{
    byte_len, chars_of, chars_within, lemma_chars_within, prefix_within, same_text, text_of, trim,
    trimmed, utf8_len,
};
use vstd::prelude::*;

verus! {

pub const SESSION_VERSION: u32 = 1;

pub const MAX_HISTORY_ENTRIES: usize = 50;

pub const MAX_RECENT_FILES: usize = 12;

pub const MAX_QUERY_BYTES: usize = 16384;

pub const MAX_HISTORY_BYTES: usize = 262144;

/// Layouts of wider datasets are not kept.
pub const MAX_LAYOUT_COLUMNS: usize = 256;

/// What the user has switched on.
#[derive(Clone, Copy, Debug, Default, PartialEq, Eq, Structural)]
pub struct Preferences {
    pub inspector_visible: bool,
    pub chart_visible: bool,
}

/// A query that was run.
#[derive(Debug, PartialEq, Eq)]
pub struct QueryHistoryEntry {
    pub sql: String,
    pub timestamp_unix_secs: u64,
    pub duration_ms: u64,
    pub success: bool,
    pub row_count: Option<u64>,
}

/// The column layout of the datasets with some columns.
#[derive(Debug, PartialEq, Eq)]
pub struct GridLayoutPreference {
    pub schema_key: String,
    pub order: Vec<String>,
    pub hidden: Vec<String>,
    pub widths: Vec<(String, u16)>,
}

/// What is kept.
#[derive(Debug, PartialEq, Eq)]
pub struct SessionState {
    pub version: u32,
    pub recent_files: Vec<String>,
    pub last_opened_file: Option<String>,
    pub sql_input: String,
    pub query_history: Vec<QueryHistoryEntry>,
    pub preferences: Preferences,
    pub grid_layouts: Vec<GridLayoutPreference>,
}

/// A query that was run, as a mathematical value.
pub struct HistoryModel {
    pub sql: Seq<char>,
    pub timestamp_unix_secs: u64,
    pub duration_ms: u64,
    pub success: bool,
    pub row_count: Option<u64>,
}

/// What is kept, as a mathematical value.
#[verifier::ext_equal]
pub struct SessionModel {
    pub version: u32,
    pub recent_files: Seq<Seq<char>>,
    pub last_opened_file: Option<Seq<char>>,
    pub sql_input: Seq<char>,
    pub query_history: Seq<HistoryModel>,
    pub preferences: Preferences,
    pub grid_layouts: Seq<GridLayoutPreference>,
}

impl View for QueryHistoryEntry {
    type V = HistoryModel;

    open spec fn view(&self) -> HistoryModel {
        HistoryModel {
            sql: self.sql@,
            timestamp_unix_secs: self.timestamp_unix_secs,
            duration_ms: self.duration_ms,
            success: self.success,
            row_count: self.row_count,
        }
    }
}

/// What the paths say.
pub open spec fn path_texts(paths: Seq<String>) -> Seq<Seq<char>> {
    paths.map_values(|path: String| path@)
}

/// What the entries say.
pub open spec fn history_model(entries: Seq<QueryHistoryEntry>) -> Seq<HistoryModel> {
    entries.map_values(|entry: QueryHistoryEntry| entry@)
}

impl View for SessionState {
    type V = SessionModel;

    open spec fn view(&self) -> SessionModel {
        SessionModel {
            version: self.version,
            recent_files: path_texts(self.recent_files@),
            last_opened_file: match self.last_opened_file {
                Some(path) => Some(path@),
                None => None,
            },
            sql_input: self.sql_input@,
            query_history: history_model(self.query_history@),
            preferences: self.preferences,
            grid_layouts: self.grid_layouts@,
        }
    }
}

// ---------------------------------------------------------------------------
// What the operations come to
// ---------------------------------------------------------------------------

/// What is kept before anything was done.
pub open spec fn fresh_session() -> SessionModel {
    SessionModel {
        version: SESSION_VERSION,
        recent_files: Seq::empty(),
        last_opened_file: None,
        sql_input: Seq::empty(),
        query_history: Seq::empty(),
        preferences: Preferences { inspector_visible: true, chart_visible: false },
        grid_layouts: Seq::empty(),
    }
}

/// `value` where it has at most `limit` bytes, else the characters that begin
/// within them.
pub open spec fn bounded(value: Seq<char>, limit: nat) -> Seq<char> {
    if byte_len(value) <= limit {
        value
    } else if limit == 0 {
        Seq::empty()
    } else {
        value.take(chars_within(value, (limit - 1) as nat) as int + 1)
    }
}

/// Whether a text is more than white space.
pub open spec fn is_written(text: Seq<char>) -> bool {
    trimmed(text).len() > 0
}

/// The first `count` items, or all.
pub open spec fn at_most<T>(items: Seq<T>, count: nat) -> Seq<T> {
    if items.len() <= count {
        items
    } else {
        items.take(count as int)
    }
}

/// The files at other paths.
pub open spec fn without_file(files: Seq<Seq<char>>, path: Seq<char>) -> Seq<Seq<char>>
    decreases files.len(),
{
    if files.len() == 0 {
        Seq::empty()
    } else if same_path(files.last(), path) {
        without_file(files.drop_last(), path)
    } else {
        without_file(files.drop_last(), path).push(files.last())
    }
}

/// Whether a file is listed, under this path or another that leads to the same place.
pub open spec fn lists_file(files: Seq<Seq<char>>, path: Seq<char>) -> bool {
    exists|i: int| 0 <= i < files.len() && same_path(#[trigger] files[i], path)
}

/// The entries of other queries.
pub open spec fn without_query(history: Seq<HistoryModel>, sql: Seq<char>) -> Seq<HistoryModel>
    decreases history.len(),
{
    if history.len() == 0 {
        Seq::empty()
    } else if history.last().sql == sql {
        without_query(history.drop_last(), sql)
    } else {
        without_query(history.drop_last(), sql).push(history.last())
    }
}

/// How many bytes the queries have together.
pub open spec fn history_bytes(history: Seq<HistoryModel>) -> nat
    decreases history.len(),
{
    if history.len() == 0 {
        0
    } else {
        history_bytes(history.drop_last()) + byte_len(history.last().sql)
    }
}

/// The entries without the oldest ones, as far as they are too many or too long.
pub open spec fn trimmed_history(history: Seq<HistoryModel>) -> Seq<HistoryModel>
    decreases history.len(),
{
    if history.len() == 0 {
        history
    } else if history.len() > MAX_HISTORY_ENTRIES || history_bytes(history) > MAX_HISTORY_BYTES {
        trimmed_history(history.drop_last())
    } else {
        history
    }
}

/// The session once a file was opened.
pub open spec fn file_recorded(session: SessionModel, path: Seq<char>) -> SessionModel {
    SessionModel {
        recent_files: at_most(
            seq![path] + without_file(session.recent_files, path),
            MAX_RECENT_FILES as nat,
        ),
        last_opened_file: Some(path),
        ..session
    }
}

/// The session once a query was run.
pub open spec fn query_recorded(session: SessionModel, entry: HistoryModel) -> SessionModel {
    let sql = bounded(entry.sql, MAX_QUERY_BYTES as nat);
    if !is_written(sql) {
        session
    } else {
        SessionModel {
            query_history: trimmed_history(
                seq![HistoryModel { sql, ..entry }] + without_query(session.query_history, sql),
            ),
            ..session
        }
    }
}

/// The session once a layout is kept.
pub open spec fn layout_saved(session: SessionModel, layout: GridLayoutPreference) -> SessionModel {
    SessionModel {
        grid_layouts: without_layout(session.grid_layouts, layout.schema_key@).push(layout),
        ..session
    }
}

/// The session once a file was forgotten.
pub open spec fn file_removed(session: SessionModel, path: Seq<char>) -> SessionModel {
    let left = without_file(session.recent_files, path);
    SessionModel {
        recent_files: left,
        last_opened_file: match session.last_opened_file {
            Some(last) => if !same_path(last, path) {
                Some(last)
            } else if left.len() > 0 {
                Some(left[0])
            } else {
                None
            },
            None => None,
        },
        ..session
    }
}

/// The files that are there, each once.
pub open spec fn distinct_available(files: Seq<Seq<char>>, available: Seq<bool>) -> Seq<Seq<char>>
    decreases files.len(),
{
    if files.len() == 0 || available.len() != files.len() {
        Seq::empty()
    } else {
        let before = distinct_available(files.drop_last(), available.drop_last());
        if available.last() && !lists_file(before, files.last()) {
            before.push(files.last())
        } else {
            before
        }
    }
}

/// The entries that hold more than white space.
pub open spec fn written_queries(history: Seq<HistoryModel>) -> Seq<HistoryModel>
    decreases history.len(),
{
    if history.len() == 0 {
        Seq::empty()
    } else if is_written(history.last().sql) {
        written_queries(history.drop_last()).push(history.last())
    } else {
        written_queries(history.drop_last())
    }
}

/// The entries with their queries cut.
pub open spec fn bounded_queries(history: Seq<HistoryModel>) -> Seq<HistoryModel> {
    history.map_values(
        |entry: HistoryModel|
            HistoryModel { sql: bounded(entry.sql, MAX_QUERY_BYTES as nat), ..entry },
    )
}

/// The session as it may be used: nothing of another version, no file that is not
/// there or occurs twice, and nothing too long. `available` says of each recent
/// file, and `last_available` of the last opened one, whether it is there.
pub open spec fn normalized(
    session: SessionModel,
    available: Seq<bool>,
    last_available: bool,
) -> SessionModel {
    if session.version != SESSION_VERSION {
        fresh_session()
    } else {
        SessionModel {
            recent_files: at_most(
                distinct_available(session.recent_files, available),
                MAX_RECENT_FILES as nat,
            ),
            last_opened_file: if last_available {
                session.last_opened_file
            } else {
                None
            },
            sql_input: bounded(session.sql_input, MAX_QUERY_BYTES as nat),
            query_history: trimmed_history(bounded_queries(written_queries(session.query_history))),
            ..session
        }
    }
}

// ---------------------------------------------------------------------------
// The operations
// ---------------------------------------------------------------------------

/// `value` where it has at most `limit` bytes, else the characters that begin
/// within them.
pub fn bounded_text(value: &str, limit: usize) -> (text: String)
    ensures
        text@ == bounded(value@, limit as nat),
{
    if utf8_len(value) <= limit {
        return value.to_owned();
    }
    if limit == 0 {
        let text = String::new();
        assert(text@ =~= Seq::<char>::empty());
        return text;
    }
    let chars = chars_of(value);
    let whole: usize = prefix_within(&chars, limit - 1);
    proof {
        lemma_chars_within(value@, (limit - 1) as nat);
        if whole == chars@.len() {
            assert(value@.take(whole as int) =~= value@);
        }
    }
    let text = text_of(&chars, 0, whole + 1);
    assert(text@ =~= value@.take(whole + 1));
    text
}

impl QueryHistoryEntry {
    fn copy(&self) -> (entry: Self)
        ensures
            entry@ == self@,
    {
        QueryHistoryEntry {
            sql: self.sql.as_str().to_owned(),
            timestamp_unix_secs: self.timestamp_unix_secs,
            duration_ms: self.duration_ms,
            success: self.success,
            row_count: self.row_count,
        }
    }
}

impl Default for SessionState {
    fn default() -> (state: Self)
        ensures
            state@ == fresh_session(),
    {
        let state = SessionState {
            version: SESSION_VERSION,
            recent_files: Vec::new(),
            last_opened_file: None,
            sql_input: String::new(),
            query_history: Vec::new(),
            preferences: Preferences { inspector_visible: true, chart_visible: false },
            grid_layouts: Vec::new(),
        };
        proof {
            assert(state@.recent_files =~= Seq::<Seq<char>>::empty());
            assert(state@.query_history =~= Seq::<HistoryModel>::empty());
            assert(state@.sql_input =~= Seq::<char>::empty());
        }
        state
    }
}

fn remove_path(files: &Vec<String>, path: &str) -> (left: Vec<String>)
    ensures
        path_texts(left@) == without_file(path_texts(files@), path@),
{
    let ghost all = path_texts(files@);
    let mut left: Vec<String> = Vec::new();
    let mut i: usize = 0;
    assert(path_texts(left@) =~= without_file(all.take(0), path@));
    while i < files.len()
        invariant
            i <= files@.len(),
            all == path_texts(files@),
            path_texts(left@) == without_file(all.take(i as int), path@),
        decreases files@.len() - i,
    {
        let ghost before = path_texts(left@);
        proof {
            assert(all.take(i + 1).drop_last() =~= all.take(i as int));
            assert(all.take(i + 1).last() == files@[i as int]@);
        }
        if !is_same_path(files[i].as_str(), path) {
            left.push(files[i].as_str().to_owned());
            assert(path_texts(left@) =~= before.push(files@[i as int]@));
        }
        i = i + 1;
    }
    assert(all.take(i as int) =~= all);
    left
}

fn remove_query(history: &Vec<QueryHistoryEntry>, sql: &str) -> (left: Vec<QueryHistoryEntry>)
    ensures
        history_model(left@) == without_query(history_model(history@), sql@),
{
    let ghost all = history_model(history@);
    let mut left: Vec<QueryHistoryEntry> = Vec::new();
    let mut i: usize = 0;
    assert(history_model(left@) =~= without_query(all.take(0), sql@));
    while i < history.len()
        invariant
            i <= history@.len(),
            all == history_model(history@),
            history_model(left@) == without_query(all.take(i as int), sql@),
        decreases history@.len() - i,
    {
        let ghost before = history_model(left@);
        proof {
            assert(all.take(i + 1).drop_last() =~= all.take(i as int));
            assert(all.take(i + 1).last() == history@[i as int]@);
        }
        if !same_text(history[i].sql.as_str(), sql) {
            left.push(history[i].copy());
            assert(history_model(left@) =~= before.push(history@[i as int]@));
        }
        i = i + 1;
    }
    assert(all.take(i as int) =~= all);
    left
}

/// Whether the queries have more than [`MAX_HISTORY_BYTES`] together.
fn history_too_long(history: &Vec<QueryHistoryEntry>) -> (yes: bool)
    ensures
        yes == (history_bytes(history_model(history@)) > MAX_HISTORY_BYTES),
{
    let ghost all = history_model(history@);
    let mut total: usize = 0;
    let mut i: usize = 0;
    assert(all.take(0) =~= Seq::<HistoryModel>::empty());
    while i < history.len()
        invariant
            i <= history@.len(),
            all == history_model(history@),
            total == history_bytes(all.take(i as int)),
            total <= MAX_HISTORY_BYTES,
        decreases history@.len() - i,
    {
        let bytes: usize = utf8_len(history[i].sql.as_str());
        proof {
            assert(all.take(i + 1).drop_last() =~= all.take(i as int));
            assert(all.take(i + 1).last() == history@[i as int]@);
        }
        if bytes > MAX_HISTORY_BYTES - total {
            proof {
                lemma_history_bytes_prefix(all, i + 1);
            }
            return true;
        }
        total = total + bytes;
        i = i + 1;
    }
    assert(all.take(i as int) =~= all);
    false
}

proof fn lemma_history_bytes_prefix(history: Seq<HistoryModel>, k: int)
    requires
        0 <= k <= history.len(),
    ensures
        history_bytes(history.take(k)) <= history_bytes(history),
    decreases history.len() - k,
{
    if k == history.len() {
        assert(history.take(k) =~= history);
    } else {
        assert(history.take(k + 1).drop_last() =~= history.take(k));
        lemma_history_bytes_prefix(history, k + 1);
    }
}

fn trim_history(history: &mut Vec<QueryHistoryEntry>)
    ensures
        history_model(final(history)@) == trimmed_history(history_model(old(history)@)),
{
    let ghost all = history_model(history@);
    while history.len() > 0 && (history.len() > MAX_HISTORY_ENTRIES || history_too_long(history))
        invariant
            trimmed_history(history_model(history@)) == trimmed_history(all),
        decreases history@.len(),
    {
        let ghost before = history_model(history@);
        history.pop();
        assert(history_model(history@) =~= before.drop_last());
    }
}

fn distinct_files(files: &Vec<String>, available: &Vec<bool>) -> (kept: Vec<String>)
    requires
        available@.len() == files@.len(),
    ensures
        path_texts(kept@) == distinct_available(path_texts(files@), available@),
{
    let ghost all = path_texts(files@);
    let mut kept: Vec<String> = Vec::new();
    let mut i: usize = 0;
    assert(path_texts(kept@) =~= Seq::<Seq<char>>::empty());
    while i < files.len()
        invariant
            i <= files@.len(),
            available@.len() == files@.len(),
            all == path_texts(files@),
            path_texts(kept@) == distinct_available(all.take(i as int), available@.take(i as int)),
        decreases files@.len() - i,
    {
        let ghost before = path_texts(kept@);
        proof {
            assert(all.take(i + 1).drop_last() =~= all.take(i as int));
            assert(available@.take(i + 1).drop_last() =~= available@.take(i as int));
            assert(all.take(i + 1).last() == files@[i as int]@);
        }
        if available[i] && !holds_path(&kept, files[i].as_str()) {
            kept.push(files[i].as_str().to_owned());
            assert(path_texts(kept@) =~= before.push(files@[i as int]@));
        }
        i = i + 1;
    }
    assert(all.take(i as int) =~= all);
    assert(available@.take(i as int) =~= available@);
    kept
}

fn holds_path(files: &Vec<String>, path: &str) -> (held: bool)
    ensures
        held == lists_file(path_texts(files@), path@),
{
    let mut i: usize = 0;
    while i < files.len()
        invariant
            i <= files@.len(),
            forall|k: int| 0 <= k < i ==> !same_path(#[trigger] path_texts(files@)[k], path@),
        decreases files@.len() - i,
    {
        if is_same_path(files[i].as_str(), path) {
            assert(same_path(path_texts(files@)[i as int], path@));
            return true;
        }
        i = i + 1;
    }
    false
}

fn cut_files(files: &mut Vec<String>)
    ensures
        path_texts(final(files)@) == at_most(path_texts(old(files)@), MAX_RECENT_FILES as nat),
{
    let ghost all = files@;
    while files.len() > MAX_RECENT_FILES
        invariant
            files@.len() <= all.len(),
            files@ == all.take(files@.len() as int),
            all.len() > MAX_RECENT_FILES ==> files@.len() >= MAX_RECENT_FILES,
            all.len() <= MAX_RECENT_FILES ==> files@ == all,
        decreases files@.len(),
    {
        let ghost count = files@.len();
        files.pop();
        assert(files@ =~= all.take(count - 1));
    }
    assert(path_texts(files@) =~= at_most(path_texts(all), MAX_RECENT_FILES as nat));
}

fn usable_queries(history: &Vec<QueryHistoryEntry>) -> (kept: Vec<QueryHistoryEntry>)
    ensures
        history_model(kept@) == bounded_queries(written_queries(history_model(history@))),
{
    let ghost all = history_model(history@);
    let mut kept: Vec<QueryHistoryEntry> = Vec::new();
    let mut i: usize = 0;
    assert(history_model(kept@) =~= bounded_queries(written_queries(all.take(0))));
    while i < history.len()
        invariant
            i <= history@.len(),
            all == history_model(history@),
            history_model(kept@) == bounded_queries(written_queries(all.take(i as int))),
        decreases history@.len() - i,
    {
        let ghost before = history_model(kept@);
        proof {
            assert(all.take(i + 1).drop_last() =~= all.take(i as int));
            assert(all.take(i + 1).last() == history@[i as int]@);
        }
        let text = trim(history[i].sql.as_str());
        if chars_of(text.as_str()).len() > 0 {
            let mut entry = history[i].copy();
            entry.sql = bounded_text(entry.sql.as_str(), MAX_QUERY_BYTES);
            let ghost model = entry@;
            kept.push(entry);
            assert(history_model(kept@) =~= before.push(model));
            assert(bounded_queries(written_queries(all.take(i + 1))) =~= before.push(model));
        }
        i = i + 1;
    }
    assert(all.take(i as int) =~= all);
    kept
}

impl SessionState {
    /// A file was opened: it comes first among the recent ones.
    pub fn record_recent_file(&mut self, path: String)
        ensures
            final(self)@ == file_recorded(old(self)@, path@),
    {
        let left = remove_path(&self.recent_files, path.as_str());
        let copy = path.as_str().to_owned();
        let mut files: Vec<String> = Vec::new();
        files.push(path);
        let mut left = left;
        let ghost rest = path_texts(left@);
        let ghost head = files@;
        files.append(&mut left);
        assert(path_texts(files@) =~= seq![copy@] + rest);
        cut_files(&mut files);
        self.recent_files = files;
        self.last_opened_file = Some(copy);
    }

    /// A query was run: it comes first in the history, once.
    pub fn record_query(
        &mut self,
        sql: &str,
        timestamp_unix_secs: u64,
        duration_ms: u64,
        success: bool,
        row_count: Option<u64>,
    )
        ensures
            final(self)@ == query_recorded(
                old(self)@,
                HistoryModel { sql: sql@, timestamp_unix_secs, duration_ms, success, row_count },
            ),
    {
        let sql = bounded_text(sql, MAX_QUERY_BYTES);
        let text = trim(sql.as_str());
        if chars_of(text.as_str()).len() == 0 {
            return;
        }
        let mut left = remove_query(&self.query_history, sql.as_str());
        let ghost rest = history_model(left@);
        let entry = QueryHistoryEntry { sql, timestamp_unix_secs, duration_ms, success, row_count };
        let ghost first = entry@;
        let mut history: Vec<QueryHistoryEntry> = Vec::new();
        history.push(entry);
        history.append(&mut left);
        assert(history_model(history@) =~= seq![first] + rest);
        trim_history(&mut history);
        self.query_history = history;
    }

    pub fn clear_history(&mut self)
        ensures
            final(self)@ == (SessionModel { query_history: Seq::empty(), ..old(self)@ }),
    {
        self.query_history = Vec::new();
        assert(self@.query_history =~= Seq::<HistoryModel>::empty());
    }

    pub fn remove_history(&mut self, index: usize)
        ensures
            final(self)@ == (SessionModel {
                query_history: if index < old(self)@.query_history.len() {
                    old(self)@.query_history.remove(index as int)
                } else {
                    old(self)@.query_history
                },
                ..old(self)@
            }),
    {
        if index < self.query_history.len() {
            self.query_history.remove(index);
            assert(self@.query_history =~= old(self)@.query_history.remove(index as int));
        }
    }

    /// A file is not there any more.
    pub fn remove_recent_file(&mut self, path: &str)
        ensures
            final(self)@ == file_removed(old(self)@, path@),
    {
        let left = remove_path(&self.recent_files, path);
        self.recent_files = left;
        let was_last = match &self.last_opened_file {
            Some(last) => is_same_path(last.as_str(), path),
            None => false,
        };
        if was_last {
            self.last_opened_file = if self.recent_files.len() > 0 {
                Some(self.recent_files[0].as_str().to_owned())
            } else {
                None
            };
        }
    }

    /// Makes the session usable. `available` says of each recent file, and
    /// `last_available` of the last opened one, whether it is there.
    pub fn normalize(&mut self, available: &Vec<bool>, last_available: bool)
        requires
            available@.len() == old(self).recent_files@.len(),
        ensures
            final(self)@ == normalized(old(self)@, available@, last_available),
    {
        if self.version != SESSION_VERSION {
            *self = SessionState::default();
            return;
        }
        let mut files = distinct_files(&self.recent_files, available);
        cut_files(&mut files);
        self.recent_files = files;
        if !last_available {
            self.last_opened_file = None;
        }
        let input = bounded_text(self.sql_input.as_str(), MAX_QUERY_BYTES);
        self.sql_input = input;
        let mut history = usable_queries(&self.query_history);
        trim_history(&mut history);
        self.query_history = history;
    }

    /// The layout that is kept for these columns.
    pub fn grid_layout(&self, schema_key: &str) -> (layout: Option<&GridLayoutPreference>)
        ensures
            match layout {
                Some(layout) => self.grid_layouts@.contains(*layout) && layout.schema_key@
                    == schema_key@,
                None => forall|i: int|
                    0 <= i < self.grid_layouts@.len() ==> (
                    #[trigger] self.grid_layouts@[i]).schema_key@ != schema_key@,
            },
    {
        let mut i: usize = 0;
        while i < self.grid_layouts.len()
            invariant
                i <= self.grid_layouts@.len(),
                forall|k: int|
                    0 <= k < i ==> (#[trigger] self.grid_layouts@[k]).schema_key@ != schema_key@,
            decreases self.grid_layouts@.len() - i,
        {
            if same_text(self.grid_layouts[i].schema_key.as_str(), schema_key) {
                return Some(&self.grid_layouts[i]);
            }
            i = i + 1;
        }
        None
    }

    /// Keeps a layout in place of the one that was kept for the same columns.
    pub fn save_grid_layout(&mut self, layout: GridLayoutPreference)
        ensures
            final(self)@ == layout_saved(old(self)@, layout),
    {
        let ghost all = self.grid_layouts@;
        let ghost before = self@;
        let ghost key = layout.schema_key@;
        let mut layouts: Vec<GridLayoutPreference> = Vec::new();
        layouts.append(&mut self.grid_layouts);
        assert(layouts@ =~= all);
        let mut i: usize = 0;
        assert(layouts@.take(0) =~= Seq::<GridLayoutPreference>::empty());
        assert(layouts@.take(0) + layouts@.skip(0) =~= layouts@);
        assert(all.skip(0) =~= all);
        let ghost mut done: int = 0;
        while i < layouts.len()
            invariant
                key == layout.schema_key@,
                i <= layouts@.len(),
                0 <= done <= all.len(),
                layouts@.take(i as int) == without_layout(all.take(done), key),
                layouts@.skip(i as int) == all.skip(done),
            decreases layouts@.len() - i,
        {
            let ghost before_step = layouts@;
            proof {
                assert(layouts@.skip(i as int).len() == all.skip(done).len());
                assert(done < all.len());
                assert(layouts@.skip(i as int)[0] == all.skip(done)[0]);
                assert(all.take(done + 1).drop_last() =~= all.take(done));
                assert(all.take(done + 1).last() == layouts@[i as int]);
            }
            if same_text(layouts[i].schema_key.as_str(), layout.schema_key.as_str()) {
                layouts.remove(i);
                proof {
                    assert(layouts@.take(i as int) =~= before_step.take(i as int));
                    assert(layouts@.skip(i as int) =~= before_step.skip(i as int).skip(1));
                    assert(all.skip(done).skip(1) =~= all.skip(done + 1));
                }
            } else {
                i = i + 1;
                proof {
                    assert(layouts@.take(i as int) =~= before_step.take(i - 1).push(
                        before_step[i - 1],
                    ));
                    assert(layouts@.skip(i as int) =~= before_step.skip(i - 1).skip(1));
                    assert(all.skip(done).skip(1) =~= all.skip(done + 1));
                }
            }
            proof {
                done = done + 1;
            }
        }
        proof {
            assert(layouts@.skip(i as int).len() == 0);
            assert(all.take(done) =~= all);
            assert(layouts@.take(i as int) =~= layouts@);
        }
        layouts.push(layout);
        self.grid_layouts = layouts;
    }
}

/// The layouts for other columns.
pub open spec fn without_layout(
    layouts: Seq<GridLayoutPreference>,
    schema_key: Seq<char>,
) -> Seq<GridLayoutPreference>
    decreases layouts.len(),
{
    if layouts.len() == 0 {
        Seq::empty()
    } else if layouts.last().schema_key@ == schema_key {
        without_layout(layouts.drop_last(), schema_key)
    } else {
        without_layout(layouts.drop_last(), schema_key).push(layouts.last())
    }
}

/// The session that was read, from where it stands or from where it was being
/// written when that was interrupted; a fresh one where neither could be read.
pub fn recovered(primary: Option<SessionState>, temporary: Option<SessionState>) -> (state:
    SessionState)
    ensures
        state@ == match primary {
            Some(state) => state@,
            None => match temporary {
                Some(state) => state@,
                None => fresh_session(),
            },
        },
{
    match primary {
        Some(state) => state,
        None => match temporary {
            Some(state) => state,
            None => SessionState::default(),
        },
    }
}

} // verus!

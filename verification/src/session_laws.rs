//! What holds of a kept session whatever was recorded in it.

use crate::session::{
    at_most, bounded, bounded_queries, distinct_available, file_recorded, file_removed,
    history_bytes, is_written, layout_saved, lists_file, normalized, query_recorded, trimmed_history,
    without_file, without_layout, without_query, written_queries, GridLayoutPreference,
    HistoryModel, SessionModel, MAX_HISTORY_BYTES, MAX_HISTORY_ENTRIES, MAX_QUERY_BYTES,
    MAX_RECENT_FILES, SESSION_VERSION,
};
use crate::paths::same_path;
use crate::text::{
    byte_len, chars_within, is_blank, law_blank_text_is_trimmed_away, lemma_byte_len_prefix,
    lemma_chars_within,
};
use vstd::prelude::*;

verus! {

/// No query stands in the history twice.
pub open spec fn queries_distinct(history: Seq<HistoryModel>) -> bool {
    forall|i: int, j: int|
        0 <= i < j < history.len() ==> (#[trigger] history[i]).sql != (#[trigger] history[j]).sql
}

/// No file stands in a list twice, however its path is written.
pub open spec fn files_distinct(files: Seq<Seq<char>>) -> bool {
    forall|i: int, j: int|
        0 <= i < j < files.len() ==> !same_path(#[trigger] files[i], #[trigger] files[j])
}

proof fn lemma_listed_before(files: Seq<Seq<char>>, file: Seq<char>)
    requires
        files_distinct(files),
        !lists_file(files, file),
    ensures
        files_distinct(files.push(file)),
{
    let after = files.push(file);
    assert forall|i: int, j: int| 0 <= i < j < after.len() implies !same_path(
        #[trigger] after[i],
        #[trigger] after[j],
    ) by {
        if j < files.len() {
            assert(!same_path(files[i], files[j]));
        } else {
            assert(!same_path(files[i], file));
        }
    }
}

proof fn lemma_without_file(files: Seq<Seq<char>>, path: Seq<char>)
    ensures
        !lists_file(without_file(files, path), path),
        forall|i: int|
            0 <= i < without_file(files, path).len() ==> files.contains(
                #[trigger] without_file(files, path)[i],
            ),
        files_distinct(files) ==> files_distinct(without_file(files, path)),
    decreases files.len(),
{
    if files.len() > 0 {
        let init = files.drop_last();
        let before = without_file(init, path);
        let after = without_file(files, path);
        lemma_without_file(init, path);
        assert forall|i: int| 0 <= i < after.len() implies !same_path(#[trigger] after[i], path)
            && files.contains(after[i]) by {
            if i < before.len() {
                assert(after[i] == before[i]);
                assert(!same_path(before[i], path));
                let k = choose|k: int| 0 <= k < init.len() && init[k] == before[i];
                assert(files[k] == after[i]);
            } else {
                assert(files[files.len() - 1] == after[i]);
            }
        }
        if files_distinct(files) {
            assert forall|i: int, j: int| 0 <= i < j < init.len() implies !same_path(
                #[trigger] init[i],
                #[trigger] init[j],
            ) by {
                assert(!same_path(files[i], files[j]));
            }
            if !same_path(files.last(), path) {
                assert forall|i: int| 0 <= i < before.len() implies !same_path(
                    #[trigger] before[i],
                    files.last(),
                ) by {
                    let k = choose|k: int| 0 <= k < init.len() && init[k] == before[i];
                    assert(!same_path(files[k], files[files.len() - 1]));
                }
                lemma_listed_before(before, files.last());
            }
        }
    }
}

proof fn lemma_without_query(history: Seq<HistoryModel>, sql: Seq<char>)
    ensures
        forall|i: int|
            0 <= i < without_query(history, sql).len() ==> (#[trigger] without_query(
                history,
                sql,
            )[i]).sql != sql && history.contains(without_query(history, sql)[i]),
        queries_distinct(history) ==> queries_distinct(without_query(history, sql)),
    decreases history.len(),
{
    if history.len() > 0 {
        let init = history.drop_last();
        let before = without_query(init, sql);
        let after = without_query(history, sql);
        lemma_without_query(init, sql);
        assert forall|i: int| 0 <= i < after.len() implies (#[trigger] after[i]).sql != sql
            && history.contains(after[i]) by {
            if i < before.len() {
                assert(after[i] == before[i]);
                let k = choose|k: int| 0 <= k < init.len() && init[k] == before[i];
                assert(history[k] == after[i]);
            } else {
                assert(history[history.len() - 1] == after[i]);
            }
        }
        if queries_distinct(history) {
            assert forall|i: int, j: int| 0 <= i < j < init.len() implies (#[trigger] init[i]).sql != (
            #[trigger] init[j]).sql by {
                assert(history[i].sql != history[j].sql);
            }
            assert forall|i: int, j: int| 0 <= i < j < after.len() implies (#[trigger] after[i]).sql != (
            #[trigger] after[j]).sql by {
                if j < before.len() {
                    assert(before[i].sql != before[j].sql);
                } else {
                    assert(after[i] == before[i]);
                    let k = choose|k: int| 0 <= k < init.len() && init[k] == before[i];
                    assert(history[k].sql != history[history.len() - 1].sql);
                }
            }
        }
    }
}

proof fn lemma_trimmed_history(history: Seq<HistoryModel>)
    ensures
        trimmed_history(history).len() <= history.len(),
        trimmed_history(history) == history.take(trimmed_history(history).len() as int),
        trimmed_history(history).len() <= MAX_HISTORY_ENTRIES,
        history_bytes(trimmed_history(history)) <= MAX_HISTORY_BYTES,
        history.len() > 0 && byte_len(history[0].sql) <= MAX_HISTORY_BYTES
            ==> trimmed_history(history).len() > 0,
        trimmed_history(trimmed_history(history)) == trimmed_history(history),
    decreases history.len(),
{
    if history.len() == 0 {
        assert(history.take(0) =~= history);
    } else if history.len() > MAX_HISTORY_ENTRIES || history_bytes(history) > MAX_HISTORY_BYTES {
        let init = history.drop_last();
        lemma_trimmed_history(init);
        let kept = trimmed_history(init);
        assert(init.take(kept.len() as int) =~= history.take(kept.len() as int));
        if history.len() == 1 {
            assert(init =~= Seq::<HistoryModel>::empty());
            reveal_with_fuel(history_bytes, 2);
            assert(history.last() == history[0]);
        }
    } else {
        assert(history.take(history.len() as int) =~= history);
    }
}

proof fn lemma_bounded_len(value: Seq<char>, limit: nat)
    ensures
        byte_len(bounded(value, limit)) <= limit + 3,
{
    if byte_len(value) > limit && limit > 0 {
        let k = chars_within(value, (limit - 1) as nat) as int;
        lemma_chars_within(value, (limit - 1) as nat);
        if k == value.len() {
            assert(value.take(k) =~= value);
        }
        assert(value.take(k + 1).drop_last() =~= value.take(k));
    }
}

/// However many queries are recorded, the history holds no more than it may, in
/// number and in bytes.
pub proof fn law_history_is_bounded(session: SessionModel, entry: HistoryModel)
    requires
        is_written(bounded(entry.sql, MAX_QUERY_BYTES as nat)),
    ensures
        query_recorded(session, entry).query_history.len() <= MAX_HISTORY_ENTRIES,
        history_bytes(query_recorded(session, entry).query_history) <= MAX_HISTORY_BYTES,
{
    let sql = bounded(entry.sql, MAX_QUERY_BYTES as nat);
    lemma_trimmed_history(
        seq![HistoryModel { sql, ..entry }] + without_query(session.query_history, sql),
    );
}

/// The query that was recorded last stands first.
pub proof fn law_newest_query_comes_first(session: SessionModel, entry: HistoryModel)
    requires
        is_written(bounded(entry.sql, MAX_QUERY_BYTES as nat)),
    ensures
        query_recorded(session, entry).query_history.len() > 0,
        query_recorded(session, entry).query_history[0] == (HistoryModel {
            sql: bounded(entry.sql, MAX_QUERY_BYTES as nat),
            ..entry
        }),
{
    let sql = bounded(entry.sql, MAX_QUERY_BYTES as nat);
    let history = seq![HistoryModel { sql, ..entry }] + without_query(session.query_history, sql);
    lemma_bounded_len(entry.sql, MAX_QUERY_BYTES as nat);
    lemma_trimmed_history(history);
}

/// A query that is run again moves to the front instead of being listed twice.
pub proof fn law_queries_stay_distinct(session: SessionModel, entry: HistoryModel)
    requires
        queries_distinct(session.query_history),
    ensures
        queries_distinct(query_recorded(session, entry).query_history),
{
    let sql = bounded(entry.sql, MAX_QUERY_BYTES as nat);
    let rest = without_query(session.query_history, sql);
    let history = seq![HistoryModel { sql, ..entry }] + rest;
    lemma_without_query(session.query_history, sql);
    lemma_trimmed_history(history);
    if is_written(sql) {
        assert forall|i: int, j: int| 0 <= i < j < history.len() implies (#[trigger] history[i]).sql != (
        #[trigger] history[j]).sql by {
            assert(history[j] == rest[j - 1]);
            if i > 0 {
                assert(history[i] == rest[i - 1]);
            }
        }
    }
}

/// A file that was opened comes first among the recent ones, which stay distinct
/// and few.
pub proof fn law_recent_files_are_distinct(session: SessionModel, path: Seq<char>)
    requires
        files_distinct(session.recent_files),
    ensures
        files_distinct(file_recorded(session, path).recent_files),
        file_recorded(session, path).recent_files.len() <= MAX_RECENT_FILES,
        file_recorded(session, path).recent_files[0] == path,
        file_recorded(session, path).last_opened_file == Some(path),
{
    let rest = without_file(session.recent_files, path);
    let files = seq![path] + rest;
    lemma_without_file(session.recent_files, path);
    assert forall|i: int, j: int| 0 <= i < j < files.len() implies !same_path(
        #[trigger] files[i],
        #[trigger] files[j],
    ) by {
        assert(files[j] == rest[j - 1]);
        if i > 0 {
            assert(files[i] == rest[i - 1]);
        } else {
            assert(!same_path(rest[j - 1], path));
        }
    }
}

/// A file that was forgotten is not listed any more, nor is it the last opened
/// one, however its path is written.
pub proof fn law_removed_file_is_gone(session: SessionModel, path: Seq<char>)
    ensures
        !lists_file(file_removed(session, path).recent_files, path),
        file_removed(session, path).last_opened_file is Some ==> !same_path(
            file_removed(session, path).last_opened_file->0,
            path,
        ),
{
    lemma_without_file(session.recent_files, path);
    let left = without_file(session.recent_files, path);
    if left.len() > 0 {
        assert(!same_path(left[0], path));
    }
}

proof fn lemma_bounded_idempotent(value: Seq<char>, limit: nat)
    ensures
        bounded(bounded(value, limit), limit) == bounded(value, limit),
{
    if byte_len(value) > limit && limit > 0 {
        let once = bounded(value, limit);
        let k = chars_within(value, (limit - 1) as nat) as int;
        lemma_chars_within(value, (limit - 1) as nat);
        if k == value.len() {
            assert(value.take(k) =~= value);
        }
        if byte_len(once) > limit {
            let j = chars_within(once, (limit - 1) as nat) as int;
            lemma_chars_within(once, (limit - 1) as nat);
            assert(once.take(k) =~= value.take(k));
            if j < k {
                assert(once.take(j + 1) =~= value.take(k).take(j + 1));
                lemma_byte_len_prefix(value.take(k), j + 1);
                assert(false);
            }
            if j > k {
                assert(once.take(j) =~= once);
                assert(false);
            }
            assert(once.take(k + 1) =~= once);
        }
    } else if byte_len(value) > limit {
        assert(byte_len(Seq::<char>::empty()) == 0);
    }
}

proof fn lemma_written_all(history: Seq<HistoryModel>)
    requires
        forall|i: int| 0 <= i < history.len() ==> is_written((#[trigger] history[i]).sql),
    ensures
        written_queries(history) == history,
    decreases history.len(),
{
    if history.len() > 0 {
        let init = history.drop_last();
        assert forall|i: int| 0 <= i < init.len() implies is_written((#[trigger] init[i]).sql) by {
            assert(init[i] == history[i]);
        }
        lemma_written_all(init);
        assert(is_written(history[history.len() - 1].sql));
        assert(init.push(history.last()) =~= history);
    } else {
        assert(written_queries(history) =~= history);
    }
}

proof fn lemma_distinct_available(files: Seq<Seq<char>>, available: Seq<bool>)
    ensures
        files_distinct(distinct_available(files, available)),
    decreases files.len(),
{
    if files.len() > 0 && available.len() == files.len() {
        lemma_distinct_available(files.drop_last(), available.drop_last());
        let before = distinct_available(files.drop_last(), available.drop_last());
        if !lists_file(before, files.last()) {
            lemma_listed_before(before, files.last());
        }
    }
}

proof fn lemma_all_available(files: Seq<Seq<char>>)
    requires
        files_distinct(files),
    ensures
        distinct_available(files, Seq::new(files.len(), |i: int| true)) == files,
    decreases files.len(),
{
    let flags = Seq::new(files.len(), |i: int| true);
    if files.len() > 0 {
        let init = files.drop_last();
        assert forall|i: int, j: int| 0 <= i < j < init.len() implies !same_path(
            #[trigger] init[i],
            #[trigger] init[j],
        ) by {
            assert(!same_path(files[i], files[j]));
        }
        lemma_all_available(init);
        assert(flags.drop_last() =~= Seq::new(init.len(), |i: int| true));
        assert forall|i: int| 0 <= i < init.len() implies !same_path(
            #[trigger] init[i],
            files.last(),
        ) by {
            assert(!same_path(files[i], files[files.len() - 1]));
        }
        assert(init.push(files.last()) =~= files);
    } else {
        assert(distinct_available(files, flags) =~= files);
    }
}

proof fn lemma_written_kept(history: Seq<HistoryModel>)
    ensures
        forall|i: int|
            0 <= i < written_queries(history).len() ==> history.contains(
                #[trigger] written_queries(history)[i],
            ),
    decreases history.len(),
{
    if history.len() > 0 {
        let init = history.drop_last();
        let before = written_queries(init);
        let after = written_queries(history);
        lemma_written_kept(init);
        assert forall|i: int| 0 <= i < after.len() implies history.contains(#[trigger] after[i]) by {
            if i < before.len() {
                assert(after[i] == before[i]);
                let k = choose|k: int| 0 <= k < init.len() && init[k] == before[i];
                assert(history[k] == after[i]);
            } else {
                assert(history[history.len() - 1] == after[i]);
            }
        }
    }
}

/// A session that was made usable stays as it is when it is made usable again, as
/// long as its files stay there. Left out are queries of which only white space
/// is left once they are cut.
pub proof fn law_normalize_is_idempotent(
    session: SessionModel,
    available: Seq<bool>,
    last_available: bool,
)
    requires
        forall|i: int|
            0 <= i < session.query_history.len() && is_written(
                (#[trigger] session.query_history[i]).sql,
            ) ==> is_written(bounded(session.query_history[i].sql, MAX_QUERY_BYTES as nat)),
    ensures
        ({
            let once = normalized(session, available, last_available);
            normalized(once, Seq::new(once.recent_files.len(), |i: int| true), true) == once
        }),
{
    let once = normalized(session, available, last_available);
    let flags = Seq::new(once.recent_files.len(), |i: int| true);
    let limit = MAX_QUERY_BYTES as nat;
    if session.version != SESSION_VERSION {
        assert(distinct_available(once.recent_files, flags) =~= Seq::<Seq<char>>::empty());
        assert(written_queries(once.query_history) =~= Seq::<HistoryModel>::empty());
        assert(bounded_queries(written_queries(once.query_history)) =~= Seq::<
            HistoryModel,
        >::empty());
        assert(normalized(once, flags, true) =~= once);
    } else {
        lemma_distinct_available(session.recent_files, available);
        assert(files_distinct(once.recent_files));
        lemma_all_available(once.recent_files);
        lemma_bounded_idempotent(session.sql_input, limit);
        let kept = written_queries(session.query_history);
        let cut = bounded_queries(kept);
        lemma_trimmed_history(cut);
        lemma_written_kept(session.query_history);
        let history = once.query_history;
        assert forall|i: int| 0 <= i < history.len() implies is_written((#[trigger] history[i]).sql)
            && bounded(history[i].sql, limit) == history[i].sql by {
            assert(history[i] == cut[i]);
            assert(cut[i].sql == bounded(kept[i].sql, limit));
            lemma_bounded_idempotent(kept[i].sql, limit);
            let k = choose|k: int|
                0 <= k < session.query_history.len() && session.query_history[k] == kept[i];
            lemma_written_is(session.query_history, i);
            assert(is_written(session.query_history[k].sql));
        }
        lemma_written_all(history);
        assert(bounded_queries(history) =~= history);
        assert(normalized(once, flags, true) =~= once);
    }
}

proof fn lemma_written_is(history: Seq<HistoryModel>, i: int)
    requires
        0 <= i < written_queries(history).len(),
    ensures
        is_written(written_queries(history)[i].sql),
    decreases history.len(),
{
    if history.len() > 0 {
        let before = written_queries(history.drop_last());
        if i < before.len() {
            lemma_written_is(history.drop_last(), i);
        }
    }
}

/// A usable session is bounded: few distinct files, and a short history.
pub proof fn law_normalized_session_is_bounded(
    session: SessionModel,
    available: Seq<bool>,
    last_available: bool,
)
    ensures
        ({
            let usable = normalized(session, available, last_available);
            &&& usable.version == SESSION_VERSION
            &&& usable.recent_files.len() <= MAX_RECENT_FILES
            &&& files_distinct(usable.recent_files)
            &&& usable.query_history.len() <= MAX_HISTORY_ENTRIES
            &&& history_bytes(usable.query_history) <= MAX_HISTORY_BYTES
            &&& byte_len(usable.sql_input) <= MAX_QUERY_BYTES + 3
        }),
{
    lemma_distinct_available(session.recent_files, available);
    lemma_trimmed_history(bounded_queries(written_queries(session.query_history)));
    lemma_bounded_len(session.sql_input, MAX_QUERY_BYTES as nat);
    assert(byte_len(Seq::<char>::empty()) == 0);
    assert(history_bytes(Seq::<HistoryModel>::empty()) == 0);
}

/// A file that is opened or forgotten leaves all others as they are, in their order.
pub proof fn law_other_files_stay(files: Seq<Seq<char>>, path: Seq<char>)
    ensures
        without_file(files, path) == files.filter(|file: Seq<char>| !same_path(file, path)),
    decreases files.len(),
{
    reveal(Seq::filter);
    if files.len() > 0 {
        law_other_files_stay(files.drop_last(), path);
    }
}

/// A query that is run leaves the entries of all others as they are, in their order.
pub proof fn law_other_queries_stay(history: Seq<HistoryModel>, sql: Seq<char>)
    ensures
        without_query(history, sql) == history.filter(|entry: HistoryModel| entry.sql != sql),
    decreases history.len(),
{
    reveal(Seq::filter);
    if history.len() > 0 {
        law_other_queries_stay(history.drop_last(), sql);
    }
}

/// Entries are dropped only for holding nothing but white space.
pub proof fn law_written_queries_stay(history: Seq<HistoryModel>)
    ensures
        written_queries(history) == history.filter(
            |entry: HistoryModel| !is_blank(entry.sql),
        ),
    decreases history.len(),
{
    reveal(Seq::filter);
    if history.len() > 0 {
        law_written_queries_stay(history.drop_last());
        law_blank_text_is_trimmed_away(history.last().sql);
    }
}

/// The oldest queries leave the history, and only as long as there are more of them, or
/// more bytes, than there may be.
pub proof fn law_oldest_queries_leave_first(history: Seq<HistoryModel>)
    ensures
        exists|left: int|
            0 <= left <= history.len() && trimmed_history(history) == #[trigger] history.take(left)
                && forall|k: int|
                left < k <= history.len() ==> k > MAX_HISTORY_ENTRIES || history_bytes(
                    #[trigger] history.take(k),
                ) > MAX_HISTORY_BYTES,
    decreases history.len(),
{
    let whole = history.len() as int;
    assert(history.take(whole) =~= history);
    if history.len() > 0 && (history.len() > MAX_HISTORY_ENTRIES || history_bytes(history)
        > MAX_HISTORY_BYTES) {
        let rest = history.drop_last();
        law_oldest_queries_leave_first(rest);
        let left = choose|left: int|
            0 <= left <= rest.len() && trimmed_history(rest) == #[trigger] rest.take(left)
                && forall|k: int|
                left < k <= rest.len() ==> k > MAX_HISTORY_ENTRIES || history_bytes(
                    #[trigger] rest.take(k),
                ) > MAX_HISTORY_BYTES;
        assert(history.take(left) =~= rest.take(left));
        assert forall|k: int| left < k <= history.len() implies k > MAX_HISTORY_ENTRIES
            || history_bytes(#[trigger] history.take(k)) > MAX_HISTORY_BYTES by {
            if k < whole {
                assert(history.take(k) =~= rest.take(k));
            }
        }
    }
}

/// Where there are too many files, the first ones stay.
pub proof fn law_first_files_stay(files: Seq<Seq<char>>, count: nat)
    ensures
        at_most(files, count).is_prefix_of(files),
        at_most(files, count).len() == if files.len() < count {
            files.len()
        } else {
            count
        },
{
    if files.len() > count {
        assert(files.take(count as int).is_prefix_of(files));
    }
}

/// The files that are kept when a session is read are those that are there, each where it
/// first stands: no other file is left out.
pub proof fn law_available_files_stay(files: Seq<Seq<char>>, available: Seq<bool>, i: int)
    requires
        files.len() == available.len(),
        0 <= i < files.len(),
    ensures
        available[i] ==> lists_file(distinct_available(files, available), files[i]),
        forall|k: int|
            0 <= k < distinct_available(files, available).len() ==> exists|j: int|
                0 <= j < files.len() && available[j] && #[trigger] files[j]
                    == #[trigger] distinct_available(files, available)[k],
    decreases files.len(),
{
    let init = files.drop_last();
    let there = available.drop_last();
    let before = distinct_available(init, there);
    let all = distinct_available(files, available);
    let last = files.len() - 1;
    if i < last {
        law_available_files_stay(init, there, i);
    } else if last > 0 {
        law_available_files_stay(init, there, 0);
    }
    if available[i] {
        if i < last {
            let k = choose|k: int| 0 <= k < before.len() && same_path(#[trigger] before[k], init[i]);
            assert(all[k] == before[k]);
            assert(same_path(all[k], files[i]));
        } else if lists_file(before, files[last]) {
            let k = choose|k: int| 0 <= k < before.len() && same_path(#[trigger] before[k], files[last]);
            assert(same_path(all[k], files[i]));
        } else {
            assert(same_path(all[before.len() as int], files[i]));
        }
    }
    assert forall|k: int| 0 <= k < all.len() implies exists|j: int|
        0 <= j < files.len() && available[j] && #[trigger] files[j] == #[trigger] all[k] by {
        if k < before.len() {
            let j = choose|j: int|
                0 <= j < init.len() && there[j] && #[trigger] init[j] == before[k];
            assert(files[j] == all[k] && available[j]);
        } else {
            assert(files[last] == all[k] && available[last]);
        }
    }
}

/// A query that has too many bytes is cut: what is kept are the characters that begin
/// within the bytes, all of them and no others.
pub proof fn law_long_query_is_cut(value: Seq<char>, limit: nat)
    ensures
        bounded(value, limit).is_prefix_of(value),
        byte_len(value) <= limit ==> bounded(value, limit) == value,
        byte_len(value) > limit ==> ({
            let kept = bounded(value, limit).len() as int;
            &&& byte_len(value.take(kept)) >= limit
            &&& kept > 0 ==> byte_len(value.take(kept - 1)) < limit
        }),
{
    if byte_len(value) > limit {
        if limit == 0 {
            assert(value.take(0) =~= Seq::<char>::empty());
        } else {
            let k = chars_within(value, (limit - 1) as nat) as int;
            lemma_chars_within(value, (limit - 1) as nat);
            if k == value.len() {
                assert(value.take(k) =~= value);
            }
        }
    }
}

/// A layout takes the place of the one for the same columns only.
pub proof fn law_other_layouts_stay(layouts: Seq<GridLayoutPreference>, schema_key: Seq<char>)
    ensures
        without_layout(layouts, schema_key) == layouts.filter(
            |layout: GridLayoutPreference| layout.schema_key@ != schema_key,
        ),
    decreases layouts.len(),
{
    reveal(Seq::filter);
    if layouts.len() > 0 {
        law_other_layouts_stay(layouts.drop_last(), schema_key);
    }
}

/// A layout that is saved is kept, behind those for other columns, and the session stays as
/// it is otherwise.
pub proof fn law_saved_layout_is_kept(session: SessionModel, layout: GridLayoutPreference)
    ensures
        ({
            let saved = layout_saved(session, layout);
            &&& saved.grid_layouts.len() > 0
            &&& saved.grid_layouts.last() == layout
            &&& saved.grid_layouts.drop_last() == without_layout(
                session.grid_layouts,
                layout.schema_key@,
            )
            &&& saved.recent_files == session.recent_files
            &&& saved.query_history == session.query_history
            &&& saved.last_opened_file == session.last_opened_file
        }),
{
    let others = without_layout(session.grid_layouts, layout.schema_key@);
    assert(others.push(layout).drop_last() =~= others);
}

} // verus!

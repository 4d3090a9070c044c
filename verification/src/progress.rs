//! What a query returns as a whole, whatever the order in which its reads are
//! submitted and answered.

use crate::batch::{batch_rows, lemma_rows_of_concat, lemma_rows_of_one, rows_of, Batch};
use crate::execution::{
    delivered, execution_start, rows_granted, rows_wanted, scheduled,
    stepped, submitted, tagged, with_rows, ExecutionState, QueryEngine, ReadRequest, StepModel,
};
use crate::page::{page_start, smaller, PAGE_ROWS};
use crate::planner::PhysicalPlan;
use crate::runtime::{PageOutcome, PageResponse, TaskId};
use vstd::prelude::*;

verus! {

/// Something that happens to a query.
pub enum ExecutionEvent {
    /// It is asked what to do next.
    Step,
    /// The read that it asked for was submitted.
    Submitted(TaskId),
    /// The read was answered.
    Delivered(PageResponse),
    /// It is cancelled.
    Cancelled,
}

/// A query and what it has handed out.
pub struct Progress {
    pub state: ExecutionState,
    pub emitted: Seq<Seq<Seq<u8>>>,
    /// Whether it has said that there are no more rows.
    pub complete: bool,
}

/// The query after an event.
pub open spec fn progressed(plan: PhysicalPlan, before: Progress, event: ExecutionEvent) -> Progress {
    match event {
        ExecutionEvent::Step => {
            let (state, outcome) = stepped(before.state, plan);
            Progress {
                state,
                emitted: match outcome {
                    StepModel::Rows(_, rows) => before.emitted + rows,
                    _ => before.emitted,
                },
                complete: before.complete || outcome is Finished,
            }
        },
        ExecutionEvent::Submitted(task_id) => {
            let (state, request) = scheduled(before.state, plan);
            Progress {
                state: match request {
                    Some(request) => submitted(state, request, task_id),
                    None => state,
                },
                ..before
            }
        },
        ExecutionEvent::Delivered(response) => Progress {
            state: match delivered(before.state, response) {
                Ok(state) => state,
                Err(_) => ExecutionState { pending: None, ..before.state },
            },
            ..before
        },
        ExecutionEvent::Cancelled => Progress {
            state: ExecutionState { cancelled: true, ..before.state },
            ..before
        },
    }
}

/// The query after a series of events.
pub open spec fn run(engine: QueryEngine, plan: PhysicalPlan, events: Seq<ExecutionEvent>) -> Progress
    decreases events.len(),
{
    if events.len() == 0 {
        Progress { state: execution_start(engine, plan), emitted: Seq::empty(), complete: false }
    } else {
        progressed(plan, run(engine, plan, events.drop_last()), events.last())
    }
}

/// Whether an answer is what a read asks for, where `rows` are all rows that the
/// query would return without its limit.
pub open spec fn answers(
    request: ReadRequest,
    rows: Seq<Seq<Seq<u8>>>,
    outcome: PageOutcome,
) -> bool {
    let count = rows.len() as int;
    match request {
        ReadRequest::Page { page_index } => outcome matches PageOutcome::Loaded(page) && rows_of(
            page.batches@,
        ) == rows.subrange(
            smaller(page_start(page_index), count),
            smaller(page_start(page_index) + PAGE_ROWS, count),
        ) && forall|i: int|
            0 <= i < page.batches@.len() ==> batch_rows(#[trigger] page.batches@[i]).len() > 0,
        ReadRequest::Window { first_row, row_count } => outcome matches PageOutcome::Batch(batch)
            && batch_rows(batch) == rows.subrange(
            smaller(first_row as int, count),
            smaller(first_row + row_count, count),
        ),
        ReadRequest::Filtered { first_match_offset, row_count } => {
            outcome matches PageOutcome::Batch(batch) && batch_rows(batch) == rows.subrange(
                smaller(first_match_offset as int, count),
                smaller(first_match_offset + row_count, count),
            )
        },
        ReadRequest::Sorted { .. } => outcome matches PageOutcome::Batches(batches) && rows_of(batches@)
            == rows,
        ReadRequest::Aggregated { .. } => outcome matches PageOutcome::Batch(batch) && batch_rows(batch)
            == rows,
    }
}

/// Whether an event happens as it should: a read is submitted when the query
/// asks for one, and its answer is what it asks for.
pub open spec fn faithful(
    plan: PhysicalPlan,
    rows: Seq<Seq<Seq<u8>>>,
    before: Progress,
    event: ExecutionEvent,
) -> bool {
    match event {
        ExecutionEvent::Submitted(_) => before.state.buffered.len() == 0,
        ExecutionEvent::Delivered(response) => before.state.pending matches Some((_, request))
            && answers(request, rows, response.outcome),
        _ => true,
    }
}

/// Whether every event of a series happens as it should.
pub open spec fn faithful_run(
    engine: QueryEngine,
    plan: PhysicalPlan,
    rows: Seq<Seq<Seq<u8>>>,
    events: Seq<ExecutionEvent>,
) -> bool
    decreases events.len(),
{
    events.len() == 0 || (faithful_run(engine, plan, rows, events.drop_last()) && faithful(
        plan,
        rows,
        run(engine, plan, events.drop_last()),
        events.last(),
    ))
}

/// The rows that a query returns: all, or as many as its limit allows.
pub open spec fn within_limit(plan: PhysicalPlan, rows: Seq<Seq<Seq<u8>>>) -> Seq<Seq<Seq<u8>>> {
    match plan.limit {
        Some(limit) => rows.take(smaller(limit as int, rows.len() as int)),
        None => rows,
    }
}

/// Whether the plan reads pages: it neither filters, sorts nor aggregates.
pub open spec fn plain(plan: PhysicalPlan) -> bool {
    plan.aggregate is None && plan.sort is None && plan.filter is None
}

// ---------------------------------------------------------------------------
// The invariant
// ---------------------------------------------------------------------------

spec fn waiting(state: ExecutionState) -> Seq<Seq<Seq<u8>>> {
    rows_of(untagged(state.buffered))
}

spec fn untagged(items: Seq<(TaskId, Batch)>) -> Seq<Batch> {
    items.map_values(|item: (TaskId, Batch)| item.1)
}

spec fn nonempty(items: Seq<(TaskId, Batch)>) -> bool {
    forall|i: int| 0 <= i < items.len() ==> batch_rows((#[trigger] items[i]).1).len() > 0
}

/// How far the reads have come.
spec fn covered(plan: PhysicalPlan, state: ExecutionState, rows: Seq<Seq<Seq<u8>>>, read: int) -> bool {
    let count = rows.len() as int;
    if plan.aggregate is Some {
        if state.aggregate_submitted {
            state.pending matches Some((_, request)) && request is Aggregated && read == 0
        } else {
            state.pending is None && read == 0
        }
    } else if plan.sort is Some {
        if state.sort_submitted {
            state.pending matches Some((_, request)) && request is Sorted && read == 0
        } else {
            state.pending is None && read == 0
        }
    } else if plan.filter is Some {
        read == state.next_filter_offset && match state.pending {
            Some((_, request)) => request == (ReadRequest::Filtered {
                first_match_offset: state.next_filter_offset,
                row_count: rows_wanted(state.remaining) as usize,
            }),
            None => true,
        }
    } else {
        match state.pending {
            Some((_, request)) => state.next_page > 0 && (state.next_page - 1) * PAGE_ROWS < count
                && read == (state.next_page - 1) * PAGE_ROWS && request == (if rows_wanted(
                state.remaining,
            ) < PAGE_ROWS {
                ReadRequest::Window {
                    first_row: ((state.next_page - 1) * PAGE_ROWS) as u64,
                    row_count: rows_wanted(state.remaining) as usize,
                }
            } else {
                ReadRequest::Page { page_index: (state.next_page - 1) as u64 }
            }),
            None => read == smaller(state.next_page * PAGE_ROWS, count) || (state.remaining matches Some(
                left,
            ) && 0 < left <= waiting(state).len()),
        }
    }
}

spec fn sound(plan: PhysicalPlan, rows: Seq<Seq<Seq<u8>>>, progress: Progress) -> bool {
    let state = progress.state;
    let read = progress.emitted + waiting(state);
    &&& nonempty(state.buffered)
    &&& read.len() <= rows.len()
    &&& read == rows.take(read.len() as int)
    &&& match plan.limit {
        Some(limit) => state.remaining is Some && progress.emitted.len() + state.remaining->0
            == limit,
        None => state.remaining is None,
    }
    &&& state.remaining == Some(0usize) ==> state.buffered.len() == 0 && state.pending is None
    &&& state.pending is Some ==> !state.finished && state.buffered.len() == 0
    &&& state.finished ==> state.remaining == Some(0usize) || read.len() == rows.len()
    &&& !state.finished && state.remaining != Some(0usize) ==> covered(
        plan,
        state,
        rows,
        read.len() as int,
    )
    &&& progress.complete ==> progress.emitted == within_limit(plan, rows)
        && state.buffered.len() == 0 && state.finished
}

proof fn lemma_first_waiting(items: Seq<(TaskId, Batch)>)
    requires
        items.len() > 0,
    ensures
        rows_of(untagged(items)) == batch_rows(items[0].1) + rows_of(untagged(items.drop_first())),
{
    lemma_rows_of_one(items[0].1);
    lemma_rows_of_concat(seq![items[0].1], untagged(items.drop_first()));
    assert(untagged(items) =~= seq![items[0].1] + untagged(items.drop_first()));
}

proof fn lemma_with_rows(batches: Seq<Batch>)
    ensures
        rows_of(with_rows(batches)) == rows_of(batches),
        forall|i: int|
            0 <= i < with_rows(batches).len() ==> batch_rows(#[trigger] with_rows(batches)[i]).len()
                > 0,
    decreases batches.len(),
{
    if batches.len() > 0 {
        lemma_with_rows(batches.drop_last());
        let init = with_rows(batches.drop_last());
        if batch_rows(batches.last()).len() > 0 {
            assert(init.push(batches.last()).drop_last() =~= init);
        } else {
            assert(rows_of(batches.drop_last()) + batch_rows(batches.last()) =~= rows_of(
                batches.drop_last(),
            ));
        }
    }
}

proof fn lemma_tagged(batches: Seq<Batch>, task_id: TaskId)
    ensures
        untagged(tagged(batches, task_id)) == batches,
        untagged(Seq::<(TaskId, Batch)>::empty() + tagged(batches, task_id)) == batches,
        (forall|i: int| 0 <= i < batches.len() ==> batch_rows(#[trigger] batches[i]).len() > 0)
            ==> nonempty(Seq::<(TaskId, Batch)>::empty() + tagged(batches, task_id)),
{
    assert(untagged(tagged(batches, task_id)) =~= batches);
    assert(untagged(Seq::<(TaskId, Batch)>::empty() + tagged(batches, task_id)) =~= batches);
}

proof fn lemma_limited_sound(plan: PhysicalPlan, rows: Seq<Seq<Seq<u8>>>, before: Progress)
    requires
        sound(plan, rows, before),
        !before.state.cancelled,
        before.state.buffered.len() > 0,
    ensures
        sound(plan, rows, progressed(plan, before, ExecutionEvent::Step)),
{
    let state = before.state;
    let (task_id, batch) = state.buffered[0];
    let granted = rows_granted(state.remaining, batch_rows(batch).len() as int);
    let after = progressed(plan, before, ExecutionEvent::Step);
    lemma_first_waiting(state.buffered);
    assert(batch_rows(state.buffered[0].1).len() > 0);
    assert(granted > 0);
    let part = batch_rows(batch).take(granted);
    assert(after.emitted == before.emitted + part);
    let read = before.emitted + waiting(state);
    assert(read == rows.take(read.len() as int));
    if granted == batch_rows(batch).len() && (state.remaining is None || state.remaining->0
        > granted) {
        assert(part =~= batch_rows(batch));
        assert(after.emitted + waiting(after.state) =~= read);
        assert forall|i: int| 0 <= i < after.state.buffered.len() implies batch_rows(
            (#[trigger] after.state.buffered[i]).1,
        ).len() > 0 by {
            assert(after.state.buffered[i] == state.buffered[i + 1]);
        }
    } else {
        assert(state.remaining == Some(granted as usize));
        assert(untagged(after.state.buffered) =~= Seq::<Batch>::empty());
        assert(after.emitted + waiting(after.state) =~= after.emitted);
        assert forall|i: int| 0 <= i < after.emitted.len() implies after.emitted[i] == rows[i] by {
            assert(after.emitted[i] == read[i]);
            assert(read[i] == rows.take(read.len() as int)[i]);
        }
        assert(after.emitted =~= rows.take(after.emitted.len() as int));
    }
}

proof fn lemma_finished_complete(plan: PhysicalPlan, rows: Seq<Seq<Seq<u8>>>, progress: Progress)
    requires
        sound(plan, rows, progress),
        progress.state.finished,
        progress.state.buffered.len() == 0,
    ensures
        progress.emitted == within_limit(plan, rows),
{
    assert(untagged(progress.state.buffered) =~= Seq::<Batch>::empty());
    assert(progress.emitted + waiting(progress.state) =~= progress.emitted);
    if progress.emitted.len() == rows.len() {
        assert(rows.take(rows.len() as int) =~= rows);
    }
}

proof fn lemma_page_start(state: ExecutionState, plan: PhysicalPlan)
    ensures
        page_start(state.next_page) >= plan.source.row_count <==> state.next_page * PAGE_ROWS
            >= plan.source.row_count,
        page_start(state.next_page) < plan.source.row_count ==> page_start(state.next_page)
            == state.next_page * PAGE_ROWS,
{
}

proof fn lemma_scheduled_sound(plan: PhysicalPlan, rows: Seq<Seq<Seq<u8>>>, before: Progress)
    requires
        sound(plan, rows, before),
        before.state.buffered.len() == 0,
        plain(plan) ==> rows.len() == plan.source.row_count,
    ensures
        sound(
            plan,
            rows,
            Progress { state: scheduled(before.state, plan).0, ..before },
        ),
{
    let state = before.state;
    let next = scheduled(state, plan).0;
    let after = Progress { state: next, ..before };
    assert(untagged(state.buffered) =~= Seq::<Batch>::empty());
    assert(before.emitted + waiting(state) =~= before.emitted);
    assert(waiting(next) == waiting(state));
    lemma_page_start(state, plan);
}

proof fn lemma_submitted_sound(
    plan: PhysicalPlan,
    rows: Seq<Seq<Seq<u8>>>,
    before: Progress,
    task_id: TaskId,
)
    requires
        sound(plan, rows, before),
        before.state.buffered.len() == 0,
        plain(plan) ==> rows.len() == plan.source.row_count,
    ensures
        sound(plan, rows, progressed(plan, before, ExecutionEvent::Submitted(task_id))),
{
    let state = before.state;
    let after = progressed(plan, before, ExecutionEvent::Submitted(task_id));
    lemma_scheduled_sound(plan, rows, before);
    assert(waiting(after.state) == waiting(state));
    assert(untagged(state.buffered) =~= Seq::<Batch>::empty());
    assert(before.emitted + waiting(state) =~= before.emitted);
    lemma_page_start(state, plan);
    if let Some(request) = scheduled(state, plan).1 {
        if plain(plan) {
            assert(state.next_page < u64::MAX) by (nonlinear_arith)
                requires
                    state.next_page * PAGE_ROWS < plan.source.row_count,
                    PAGE_ROWS == 4096,
            ;
            assert(after.state.next_page == state.next_page + 1);
        }
    }
}

/// The rows that are read become the rows up to `read + part.len()`.
proof fn lemma_extended(
    rows: Seq<Seq<Seq<u8>>>,
    emitted: Seq<Seq<Seq<u8>>>,
    part: Seq<Seq<Seq<u8>>>,
    from: int,
    to: int,
)
    requires
        emitted == rows.take(emitted.len() as int),
        emitted.len() == from,
        from <= to <= rows.len(),
        part == rows.subrange(from, to),
    ensures
        emitted + part == rows.take(to),
        (emitted + part).len() == to,
{
    assert(emitted + part =~= rows.take(to)) by {
        assert forall|i: int| 0 <= i < to implies #[trigger] (emitted + part)[i] == rows[i] by {
            if i < from {
                assert(emitted[i] == rows.take(from)[i]);
            }
        }
    }
}

proof fn lemma_delivered_sound(
    plan: PhysicalPlan,
    rows: Seq<Seq<Seq<u8>>>,
    before: Progress,
    response: PageResponse,
)
    requires
        sound(plan, rows, before),
        faithful(plan, rows, before, ExecutionEvent::Delivered(response)),
        plain(plan) ==> rows.len() == plan.source.row_count,
        rows.len() <= u64::MAX,
    ensures
        sound(plan, rows, progressed(plan, before, ExecutionEvent::Delivered(response))),
{
    let state = before.state;
    let count = rows.len() as int;
    let after = progressed(plan, before, ExecutionEvent::Delivered(response));
    let request = (state.pending->0).1;
    assert(state.pending is Some);
    assert(untagged(state.buffered) =~= Seq::<Batch>::empty());
    assert(state.buffered =~= Seq::<(TaskId, Batch)>::empty());
    assert(before.emitted + waiting(state) =~= before.emitted);
    let from = before.emitted.len() as int;
    assert(state.remaining != Some(0usize));
    assert(covered(plan, state, rows, from));
    match response.outcome {
        PageOutcome::Loaded(page) => {
            lemma_tagged(page.batches@, response.task_id);
            let to = smaller(page_start((state.next_page - 1) as u64) + PAGE_ROWS, count);
            assert(from == page_start((state.next_page - 1) as u64));
            lemma_extended(rows, before.emitted, rows_of(page.batches@), from, to);
        },
        PageOutcome::Batch(batch) => {
            lemma_with_rows(seq![batch]);
            lemma_rows_of_one(batch);
            lemma_tagged(with_rows(seq![batch]), response.task_id);
            assert(waiting(after.state) == batch_rows(batch));
            match request {
                ReadRequest::Window { first_row, row_count } => {
                    let to = smaller(first_row + row_count, count);
                    lemma_extended(rows, before.emitted, batch_rows(batch), from, to);
                },
                ReadRequest::Filtered { first_match_offset, row_count } => {
                    let to = smaller(first_match_offset + row_count, count);
                    lemma_extended(rows, before.emitted, batch_rows(batch), from, to);
                },
                _ => {
                    assert(rows =~= rows.subrange(0, count));
                    lemma_extended(rows, before.emitted, batch_rows(batch), 0, count);
                },
            }
        },
        PageOutcome::Batches(batches) => {
            lemma_with_rows(batches@);
            lemma_tagged(with_rows(batches@), response.task_id);
            assert(rows =~= rows.subrange(0, count));
            lemma_extended(rows, before.emitted, rows_of(batches@), 0, count);
        },
        _ => {},
    }
}

proof fn lemma_progress_sound(
    plan: PhysicalPlan,
    rows: Seq<Seq<Seq<u8>>>,
    before: Progress,
    event: ExecutionEvent,
)
    requires
        sound(plan, rows, before),
        faithful(plan, rows, before, event),
        plain(plan) ==> rows.len() == plan.source.row_count,
        rows.len() <= u64::MAX,
    ensures
        sound(plan, rows, progressed(plan, before, event)),
{
    match event {
        ExecutionEvent::Step => {
            if before.state.cancelled {
            } else if before.state.buffered.len() > 0 {
                lemma_limited_sound(plan, rows, before);
            } else if before.state.finished {
                lemma_finished_complete(plan, rows, before);
            } else {
                lemma_scheduled_sound(plan, rows, before);
                let middle = Progress { state: scheduled(before.state, plan).0, ..before };
                if middle.state.finished {
                    lemma_finished_complete(plan, rows, middle);
                }
            }
        },
        ExecutionEvent::Submitted(task_id) => {
            lemma_submitted_sound(plan, rows, before, task_id);
        },
        ExecutionEvent::Delivered(response) => {
            lemma_delivered_sound(plan, rows, before, response);
        },
        ExecutionEvent::Cancelled => {},
    }
}

proof fn lemma_run_sound(
    engine: QueryEngine,
    plan: PhysicalPlan,
    rows: Seq<Seq<Seq<u8>>>,
    events: Seq<ExecutionEvent>,
)
    requires
        faithful_run(engine, plan, rows, events),
        plain(plan) ==> rows.len() == plan.source.row_count,
        rows.len() <= u64::MAX,
    ensures
        sound(plan, rows, run(engine, plan, events)),
    decreases events.len(),
{
    if events.len() == 0 {
        let start = run(engine, plan, events);
        assert(untagged(start.state.buffered) =~= Seq::<Batch>::empty());
        assert(start.emitted + waiting(start.state) =~= rows.take(0));
    } else {
        lemma_run_sound(engine, plan, rows, events.drop_last());
        lemma_progress_sound(plan, rows, run(engine, plan, events.drop_last()), events.last());
    }
}

/// When a query says that there are no more rows, it has handed out all rows of
/// its result, in order and once each, or as many as its limit allows.
pub proof fn law_query_returns_its_rows(
    engine: QueryEngine,
    plan: PhysicalPlan,
    rows: Seq<Seq<Seq<u8>>>,
    events: Seq<ExecutionEvent>,
)
    requires
        faithful_run(engine, plan, rows, events),
        plain(plan) ==> rows.len() == plan.source.row_count,
        rows.len() <= u64::MAX,
        run(engine, plan, events).complete,
    ensures
        run(engine, plan, events).emitted == within_limit(plan, rows),
{
    lemma_run_sound(engine, plan, rows, events);
}

/// What a query has handed out at any time are the first rows of its result, and
/// no more than its limit.
pub proof fn law_query_streams_a_prefix(
    engine: QueryEngine,
    plan: PhysicalPlan,
    rows: Seq<Seq<Seq<u8>>>,
    events: Seq<ExecutionEvent>,
)
    requires
        faithful_run(engine, plan, rows, events),
        plain(plan) ==> rows.len() == plan.source.row_count,
        rows.len() <= u64::MAX,
    ensures
        run(engine, plan, events).emitted.is_prefix_of(rows),
        plan.limit is Some ==> run(engine, plan, events).emitted.len() <= plan.limit->0,
{
    lemma_run_sound(engine, plan, rows, events);
    let progress = run(engine, plan, events);
    let read = progress.emitted + waiting(progress.state);
    assert forall|i: int| 0 <= i < progress.emitted.len() implies progress.emitted[i] == rows[i] by {
        assert(progress.emitted[i] == read[i]);
        assert(read[i] == rows.take(read.len() as int)[i]);
    }
    assert(progress.emitted =~= rows.subrange(0, progress.emitted.len() as int));
}

/// Whatever the answers are, a query never hands out more rows than its limit.
pub proof fn law_limit_is_never_exceeded(engine: QueryEngine, plan: PhysicalPlan, events: Seq<ExecutionEvent>)
    requires
        plan.limit is Some,
    ensures
        run(engine, plan, events).state.remaining is Some,
        run(engine, plan, events).emitted.len() + run(engine, plan, events).state.remaining->0 == plan.limit->0,
    decreases events.len(),
{
    if events.len() > 0 {
        law_limit_is_never_exceeded(engine, plan, events.drop_last());
    }
}

/// A query that was cancelled hands nothing out any more.
pub proof fn law_cancelled_query_is_silent(plan: PhysicalPlan, before: Progress, event: ExecutionEvent)
    requires
        before.state.cancelled,
    ensures
        progressed(plan, before, event).state.cancelled,
        progressed(plan, before, event).emitted == before.emitted,
        stepped(before.state, plan).1 is Cancelled,
{
}

/// A query never has more than one read under way.
pub proof fn law_one_read_at_a_time(state: ExecutionState, plan: PhysicalPlan)
    requires
        state.pending is Some,
    ensures
        scheduled(state, plan).1 is None,
{
}

/// Whether sorted rows come in batches of at most a page.
pub open spec fn comes_in_pages(outcome: PageOutcome) -> bool {
    match outcome {
        PageOutcome::Batches(batches) => forall|k: int|
            0 <= k < batches@.len() ==> batch_rows(#[trigger] batches@[k]).len() <= PAGE_ROWS,
        _ => true,
    }
}

/// Whether sorted rows always come in batches of at most a page.
pub open spec fn answered_in_pages(events: Seq<ExecutionEvent>) -> bool {
    forall|i: int|
        0 <= i < events.len() ==> (#[trigger] events[i] matches ExecutionEvent::Delivered(response)
            ==> comes_in_pages(response.outcome))
}

spec fn small(items: Seq<(TaskId, Batch)>) -> bool {
    forall|i: int| 0 <= i < items.len() ==> batch_rows((#[trigger] items[i]).1).len() <= PAGE_ROWS
}

proof fn lemma_part_of_rows(batches: Seq<Batch>, i: int)
    requires
        0 <= i < batches.len(),
    ensures
        batch_rows(batches[i]).len() <= rows_of(batches).len(),
    decreases batches.len(),
{
    if i < batches.len() - 1 {
        lemma_part_of_rows(batches.drop_last(), i);
    }
}

proof fn lemma_small_with_rows(batches: Seq<Batch>)
    requires
        forall|i: int|
            0 <= i < batches.len() ==> batch_rows(#[trigger] batches[i]).len() <= PAGE_ROWS,
    ensures
        forall|i: int|
            0 <= i < with_rows(batches).len() ==> batch_rows(#[trigger] with_rows(batches)[i]).len()
                <= PAGE_ROWS,
    decreases batches.len(),
{
    if batches.len() > 0 {
        assert forall|i: int| 0 <= i < batches.drop_last().len() implies batch_rows(
            #[trigger] batches.drop_last()[i],
        ).len() <= PAGE_ROWS by {
            assert(batches.drop_last()[i] == batches[i]);
        }
        lemma_small_with_rows(batches.drop_last());
        let fewer = with_rows(batches.drop_last());
        assert(batch_rows(batches[batches.len() - 1]).len() <= PAGE_ROWS);
        assert forall|i: int| 0 <= i < with_rows(batches).len() implies batch_rows(
            #[trigger] with_rows(batches)[i],
        ).len() <= PAGE_ROWS by {
            if i < fewer.len() {
                assert(with_rows(batches)[i] == fewer[i]);
            }
        }
    }
}

proof fn lemma_delivered_small(
    plan: PhysicalPlan,
    rows: Seq<Seq<Seq<u8>>>,
    before: Progress,
    response: PageResponse,
)
    requires
        sound(plan, rows, before),
        faithful(plan, rows, before, ExecutionEvent::Delivered(response)),
        plan.aggregate is None,
        comes_in_pages(response.outcome),
    ensures
        small(progressed(plan, before, ExecutionEvent::Delivered(response)).state.buffered),
{
    let state = before.state;
    let after = progressed(plan, before, ExecutionEvent::Delivered(response));
    let request = (state.pending->0).1;
    assert(state.buffered =~= Seq::<(TaskId, Batch)>::empty());
    assert(covered(plan, state, rows, (before.emitted + waiting(state)).len() as int));
    let batches = match response.outcome {
        PageOutcome::Loaded(page) => {
            assert forall|i: int| 0 <= i < page.batches@.len() implies batch_rows(
                #[trigger] page.batches@[i],
            ).len() <= PAGE_ROWS by {
                lemma_part_of_rows(page.batches@, i);
            }
            page.batches@
        },
        PageOutcome::Batch(batch) => {
            assert(batch_rows(batch).len() <= PAGE_ROWS);
            lemma_small_with_rows(seq![batch]);
            with_rows(seq![batch])
        },
        PageOutcome::Batches(batches) => {
            lemma_small_with_rows(batches@);
            with_rows(batches@)
        },
        _ => Seq::empty(),
    };
    assert forall|i: int| 0 <= i < after.state.buffered.len() implies batch_rows(
        (#[trigger] after.state.buffered[i]).1,
    ).len() <= PAGE_ROWS by {
        assert(after.state.buffered =~= tagged(batches, response.task_id));
        assert(after.state.buffered[i].1 == batches[i]);
    }
}

proof fn lemma_run_small(
    engine: QueryEngine,
    plan: PhysicalPlan,
    rows: Seq<Seq<Seq<u8>>>,
    events: Seq<ExecutionEvent>,
)
    requires
        faithful_run(engine, plan, rows, events),
        answered_in_pages(events),
        plan.aggregate is None,
        plain(plan) ==> rows.len() == plan.source.row_count,
        rows.len() <= u64::MAX,
    ensures
        small(run(engine, plan, events).state.buffered),
    decreases events.len(),
{
    if events.len() > 0 {
        let before = run(engine, plan, events.drop_last());
        assert forall|i: int| 0 <= i < events.drop_last().len() implies (
        #[trigger] events.drop_last()[i] matches ExecutionEvent::Delivered(response)
            ==> comes_in_pages(response.outcome)) by {
            assert(events.drop_last()[i] == events[i]);
        }
        lemma_run_small(engine, plan, rows, events.drop_last());
        lemma_run_sound(engine, plan, rows, events.drop_last());
        match events.last() {
            ExecutionEvent::Delivered(response) => {
                assert(events[events.len() - 1] == events.last());
                lemma_delivered_small(plan, rows, before, response);
            },
            _ => {
                let after = run(engine, plan, events);
                assert forall|i: int| 0 <= i < after.state.buffered.len() implies batch_rows(
                    (#[trigger] after.state.buffered[i]).1,
                ).len() <= PAGE_ROWS by {
                    if after.state.buffered != before.state.buffered {
                        assert(after.state.buffered[i] == before.state.buffered[i + 1]);
                    }
                }
            },
        }
    }
}

/// Every batch that a query without aggregates hands out has at least one row, and at
/// most as many as a page.
pub proof fn law_batches_are_bounded(
    engine: QueryEngine,
    plan: PhysicalPlan,
    rows: Seq<Seq<Seq<u8>>>,
    events: Seq<ExecutionEvent>,
)
    requires
        faithful_run(engine, plan, rows, events),
        answered_in_pages(events),
        plan.aggregate is None,
        plain(plan) ==> rows.len() == plan.source.row_count,
        rows.len() <= u64::MAX,
    ensures
        stepped(run(engine, plan, events).state, plan).1 matches StepModel::Rows(_, batch) ==> 1
            <= batch.len() <= PAGE_ROWS,
{
    let state = run(engine, plan, events).state;
    lemma_run_small(engine, plan, rows, events);
    if state.buffered.len() > 0 {
        assert(batch_rows(state.buffered[0].1).len() <= PAGE_ROWS);
    }
}

/// Once a query has said that there are no more rows, it says so whenever it is asked,
/// unless it was cancelled; it asks for no read, and nothing that happens makes it hand
/// out more.
pub proof fn law_finished_query_stays_finished(
    engine: QueryEngine,
    plan: PhysicalPlan,
    rows: Seq<Seq<Seq<u8>>>,
    events: Seq<ExecutionEvent>,
    event: ExecutionEvent,
)
    requires
        faithful_run(engine, plan, rows, events),
        plain(plan) ==> rows.len() == plan.source.row_count,
        rows.len() <= u64::MAX,
        run(engine, plan, events).complete,
        faithful(plan, rows, run(engine, plan, events), event),
    ensures
        stepped(run(engine, plan, events).state, plan) == (
            run(engine, plan, events).state,
            if run(engine, plan, events).state.cancelled {
                StepModel::Cancelled
            } else {
                StepModel::Finished
            },
        ),
        scheduled(run(engine, plan, events).state, plan).1 is None,
        run(engine, plan, events.push(event)).complete,
        run(engine, plan, events.push(event)).emitted == run(engine, plan, events).emitted,
{
    lemma_run_sound(engine, plan, rows, events);
    assert(events.push(event).drop_last() =~= events);
}

/// A query for no rows is over at once, and asks for no read whatever happens.
pub proof fn law_empty_limit_reads_nothing(engine: QueryEngine, plan: PhysicalPlan, events: Seq<ExecutionEvent>)
    requires
        plan.limit == Some(0usize),
    ensures
        run(engine, plan, events).state.scheduled_reads == 0,
        run(engine, plan, events).emitted.len() == 0,
        scheduled(run(engine, plan, events).state, plan).1 is None,
        stepped(run(engine, plan, events).state, plan).1 is Finished || run(engine, plan, events).state.cancelled,
{
    lemma_empty_limit(engine, plan, events);
}

proof fn lemma_empty_limit(engine: QueryEngine, plan: PhysicalPlan, events: Seq<ExecutionEvent>)
    requires
        plan.limit == Some(0usize),
    ensures
        run(engine, plan, events).state.scheduled_reads == 0,
        run(engine, plan, events).emitted.len() == 0,
        run(engine, plan, events).state.remaining == Some(0usize),
        run(engine, plan, events).state.pending is None,
        run(engine, plan, events).state.buffered.len() == 0,
    decreases events.len(),
{
    if events.len() > 0 {
        lemma_empty_limit(engine, plan, events.drop_last());
    }
}

/// Whatever happens, the reads of a query stay under the bounds of the engine that runs
/// it.
pub proof fn law_reads_keep_the_bounds(
    engine: QueryEngine,
    plan: PhysicalPlan,
    events: Seq<ExecutionEvent>,
)
    ensures
        run(engine, plan, events).state.sort_budget == engine.sort_budget,
        run(engine, plan, events).state.group_budget == engine.group_budget,
        scheduled(run(engine, plan, events).state, plan).1 matches Some(
            ReadRequest::Sorted { budget },
        ) ==> budget == engine.sort_budget,
        scheduled(run(engine, plan, events).state, plan).1 matches Some(
            ReadRequest::Aggregated { budget },
        ) ==> budget == engine.group_budget,
    decreases events.len(),
{
    if events.len() > 0 {
        law_reads_keep_the_bounds(engine, plan, events.drop_last());
    }
}

} // verus!

//! Running a planned query: which read comes next, and what becomes of the
//! answers.

use std::collections::VecDeque;

use crate::aggregate::GroupBudget;
use crate::batch::{batch_rows, row_count, slice_rows, Batch};
use crate::logical::{parts_of, LogicalPlan};
use crate::page::{first_row_of, page_start, smaller, PAGE_ROWS};
use crate::planner::{fits_dataset, plan_fails, PhysicalPlan, PlanError, Planner};
use crate::runtime::{GenerationId, PageOutcome, PageResponse, SubmitError, TaskId};
use crate::sort::SortBudget;
use crate::text::{cat, cat3, decimal, decimal_text};
use vstd::prelude::*;

verus! {

/// The bounds under which queries run.
#[derive(Clone, Copy, Debug, PartialEq, Eq, Structural)]
pub struct QueryEngine {
    pub sort_budget: SortBudget,
    pub group_budget: GroupBudget,
}

/// A read that a query needs.
#[derive(Clone, Copy, Debug, PartialEq, Eq, Structural)]
pub enum ReadRequest {
    Page { page_index: u64 },
    Window { first_row: u64, row_count: usize },
    Filtered { first_match_offset: u64, row_count: usize },
    Sorted { budget: SortBudget },
    Aggregated { budget: GroupBudget },
}

/// A query under way.
#[derive(Debug)]
pub struct QueryExecution {
    plan: PhysicalPlan,
    generation_id: GenerationId,
    sort_budget: SortBudget,
    group_budget: GroupBudget,
    pending: Option<(TaskId, ReadRequest)>,
    buffered: VecDeque<(TaskId, Batch)>,
    next_page: u64,
    next_filter_offset: u64,
    remaining: Option<usize>,
    finished: bool,
    cancelled: bool,
    scheduled_reads: usize,
    sort_submitted: bool,
    aggregate_submitted: bool,
}

/// Some rows of the result.
#[derive(Debug)]
pub struct QueryBatch {
    pub task_id: TaskId,
    pub generation_id: GenerationId,
    pub batch: Batch,
}

/// What to do next for a query.
#[derive(Debug)]
pub enum QueryStep {
    /// Hand out these rows.
    Batch(QueryBatch),
    /// There are no more rows.
    Finished,
    /// Submit this read, and report its number.
    Submit(ReadRequest),
    /// Wait for the answer to the read that was submitted.
    Receive,
}

/// Why a query cannot go on.
#[derive(Debug)]
pub enum ExecutionError {
    Cancelled,
    NoPending,
    Disconnected,
    TaskCancelled(TaskId),
    ReadFailed(TaskId, String),
    PageForOther,
    BatchForPage,
    BatchForSorted,
    BatchesForOther,
    Submit(SubmitError),
}

/// The state of a query under way.
pub struct ExecutionState {
    /// The bounds under which it runs.
    pub sort_budget: SortBudget,
    pub group_budget: GroupBudget,
    pub pending: Option<(TaskId, ReadRequest)>,
    pub buffered: Seq<(TaskId, Batch)>,
    pub next_page: u64,
    pub next_filter_offset: u64,
    pub remaining: Option<usize>,
    pub finished: bool,
    pub cancelled: bool,
    pub scheduled_reads: usize,
    pub sort_submitted: bool,
    pub aggregate_submitted: bool,
}

/// What a step comes to.
pub enum StepModel {
    Cancelled,
    NoPending,
    Finished,
    Submit(ReadRequest),
    Receive,
    Rows(TaskId, Seq<Seq<Seq<u8>>>),
}

impl ExecutionError {
    /// The message that the user sees.
    pub open spec fn message_text(self) -> Seq<char> {
        match self {
            ExecutionError::Cancelled => "query execution was cancelled"@,
            ExecutionError::NoPending => "query execution has no pending runtime task"@,
            ExecutionError::Disconnected => "query runtime response channel disconnected"@,
            ExecutionError::TaskCancelled(id) => "query task "@ + decimal(id.0 as nat)
                + " was cancelled"@,
            ExecutionError::ReadFailed(id, error) => "query task "@ + decimal(id.0 as nat)
                + " failed: "@ + error@,
            ExecutionError::PageForOther => "runtime returned a page for a non-page query read"@,
            ExecutionError::BatchForPage => "runtime returned a batch for a page query read"@,
            ExecutionError::BatchForSorted => {
                "runtime returned one batch for a sorted query read"@
            },
            ExecutionError::BatchesForOther => {
                "runtime returned sorted batches for a non-sort query read"@
            },
            ExecutionError::Submit(error) => "submit query source read: "@ + error.message_text(),
        }
    }

    /// The message that the user sees.
    pub fn message(&self) -> (text: String)
        ensures
            text@ == self.message_text(),
    {
        match self {
            ExecutionError::Cancelled => "query execution was cancelled".to_owned(),
            ExecutionError::NoPending => "query execution has no pending runtime task".to_owned(),
            ExecutionError::Disconnected => {
                "query runtime response channel disconnected".to_owned()
            },
            ExecutionError::TaskCancelled(id) => cat3(
                "query task ",
                decimal_text(id.0).as_str(),
                " was cancelled",
            ),
            ExecutionError::ReadFailed(id, error) => {
                let failed = cat3("query task ", decimal_text(id.0).as_str(), " failed: ");
                cat(failed.as_str(), error.as_str())
            },
            ExecutionError::PageForOther => {
                "runtime returned a page for a non-page query read".to_owned()
            },
            ExecutionError::BatchForPage => {
                "runtime returned a batch for a page query read".to_owned()
            },
            ExecutionError::BatchForSorted => {
                "runtime returned one batch for a sorted query read".to_owned()
            },
            ExecutionError::BatchesForOther => {
                "runtime returned sorted batches for a non-sort query read".to_owned()
            },
            ExecutionError::Submit(error) => cat(
                "submit query source read: ",
                error.message().as_str(),
            ),
        }
    }
}

/// How many rows the next read asks for at most: what is left of the limit, but
/// no more than a page.
pub open spec fn rows_wanted(remaining: Option<usize>) -> int {
    match remaining {
        Some(rows) => smaller(rows as int, PAGE_ROWS as int),
        None => PAGE_ROWS as int,
    }
}

/// The state once the next read is chosen, and that read where there is one.
pub open spec fn scheduled(state: ExecutionState, plan: PhysicalPlan) -> (
    ExecutionState,
    Option<ReadRequest>,
) {
    let rows = rows_wanted(state.remaining);
    if state.finished || state.pending is Some {
        (state, None)
    } else if rows == 0 {
        (ExecutionState { finished: true, ..state }, None)
    } else if plan.aggregate is Some {
        (
            state,
            if state.aggregate_submitted {
                None
            } else {
                Some(ReadRequest::Aggregated { budget: state.group_budget })
            },
        )
    } else if plan.sort is Some {
        (
            state,
            if state.sort_submitted {
                None
            } else {
                Some(ReadRequest::Sorted { budget: state.sort_budget })
            },
        )
    } else if plan.filter is Some {
        (
            state,
            Some(
                ReadRequest::Filtered {
                    first_match_offset: state.next_filter_offset,
                    row_count: rows as usize,
                },
            ),
        )
    } else if page_start(state.next_page) >= plan.source.row_count {
        (ExecutionState { finished: true, ..state }, None)
    } else if rows < PAGE_ROWS {
        (
            state,
            Some(
                ReadRequest::Window {
                    first_row: page_start(state.next_page) as u64,
                    row_count: rows as usize,
                },
            ),
        )
    } else {
        (state, Some(ReadRequest::Page { page_index: state.next_page }))
    }
}

/// The state once a read was submitted.
pub open spec fn submitted(
    state: ExecutionState,
    request: ReadRequest,
    task_id: TaskId,
) -> ExecutionState {
    ExecutionState {
        pending: Some((task_id, request)),
        next_page: if (request is Page || request is Window) && state.next_page < u64::MAX {
            (state.next_page + 1) as u64
        } else {
            state.next_page
        },
        sort_submitted: state.sort_submitted || request is Sorted,
        aggregate_submitted: state.aggregate_submitted || request is Aggregated,
        scheduled_reads: (state.scheduled_reads + 1) as usize,
        ..state
    }
}

/// The batches with the read that they answer.
pub open spec fn tagged(batches: Seq<Batch>, task_id: TaskId) -> Seq<(TaskId, Batch)> {
    batches.map_values(|batch: Batch| (task_id, batch))
}

/// The batches that have rows.
pub open spec fn with_rows(batches: Seq<Batch>) -> Seq<Batch>
    decreases batches.len(),
{
    if batches.len() == 0 {
        Seq::empty()
    } else if batch_rows(batches.last()).len() > 0 {
        with_rows(batches.drop_last()).push(batches.last())
    } else {
        with_rows(batches.drop_last())
    }
}

/// The state once one batch has answered a read.
pub open spec fn batch_delivered(
    state: ExecutionState,
    request: ReadRequest,
    task_id: TaskId,
    batch: Batch,
) -> Result<ExecutionState, ExecutionError> {
    let rows = batch_rows(batch).len();
    let buffered = state.buffered + tagged(with_rows(seq![batch]), task_id);
    match request {
        ReadRequest::Window { .. } => Ok(ExecutionState { buffered, ..state }),
        ReadRequest::Filtered { row_count, .. } => Ok(
            ExecutionState {
                buffered,
                next_filter_offset: (state.next_filter_offset + rows) as u64,
                finished: state.finished || rows < row_count,
                ..state
            },
        ),
        ReadRequest::Aggregated { .. } => Ok(ExecutionState { buffered, finished: true, ..state }),
        ReadRequest::Page { .. } => Err(ExecutionError::BatchForPage),
        ReadRequest::Sorted { .. } => Err(ExecutionError::BatchForSorted),
    }
}

/// The state once a read was answered, or why the answer is not accepted. Either
/// way nothing is pending any more.
pub open spec fn delivered(state: ExecutionState, response: PageResponse) -> Result<
    ExecutionState,
    ExecutionError,
> {
    let freed = ExecutionState { pending: None, ..state };
    match state.pending {
        None => Err(ExecutionError::NoPending),
        Some((_, request)) => match response.outcome {
            PageOutcome::Loaded(page) => if request is Page {
                Ok(
                    ExecutionState {
                        buffered: state.buffered + tagged(page.batches@, response.task_id),
                        ..freed
                    },
                )
            } else {
                Err(ExecutionError::PageForOther)
            },
            PageOutcome::Batch(batch) => batch_delivered(freed, request, response.task_id, batch),
            PageOutcome::Batches(batches) => if request is Sorted {
                Ok(
                    ExecutionState {
                        buffered: state.buffered + tagged(with_rows(batches@), response.task_id),
                        finished: true,
                        ..freed
                    },
                )
            } else {
                Err(ExecutionError::BatchesForOther)
            },
            PageOutcome::Cancelled => Err(ExecutionError::TaskCancelled(response.task_id)),
            PageOutcome::ReadFailed(error) => Err(
                ExecutionError::ReadFailed(response.task_id, error),
            ),
        },
    }
}

/// How many rows of a batch are within the limit.
pub open spec fn rows_granted(remaining: Option<usize>, rows: int) -> int {
    match remaining {
        Some(left) => smaller(left as int, rows),
        None => rows,
    }
}

/// The state once a batch was taken off the buffer, and what the step comes to.
pub open spec fn limited(state: ExecutionState) -> (ExecutionState, StepModel) {
    let (task_id, batch) = state.buffered[0];
    let rows = rows_granted(state.remaining, batch_rows(batch).len() as int);
    let rest = state.buffered.drop_first();
    let next = match state.remaining {
        Some(left) => ExecutionState {
            remaining: Some((left - rows) as usize),
            finished: state.finished || left == rows,
            buffered: if left == rows {
                Seq::empty()
            } else {
                rest
            },
            ..state
        },
        None => ExecutionState { buffered: rest, ..state },
    };
    (
        next,
        if rows > 0 {
            StepModel::Rows(task_id, batch_rows(batch).take(rows))
        } else {
            StepModel::Finished
        },
    )
}

/// The state after a step, and what the step comes to.
pub open spec fn stepped(state: ExecutionState, plan: PhysicalPlan) -> (ExecutionState, StepModel) {
    if state.cancelled {
        (state, StepModel::Cancelled)
    } else if state.buffered.len() > 0 {
        limited(state)
    } else if state.finished {
        (state, StepModel::Finished)
    } else {
        let (next, request) = scheduled(state, plan);
        if next.finished {
            (next, StepModel::Finished)
        } else {
            match request {
                Some(request) => (next, StepModel::Submit(request)),
                None => (
                    next,
                    if next.pending is Some {
                        StepModel::Receive
                    } else {
                        StepModel::NoPending
                    },
                ),
            }
        }
    }
}

/// The state of a query that was not begun, under the bounds of an engine.
pub open spec fn execution_start(engine: QueryEngine, plan: PhysicalPlan) -> ExecutionState {
    ExecutionState {
        sort_budget: engine.sort_budget,
        group_budget: engine.group_budget,
        pending: None,
        buffered: Seq::empty(),
        next_page: 0,
        next_filter_offset: 0,
        remaining: plan.limit,
        finished: false,
        cancelled: false,
        scheduled_reads: 0,
        sort_submitted: false,
        aggregate_submitted: false,
    }
}

/// How many rows the filter offset grows by with this answer.
pub open spec fn offset_growth(response: PageResponse) -> nat {
    match response.outcome {
        PageOutcome::Batch(batch) => batch_rows(batch).len(),
        _ => 0,
    }
}

impl QueryEngine {
    /// Queries run within the default bounds.
    pub fn new() -> (engine: Self)
        ensures
            engine.sort_budget.rows_bound() == SortBudget::DEFAULT_MAX_ROWS,
            engine.sort_budget.bytes_bound() == SortBudget::DEFAULT_MAX_BYTES,
            engine.group_budget.groups_bound() == GroupBudget::DEFAULT_MAX_GROUPS,
            engine.group_budget.bytes_bound() == GroupBudget::DEFAULT_MAX_BYTES,
    {
        QueryEngine { sort_budget: SortBudget::default(), group_budget: GroupBudget::default() }
    }

    pub fn with_sort_budget(sort_budget: SortBudget) -> (engine: Self)
        ensures
            engine.sort_budget == sort_budget,
            engine.group_budget.groups_bound() == GroupBudget::DEFAULT_MAX_GROUPS,
            engine.group_budget.bytes_bound() == GroupBudget::DEFAULT_MAX_BYTES,
    {
        QueryEngine { sort_budget, group_budget: GroupBudget::default() }
    }

    pub fn with_group_budget(group_budget: GroupBudget) -> (engine: Self)
        ensures
            engine.group_budget == group_budget,
            engine.sort_budget.rows_bound() == SortBudget::DEFAULT_MAX_ROWS,
            engine.sort_budget.bytes_bound() == SortBudget::DEFAULT_MAX_BYTES,
    {
        QueryEngine { sort_budget: SortBudget::default(), group_budget }
    }

    /// Plans a query and makes it ready to run within the bounds of this engine.
    pub fn execute(&self, logical: &LogicalPlan, generation_id: GenerationId) -> (result: Result<
        QueryExecution,
        PlanError,
    >)
        ensures
            match parts_of(*logical) {
                Ok(parts) => match result {
                    Ok(execution) => {
                        &&& fits_dataset(parts)
                        &&& execution.planned().performs(parts)
                        &&& execution.generation() == generation_id
                        &&& execution@ == execution_start(*self, execution.planned())
                        &&& execution.sort_limit() == self.sort_budget
                        &&& execution.group_limit() == self.group_budget
                    },
                    Err(error) => plan_fails(parts, error),
                },
                Err(step) => result == Err::<QueryExecution, PlanError>(PlanError::Repeated(step)),
            },
    {
        let plan = Planner::plan(logical)?;
        let remaining: Option<usize> = plan.limit;
        Ok(
            QueryExecution {
                plan,
                generation_id,
                sort_budget: self.sort_budget,
                group_budget: self.group_budget,
                pending: None,
                buffered: VecDeque::new(),
                next_page: 0,
                next_filter_offset: 0,
                remaining,
                finished: false,
                cancelled: false,
                scheduled_reads: 0,
                sort_submitted: false,
                aggregate_submitted: false,
            },
        )
    }
}

impl View for QueryExecution {
    type V = ExecutionState;

    closed spec fn view(&self) -> ExecutionState {
        ExecutionState {
            sort_budget: self.sort_budget,
            group_budget: self.group_budget,
            pending: self.pending,
            buffered: self.buffered@,
            next_page: self.next_page,
            next_filter_offset: self.next_filter_offset,
            remaining: self.remaining,
            finished: self.finished,
            cancelled: self.cancelled,
            scheduled_reads: self.scheduled_reads,
            sort_submitted: self.sort_submitted,
            aggregate_submitted: self.aggregate_submitted,
        }
    }
}

impl QueryExecution {
    /// The plan that is carried out.
    pub closed spec fn planned(&self) -> PhysicalPlan {
        self.plan
    }

    /// The state of the user interface that the query belongs to.
    pub closed spec fn generation(&self) -> GenerationId {
        self.generation_id
    }

    /// The bounds of its sorted reads.
    pub open spec fn sort_limit(&self) -> SortBudget {
        self@.sort_budget
    }

    /// The bounds of its grouped reads.
    pub open spec fn group_limit(&self) -> GroupBudget {
        self@.group_budget
    }

    /// The query is the same one, under the same bounds, in whatever state.
    pub open spec fn continues(&self, before: &Self) -> bool {
        &&& self.planned() == before.planned()
        &&& self.generation() == before.generation()
        &&& self.sort_limit() == before.sort_limit()
        &&& self.group_limit() == before.group_limit()
    }

    pub fn sort_budget(&self) -> (budget: SortBudget)
        ensures
            budget == self.sort_limit(),
    {
        self.sort_budget
    }

    pub fn group_budget(&self) -> (budget: GroupBudget)
        ensures
            budget == self.group_limit(),
    {
        self.group_budget
    }

    pub fn plan(&self) -> (plan: &PhysicalPlan)
        ensures
            *plan == self.planned(),
    {
        &self.plan
    }

    pub fn generation_id(&self) -> (generation_id: GenerationId)
        ensures
            generation_id == self.generation(),
    {
        self.generation_id
    }

    /// The read that was submitted and not answered yet.
    pub fn pending_task(&self) -> (task_id: Option<TaskId>)
        ensures
            match task_id {
                Some(id) => self@.pending matches Some(pending) && pending.0 == id,
                None => self@.pending is None,
            },
    {
        match self.pending {
            Some((task_id, _)) => Some(task_id),
            None => None,
        }
    }

    /// No more rows are handed out from now on.
    pub fn cancel(&mut self)
        ensures
            final(self).continues(old(self)),
            final(self)@ == (ExecutionState { cancelled: true, ..old(self)@ }),
    {
        self.cancelled = true;
    }

    pub fn scheduled_reads(&self) -> (reads: usize)
        ensures
            reads == self@.scheduled_reads,
    {
        self.scheduled_reads
    }

    /// How many matching rows were read so far.
    pub fn filter_offset(&self) -> (offset: u64)
        ensures
            offset == self@.next_filter_offset,
    {
        self.next_filter_offset
    }

    /// The read to submit next, where there is one.
    pub fn schedule_next(&mut self) -> (request: Option<ReadRequest>)
        ensures
            final(self).continues(old(self)),
            (final(self)@, request) == scheduled(old(self)@, old(self).planned()),
            request matches Some(ReadRequest::Sorted { budget }) ==> budget == old(self).sort_limit(),
            request matches Some(ReadRequest::Aggregated { budget }) ==> budget
                == old(self).group_limit(),
    {
        if self.finished || self.pending.is_some() {
            return None;
        }
        let page_rows: usize = PAGE_ROWS as usize;
        let row_count: usize = match self.remaining {
            Some(rows) => if rows < page_rows {
                rows
            } else {
                page_rows
            },
            None => page_rows,
        };
        if row_count == 0 {
            self.finished = true;
            return None;
        }
        if self.plan.aggregate.is_some() {
            return if self.aggregate_submitted {
                None
            } else {
                Some(ReadRequest::Aggregated { budget: self.group_budget })
            };
        }
        if self.plan.sort.is_some() {
            return if self.sort_submitted {
                None
            } else {
                Some(ReadRequest::Sorted { budget: self.sort_budget })
            };
        }
        if self.plan.filter.is_some() {
            return Some(
                ReadRequest::Filtered { first_match_offset: self.next_filter_offset, row_count },
            );
        }
        let first_row: u64 = first_row_of(self.next_page);
        if first_row >= self.plan.source.row_count {
            self.finished = true;
            return None;
        }
        if row_count < page_rows {
            Some(ReadRequest::Window { first_row, row_count })
        } else {
            Some(ReadRequest::Page { page_index: self.next_page })
        }
    }

    /// Records that a read was submitted.
    pub fn submitted(&mut self, request: ReadRequest, task_id: TaskId)
        requires
            old(self)@.scheduled_reads < usize::MAX,
        ensures
            final(self).continues(old(self)),
            final(self)@ == submitted(old(self)@, request, task_id),
    {
        match request {
            ReadRequest::Page { .. } | ReadRequest::Window { .. } => {
                if self.next_page < u64::MAX {
                    self.next_page = self.next_page + 1;
                }
            },
            ReadRequest::Filtered { .. } => {},
            ReadRequest::Sorted { .. } => {
                self.sort_submitted = true;
            },
            ReadRequest::Aggregated { .. } => {
                self.aggregate_submitted = true;
            },
        }
        self.pending = Some((task_id, request));
        self.scheduled_reads = self.scheduled_reads + 1;
    }

    /// Records that no answer will come any more.
    pub fn disconnected(&mut self) -> (error: ExecutionError)
        ensures
            final(self).continues(old(self)),
            final(self)@ == (ExecutionState { pending: None, ..old(self)@ }),
            error is Disconnected,
    {
        self.pending = None;
        ExecutionError::Disconnected
    }

    fn buffer_all(&mut self, batches: Vec<Batch>, task_id: TaskId)
        ensures
            final(self).continues(old(self)),
            final(self)@ == (ExecutionState {
                buffered: old(self)@.buffered + tagged(batches@, task_id),
                ..old(self)@
            }),
    {
        let ghost all = batches@;
        let mut batches = batches;
        let mut items: VecDeque<(TaskId, Batch)> = VecDeque::new();
        while batches.len() > 0
            invariant
                batches@.len() <= all.len(),
                batches@ == all.take(batches@.len() as int),
                items@ == tagged(all.skip(batches@.len() as int), task_id),
            decreases batches@.len(),
        {
            let ghost k = batches@.len();
            if let Some(batch) = batches.pop() {
                items.push_front((task_id, batch));
                proof {
                    assert(batch == all[k - 1]);
                    assert(batches@ =~= all.take(k - 1));
                    assert(items@ =~= tagged(all.skip(k - 1), task_id));
                }
            }
        }
        assert(items@ =~= tagged(all, task_id));
        self.buffered.append(&mut items);
    }

    fn buffer_one(&mut self, batch: Batch, task_id: TaskId)
        ensures
            final(self).continues(old(self)),
            final(self)@ == (ExecutionState {
                buffered: old(self)@.buffered + tagged(with_rows(seq![batch]), task_id),
                ..old(self)@
            }),
    {
        proof {
            reveal_with_fuel(with_rows, 2);
            assert(seq![batch].drop_last() =~= Seq::<Batch>::empty());
        }
        if row_count(&batch) > 0 {
            self.buffered.push_back((task_id, batch));
            assert(self@.buffered =~= old(self)@.buffered + tagged(
                with_rows(seq![batch]),
                task_id,
            ));
        } else {
            assert(self@.buffered =~= old(self)@.buffered + tagged(
                with_rows(seq![batch]),
                task_id,
            ));
        }
    }

    fn buffer_batch(&mut self, batch: Batch, request: ReadRequest, task_id: TaskId) -> (result:
        Result<(), ExecutionError>)
        requires
            old(self)@.next_filter_offset + batch_rows(batch).len() <= u64::MAX,
        ensures
            final(self).continues(old(self)),
            match batch_delivered(old(self)@, request, task_id, batch) {
                Ok(next) => result is Ok && final(self)@ == next,
                Err(error) => result is Err && result->Err_0 == error && final(self)@ == old(self)@,
            },
    {
        match request {
            ReadRequest::Window { .. } => {},
            ReadRequest::Filtered { row_count: requested_rows, .. } => {
                let rows: usize = row_count(&batch);
                self.next_filter_offset = self.next_filter_offset + rows as u64;
                if rows < requested_rows {
                    self.finished = true;
                }
            },
            ReadRequest::Aggregated { .. } => {
                self.finished = true;
            },
            ReadRequest::Page { .. } => return Err(ExecutionError::BatchForPage),
            ReadRequest::Sorted { .. } => return Err(ExecutionError::BatchForSorted),
        }
        self.buffer_one(batch, task_id);
        Ok(())
    }

    /// Takes in the answer to the read that was submitted.
    pub fn deliver(&mut self, response: PageResponse) -> (result: Result<(), ExecutionError>)
        requires
            old(self)@.next_filter_offset + offset_growth(response) <= u64::MAX,
        ensures
            final(self).continues(old(self)),
            match delivered(old(self)@, response) {
                Ok(next) => result is Ok && final(self)@ == next,
                Err(error) => result is Err && result->Err_0 == error && final(self)@ == (
                ExecutionState { pending: None, ..old(self)@ }),
            },
    {
        let task_id = response.task_id;
        let request = match self.pending {
            Some((_, request)) => request,
            None => return Err(ExecutionError::NoPending),
        };
        self.pending = None;
        match response.outcome {
            PageOutcome::Loaded(page) => match request {
                ReadRequest::Page { .. } => {
                    self.buffer_all(page.batches, task_id);
                    Ok(())
                },
                _ => Err(ExecutionError::PageForOther),
            },
            PageOutcome::Batch(batch) => self.buffer_batch(batch, request, task_id),
            PageOutcome::Batches(batches) => match request {
                ReadRequest::Sorted { .. } => {
                    let kept = keep_with_rows(batches);
                    self.buffer_all(kept, task_id);
                    self.finished = true;
                    Ok(())
                },
                _ => Err(ExecutionError::BatchesForOther),
            },
            PageOutcome::Cancelled => Err(ExecutionError::TaskCancelled(task_id)),
            PageOutcome::ReadFailed(error) => Err(ExecutionError::ReadFailed(task_id, error)),
        }
    }

    fn apply_limit(&mut self, task_id: TaskId, batch: Batch) -> (result: Option<QueryBatch>)
        ensures
            final(self).continues(old(self)),
            ({
                let rows = rows_granted(old(self)@.remaining, batch_rows(batch).len() as int);
                &&& match old(self)@.remaining {
                    Some(left) => final(self)@ == (ExecutionState {
                        remaining: Some((left - rows) as usize),
                        finished: old(self)@.finished || left == rows,
                        buffered: if left == rows {
                            Seq::empty()
                        } else {
                            old(self)@.buffered
                        },
                        ..old(self)@
                    }),
                    None => final(self)@ == old(self)@,
                }
                &&& match result {
                    Some(part) => rows > 0 && part.task_id == task_id && part.generation_id == old(
                        self,
                    ).generation() && batch_rows(part.batch) == batch_rows(batch).take(rows),
                    None => rows == 0,
                }
            }),
    {
        let held: usize = row_count(&batch);
        let rows: usize = match self.remaining {
            Some(left) => if left < held {
                left
            } else {
                held
            },
            None => held,
        };
        if let Some(left) = self.remaining {
            self.remaining = Some(left - rows);
            if left - rows == 0 {
                self.finished = true;
                self.buffered.clear();
            }
        }
        if rows > 0 {
            let part = slice_rows(&batch, 0, rows);
            assert(batch_rows(batch).subrange(0, 0 + rows) =~= batch_rows(batch).take(rows as int));
            Some(QueryBatch { task_id, generation_id: self.generation_id, batch: part })
        } else {
            None
        }
    }

    /// What to do next: hand out rows that are buffered, within the limit, or
    /// submit or await the next read.
    pub fn next_step(&mut self) -> (result: Result<QueryStep, ExecutionError>)
        ensures
            final(self).continues(old(self)),
            final(self)@ == stepped(old(self)@, old(self).planned()).0,
            match stepped(old(self)@, old(self).planned()).1 {
                StepModel::Cancelled => result == Err::<QueryStep, ExecutionError>(
                    ExecutionError::Cancelled,
                ),
                StepModel::NoPending => result == Err::<QueryStep, ExecutionError>(
                    ExecutionError::NoPending,
                ),
                StepModel::Finished => result == Ok::<QueryStep, ExecutionError>(
                    QueryStep::Finished,
                ),
                StepModel::Submit(request) => result == Ok::<QueryStep, ExecutionError>(
                    QueryStep::Submit(request),
                ),
                StepModel::Receive => result == Ok::<QueryStep, ExecutionError>(QueryStep::Receive),
                StepModel::Rows(task_id, rows) => result matches Ok(QueryStep::Batch(part))
                    && part.task_id == task_id && part.generation_id == old(self).generation()
                    && batch_rows(part.batch) == rows,
            },
    {
        if self.cancelled {
            return Err(ExecutionError::Cancelled);
        }
        if let Some((task_id, batch)) = self.buffered.pop_front() {
            assert(self@.buffered =~= old(self)@.buffered.drop_first());
            return match self.apply_limit(task_id, batch) {
                Some(part) => Ok(QueryStep::Batch(part)),
                None => Ok(QueryStep::Finished),
            };
        }
        assert(self@.buffered =~= old(self)@.buffered);
        if self.finished {
            return Ok(QueryStep::Finished);
        }
        let request = self.schedule_next();
        if self.finished {
            return Ok(QueryStep::Finished);
        }
        match request {
            Some(request) => Ok(QueryStep::Submit(request)),
            None => if self.pending.is_some() {
                Ok(QueryStep::Receive)
            } else {
                Err(ExecutionError::NoPending)
            },
        }
    }
}

fn keep_with_rows(batches: Vec<Batch>) -> (kept: Vec<Batch>)
    ensures
        kept@ == with_rows(batches@),
{
    let ghost all = batches@;
    let mut reversed: Vec<Batch> = Vec::new();
    let mut batches = batches;
    // Taken off the end and put back in order.
    while batches.len() > 0
        invariant
            batches@.len() <= all.len(),
            batches@ == all.take(batches@.len() as int),
            with_rows(all) == with_rows(batches@) + reversed@.reverse(),
        decreases batches@.len(),
    {
        let ghost before = batches@;
        if let Some(batch) = batches.pop() {
            assert(batches@ =~= before.drop_last());
            assert(batches@ =~= all.take(batches@.len() as int));
            if row_count(&batch) > 0 {
                let ghost tail = reversed@;
                reversed.push(batch);
                assert(with_rows(batches@).push(batch) + tail.reverse() =~= with_rows(batches@)
                    + reversed@.reverse());
            }
        }
    }
    let ghost total = reversed@;
    let mut kept: Vec<Batch> = Vec::new();
    assert(Seq::<Batch>::empty() + total.reverse() =~= total.reverse());
    while reversed.len() > 0
        invariant
            kept@ + reversed@.reverse() == total.reverse(),
        decreases reversed@.len(),
    {
        let ghost before = reversed@;
        let ghost so_far = kept@;
        if let Some(batch) = reversed.pop() {
            kept.push(batch);
            assert(so_far + before.reverse() =~= kept@ + reversed@.reverse());
        }
    }
    assert(kept@ =~= total.reverse());
    assert(with_rows(batches@) + total.reverse() =~= total.reverse());
    kept
}

/// Whether the reason is only that too many reads wait, so that the read can be
/// submitted later.
pub fn is_queue_full(error: &ExecutionError) -> (full: bool)
    ensures
        full == (*error == ExecutionError::Submit(SubmitError::QueueFull)),
{
    match error {
        ExecutionError::Submit(SubmitError::QueueFull) => true,
        _ => false,
    }
}

impl QueryBatch {
    /// Whether the rows belong to a state that has passed.
    pub fn is_stale_for(&self, current_generation: GenerationId) -> (stale: bool)
        ensures
            stale == (self.generation_id != current_generation),
    {
        self.generation_id.0 != current_generation.0
    }
}

} // verus!

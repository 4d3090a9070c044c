//! Background reads: what is requested, how requests are numbered, and what
//! their answers say.

use std::sync::Arc;

use crate::batch::Batch;
use crate::page::DataPage;
use crate::source::ParquetSource;
use crate::text::cat;
use vstd::prelude::*;

verus! {

/// The number of a submitted request.
#[derive(Clone, Copy, Debug, PartialEq, Eq, PartialOrd, Ord, Hash, Structural)]
pub struct TaskId(pub u64);

/// The state of the user interface that a request belongs to.
#[derive(Clone, Copy, Debug, PartialEq, Eq, PartialOrd, Ord, Hash, Structural)]
pub struct GenerationId(pub u64);

/// How many threads read, and how many requests may wait for them.
#[derive(Clone, Copy, Debug, PartialEq, Eq, Structural)]
pub struct RuntimeConfig {
    pub worker_count: usize,
    pub queue_capacity: usize,
}

/// Why the background reads cannot start.
#[derive(Debug)]
pub enum RuntimeConfigError {
    ZeroWorkers,
    ZeroQueueCapacity,
    /// A thread did not start, and why.
    WorkerSpawn(String),
}

/// Why a request was not taken.
#[derive(Clone, Copy, Debug, PartialEq, Eq, Structural)]
pub enum SubmitError {
    QueueFull,
    Shutdown,
    TaskIdExhausted,
}

/// The terminal outcome of one requested read.
#[derive(Debug)]
pub enum PageOutcome {
    Loaded(DataPage),
    Batch(Batch),
    Batches(Vec<Batch>),
    Cancelled,
    ReadFailed(String),
}

/// The terminal outcome of one requested open.
#[derive(Debug)]
pub enum OpenOutcome {
    Opened(Arc<ParquetSource>),
    Cancelled,
    OpenFailed(String),
}

/// A read outcome with the request and the generation that asked for it.
#[derive(Debug)]
pub struct PageResponse {
    pub task_id: TaskId,
    pub generation_id: GenerationId,
    pub outcome: PageOutcome,
}

/// An open outcome with the request and the generation that asked for it.
#[derive(Debug)]
pub struct OpenResponse {
    pub task_id: TaskId,
    pub generation_id: GenerationId,
    pub outcome: OpenOutcome,
}

/// The numbers that were given to requests so far: all below `next`.
#[derive(Debug)]
pub struct TaskIds {
    next: u64,
}

impl RuntimeConfig {
    /// One worker for each core, or one where their number is not known; 32
    /// requests may wait.
    pub fn for_cores(cores: Option<usize>) -> (config: Self)
        ensures
            config.queue_capacity == 32,
            config.worker_count == match cores {
                Some(count) => if count == 0 {
                    1
                } else {
                    count
                },
                None => 1,
            },
    {
        let worker_count: usize = match cores {
            Some(count) => if count == 0 {
                1
            } else {
                count
            },
            None => 1,
        };
        RuntimeConfig { worker_count, queue_capacity: 32 }
    }

    /// Whether reads can run with this configuration.
    pub fn validate(&self) -> (result: Result<(), RuntimeConfigError>)
        ensures
            match result {
                Ok(()) => self.worker_count > 0 && self.queue_capacity > 0,
                Err(RuntimeConfigError::ZeroWorkers) => self.worker_count == 0,
                Err(RuntimeConfigError::ZeroQueueCapacity) => self.worker_count > 0
                    && self.queue_capacity == 0,
                Err(RuntimeConfigError::WorkerSpawn(_)) => false,
            },
    {
        if self.worker_count == 0 {
            return Err(RuntimeConfigError::ZeroWorkers);
        }
        if self.queue_capacity == 0 {
            return Err(RuntimeConfigError::ZeroQueueCapacity);
        }
        Ok(())
    }
}

impl RuntimeConfigError {
    /// The message that the user sees.
    pub open spec fn message_text(self) -> Seq<char> {
        match self {
            RuntimeConfigError::ZeroWorkers => "runtime needs at least one worker"@,
            RuntimeConfigError::ZeroQueueCapacity => "runtime queue capacity must be positive"@,
            RuntimeConfigError::WorkerSpawn(error) => "start runtime worker: "@ + error@,
        }
    }

    /// The message that the user sees.
    pub fn message(&self) -> (text: String)
        ensures
            text@ == self.message_text(),
    {
        match self {
            RuntimeConfigError::ZeroWorkers => "runtime needs at least one worker".to_owned(),
            RuntimeConfigError::ZeroQueueCapacity => {
                "runtime queue capacity must be positive".to_owned()
            },
            RuntimeConfigError::WorkerSpawn(error) => cat("start runtime worker: ", error.as_str()),
        }
    }
}

impl SubmitError {
    /// The message that the user sees.
    pub open spec fn message_text(self) -> Seq<char> {
        match self {
            SubmitError::QueueFull => "runtime request queue is full"@,
            SubmitError::Shutdown => "runtime has shut down"@,
            SubmitError::TaskIdExhausted => "runtime task IDs are exhausted"@,
        }
    }

    /// The message that the user sees.
    pub fn message(&self) -> (text: String)
        ensures
            text@ == self.message_text(),
    {
        match self {
            SubmitError::QueueFull => "runtime request queue is full".to_owned(),
            SubmitError::Shutdown => "runtime has shut down".to_owned(),
            SubmitError::TaskIdExhausted => "runtime task IDs are exhausted".to_owned(),
        }
    }
}

impl View for TaskIds {
    type V = u64;

    /// The number of the next request.
    closed spec fn view(&self) -> u64 {
        self.next
    }
}

impl TaskIds {
    /// Requests are numbered from 1 on.
    pub fn new() -> (ids: Self)
        ensures
            ids@ == 1,
    {
        TaskIds { next: 1 }
    }

    /// The number of a new request, if requests are still taken.
    pub fn reserve(&mut self, accepting: bool) -> (result: Result<TaskId, SubmitError>)
        ensures
            match result {
                Ok(id) => accepting && id.0 == old(self)@ && final(self)@ == old(self)@ + 1,
                Err(error) => final(self)@ == old(self)@ && error == (if !accepting {
                    SubmitError::Shutdown
                } else {
                    SubmitError::TaskIdExhausted
                }) && (accepting ==> old(self)@ == u64::MAX),
            },
    {
        if !accepting {
            return Err(SubmitError::Shutdown);
        }
        match self.next.checked_add(1) {
            Some(next) => {
                let id = TaskId(self.next);
                self.next = next;
                Ok(id)
            },
            None => Err(SubmitError::TaskIdExhausted),
        }
    }
}

/// `counters` are the numbers of the next request before each of a series of
/// reservations; one that fails leaves the number as it is.
pub open spec fn successive(counters: Seq<u64>) -> bool {
    forall|k: int|
        0 <= k < counters.len() - 1 ==> (#[trigger] counters[k + 1] == counters[k] + 1
            || counters[k + 1] == counters[k])
}

/// A request that is numbered later than another one that was taken gets a
/// higher number, so no two requests share one.
pub proof fn law_task_ids_increase(counters: Seq<u64>, i: int, j: int)
    requires
        successive(counters),
        0 <= i < j < counters.len(),
        counters[i + 1] == counters[i] + 1,
    ensures
        counters[i] < counters[j],
    decreases j - i,
{
    if j > i + 1 {
        law_task_ids_increase(counters, i, j - 1);
        assert(counters[j - 1 + 1] >= counters[j - 1]);
    }
}

/// Whether a request that has come up is still worth carrying out.
pub fn still_wanted(shutting_down: bool, cancelled: bool) -> (wanted: bool)
    ensures
        wanted == !(shutting_down || cancelled),
{
    !shutting_down && !cancelled
}

/// What a read that was carried out is answered: nothing that came too late is
/// handed out, but a failure is reported.
pub fn page_outcome(read: Result<PageOutcome, String>, cancelled: bool) -> (outcome: PageOutcome)
    ensures
        outcome == match read {
            Ok(loaded) => if cancelled {
                PageOutcome::Cancelled
            } else {
                loaded
            },
            Err(error) => PageOutcome::ReadFailed(error),
        },
{
    match read {
        Ok(loaded) => if cancelled {
            PageOutcome::Cancelled
        } else {
            loaded
        },
        Err(error) => PageOutcome::ReadFailed(error),
    }
}

/// What an open that was carried out is answered.
pub fn open_outcome(opened: Result<Arc<ParquetSource>, String>, cancelled: bool) -> (outcome:
    OpenOutcome)
    ensures
        outcome == match opened {
            Ok(source) => if cancelled {
                OpenOutcome::Cancelled
            } else {
                OpenOutcome::Opened(source)
            },
            Err(error) => OpenOutcome::OpenFailed(error),
        },
{
    match opened {
        Ok(source) => if cancelled {
            OpenOutcome::Cancelled
        } else {
            OpenOutcome::Opened(source)
        },
        Err(error) => OpenOutcome::OpenFailed(error),
    }
}

impl PageResponse {
    /// Whether the answer belongs to a state that has passed.
    pub fn is_stale_for(&self, current_generation: GenerationId) -> (stale: bool)
        ensures
            stale == (self.generation_id != current_generation),
    {
        self.generation_id.0 != current_generation.0
    }
}

impl OpenResponse {
    /// Whether the answer belongs to a state that has passed.
    pub fn is_stale_for(&self, current_generation: GenerationId) -> (stale: bool)
        ensures
            stale == (self.generation_id != current_generation),
    {
        self.generation_id.0 != current_generation.0
    }
}

} // verus!

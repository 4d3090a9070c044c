//! The panels that show a chart, a profile and an export: what becomes of them as
//! their work goes on.

use crate::chart::{
    chart_error_text, chart_of, charted_columns, collected, stops_early, ChartAccumulator,
    ChartConfig, ChartInput, ChartModel, ChartState,
};
use crate::execution::{ExecutionError, QueryExecution};
use crate::export::ExportEvent;
use crate::labels::{chart_status, chart_text};
use crate::page::smaller;
use crate::profile::{ColumnProfile, ProfileEvent};
use crate::runtime::GenerationId;
use crate::schema::Field;
use crate::text::{cat, cat3, decimal, decimal_text};
use vstd::prelude::*;

verus! {

/// The generation after this one, or the last one there is.
pub open spec fn generation_after(generation: GenerationId) -> GenerationId {
    GenerationId(smaller(generation.0 + 1, u64::MAX as int) as u64)
}

/// The generation after this one, or the last one there is.
pub fn next_generation(generation: GenerationId) -> (next: GenerationId)
    ensures
        next == generation_after(generation),
{
    GenerationId(generation.0.saturating_add(1))
}

/// What was asked for before the generation moved on is out of date, however often
/// the generation has moved since.
pub proof fn law_earlier_work_is_out_of_date(generations: Seq<GenerationId>, i: int, j: int)
    requires
        0 <= i < j < generations.len(),
        forall|k: int|
            0 <= k < generations.len() - 1 ==> #[trigger] generations[k + 1] == generation_after(
                generations[k],
            ),
        generations[j].0 < u64::MAX,
    ensures
        generations[i].0 < generations[j].0,
        generations[i] != generations[j],
    decreases j - i,
{
    assert(generations[(j - 1) + 1] == generation_after(generations[j - 1]));
    if i < j - 1 {
        law_earlier_work_is_out_of_date(generations, i, j - 1);
    }
}

// ---------------------------------------------------------------------------
// Charts
// ---------------------------------------------------------------------------

/// Where the values of a chart come from.
#[derive(Clone, Copy, Debug, PartialEq, Eq, Structural)]
pub enum ChartSource {
    Sql,
    CurrentResult,
}

/// What asking the query of a chart for rows comes to.
#[derive(Debug)]
pub enum ChartPoll {
    Pending,
    Finished,
    /// Rows, with the columns of the result and the values that are charted.
    Rows { generation_id: GenerationId, fields: Vec<Field>, input: ChartInput },
    Failed(ExecutionError),
}

/// The chart that is shown or being made.
#[derive(Debug)]
pub struct ChartPanel {
    pub visible: bool,
    pub source: ChartSource,
    pub sql_input: String,
    pub config: ChartConfig,
    pub generation: GenerationId,
    pub execution: Option<QueryExecution>,
    pub accumulator: Option<ChartAccumulator>,
    pub model: Option<ChartModel>,
    pub error: Option<String>,
    pub status: String,
}

impl ChartSource {
    pub open spec fn label_text(self) -> Seq<char> {
        match self {
            ChartSource::Sql => "Chart SQL"@,
            ChartSource::CurrentResult => "Current result window"@,
        }
    }

    pub fn label(self) -> (label: &'static str)
        ensures
            label@ == self.label_text(),
    {
        match self {
            ChartSource::Sql => "Chart SQL",
            ChartSource::CurrentResult => "Current result window",
        }
    }
}

impl ChartPanel {
    /// Nothing has been chosen or drawn yet.
    pub open spec fn is_unused(&self) -> bool {
        &&& self.source == ChartSource::Sql
        &&& self.sql_input@ == "SELECT * FROM dataset"@
        &&& self.config.is_plain()
        &&& self.generation == GenerationId(0)
        &&& self.execution is None
        &&& self.accumulator is None
        &&& self.model is None
        &&& self.error is None
        &&& self.status@ == "Choose a chart source and columns"@
    }
}

impl Default for ChartPanel {
    fn default() -> (panel: Self)
        ensures
            !panel.visible,
            panel.is_unused(),
            panel.wf(),
    {
        ChartPanel {
            visible: false,
            source: ChartSource::Sql,
            sql_input: "SELECT * FROM dataset".to_owned(),
            config: ChartConfig::default(),
            generation: GenerationId(0),
            execution: None,
            accumulator: None,
            model: None,
            error: None,
            status: "Choose a chart source and columns".to_owned(),
        }
    }
}

impl ChartPanel {
    /// What was collected suits the chart.
    pub open spec fn wf(&self) -> bool {
        self.accumulator matches Some(accumulator) ==> accumulator.wf()
    }

    /// What the user has chosen is the same.
    pub open spec fn same_choices(&self, other: &Self) -> bool {
        &&& self.visible == other.visible
        &&& self.source == other.source
        &&& self.sql_input == other.sql_input
        &&& self.config == other.config
    }

    /// The query has ended and its chart, of what was collected, is shown.
    pub open spec fn charts<L, E>(
        &self,
        before: &Self,
        settings: ChartConfig,
        state: ChartState,
        source: Seq<char>,
        locate: L,
        edge: E,
    ) -> bool where
        L: Fn(u64, u64, u64, usize) -> usize,
        E: Fn(u64, u64, usize, usize) -> u64,
     {
        &&& *self == (ChartPanel {
            execution: None,
            accumulator: None,
            model: self.model,
            status: self.status,
            ..*before
        })
        &&& self.model matches Some(model) && chart_of(model, settings, state, locate, edge)
            && self.status@ == chart_text(model, source)
    }

    /// The query has ended with an error.
    pub open spec fn fails(&self, before: &Self, message: Seq<char>) -> bool {
        &&& *self == (ChartPanel {
            execution: None,
            accumulator: None,
            error: self.error,
            ..*before
        })
        &&& self.error matches Some(text) && text@ == message
    }

    /// The dataset that was charted is gone.
    pub open spec fn cleared(&self, before: &Self) -> bool {
        &&& *self == (ChartPanel {
            generation: generation_after(before.generation),
            execution: None,
            accumulator: None,
            model: None,
            error: None,
            status: self.status,
            ..*before
        })
        &&& self.status@ == "Dataset changed; chart results were cleared"@
    }

    /// Whether a chart is being made.
    pub fn loading(&self) -> (loading: bool)
        ensures
            loading == (self.execution is Some),
    {
        self.execution.is_some()
    }

    /// The chart that is being made is not wanted any more.
    pub fn cancel(&mut self)
        ensures
            *final(self) == (ChartPanel { execution: None, accumulator: None, ..*old(self) }),
            final(self).wf(),
    {
        self.execution = None;
        self.accumulator = None;
    }

    /// Another dataset is shown.
    pub fn reset(&mut self)
        ensures
            final(self).wf(),
            final(self).cleared(old(self)),
    {
        self.cancel();
        self.generation = next_generation(self.generation);
        self.model = None;
        self.error = None;
        self.status = "Dataset changed; chart results were cleared".to_owned();
    }

    /// The user stops the chart that is being made.
    pub fn stop(&mut self)
        requires
            old(self).wf(),
        ensures
            final(self).wf(),
            final(self).same_choices(old(self)),
            old(self).execution is None ==> *final(self) == *old(self),
            old(self).execution is Some ==> final(self).execution is None
                && final(self).accumulator is None && final(self).generation == generation_after(
                old(self).generation,
            ) && final(self).status@ == "Chart query cancelled"@ && final(self).model == old(
                self,
            ).model && final(self).error == old(self).error,
    {
        if self.loading() {
            self.cancel();
            self.generation = next_generation(self.generation);
            self.status = "Chart query cancelled".to_owned();
        }
    }

    /// A chart is to be made: the one before goes, and answers to it are stale from
    /// now on.
    pub fn restart(&mut self) -> (generation: GenerationId)
        ensures
            generation == generation_after(old(self).generation),
            *final(self) == (ChartPanel {
                generation,
                execution: None,
                accumulator: None,
                model: None,
                error: None,
                ..*old(self)
            }),
    {
        self.cancel();
        self.model = None;
        self.error = None;
        self.generation = next_generation(self.generation);
        self.generation
    }

    /// Makes the chart of what was collected. `source` says what it was collected
    /// from.
    pub fn finish<L, E>(&mut self, source: &str, locate: L, edge: E) where
        L: Fn(u64, u64, u64, usize) -> usize,
        E: Fn(u64, u64, usize, usize) -> u64,

        requires
            old(self).wf(),
            forall|value: u64, min: u64, max: u64, count: usize|
                locate.requires((value, min, max, count)),
            forall|min: u64, max: u64, count: usize, index: usize|
                edge.requires((min, max, count, index)),
        ensures
            final(self).wf(),
            *final(self) == (ChartPanel {
                accumulator: None,
                model: final(self).model,
                status: final(self).status,
                ..*old(self)
            }),
            old(self).accumulator is None ==> *final(self) == *old(self),
            old(self).accumulator matches Some(accumulator) ==> (
            final(self).model matches Some(model) && chart_of(
                model,
                accumulator.settings(),
                accumulator@,
                locate,
                edge,
            )
                && final(self).status@ == chart_text(model, source@)),
    {
        let held = self.accumulator.take();
        if let Some(accumulator) = held {
            let model = accumulator.finish(locate, edge);
            self.status = chart_status(&model, source);
            self.model = Some(model);
        }
    }

    /// Takes in what asking the query for rows came to, and says whether it can be
    /// asked again at once.
    pub fn apply_poll<L, E>(&mut self, poll: ChartPoll, locate: L, edge: E) -> (more: bool) where
        L: Fn(u64, u64, u64, usize) -> usize,
        E: Fn(u64, u64, usize, usize) -> u64,

        requires
            old(self).wf(),
            poll matches ChartPoll::Rows { input, .. } ==> input.wf() && (
            old(self).accumulator matches Some(accumulator) ==> input.suits(
                accumulator.settings().kind,
            ) && accumulator@.skipped_rows + input.row_count() <= usize::MAX),
            forall|value: u64, min: u64, max: u64, count: usize|
                locate.requires((value, min, max, count)),
            forall|min: u64, max: u64, count: usize, index: usize|
                edge.requires((min, max, count, index)),
        ensures
            final(self).wf(),
            final(self).same_choices(old(self)),
            final(self).generation == old(self).generation,
            more == !(poll is Pending),
            match poll {
                ChartPoll::Pending => *final(self) == *old(self),
                ChartPoll::Finished => match old(self).accumulator {
                    None => *final(self) == (ChartPanel { execution: None, ..*old(self) }),
                    Some(accumulator) => final(self).charts(
                        old(self),
                        accumulator.settings(),
                        accumulator@,
                        "query result"@,
                        locate,
                        edge,
                    ),
                },
                ChartPoll::Rows { generation_id, fields, input } => if generation_id != old(
                    self,
                ).generation {
                    *final(self) == (ChartPanel {
                        execution: None,
                        accumulator: None,
                        status: final(self).status,
                        ..*old(self)
                    }) && final(self).status@ == "Ignored stale chart result"@
                } else {
                    match old(self).accumulator {
                        None => final(self).fails(
                            old(self),
                            "Chart query lost its bounded accumulator"@,
                        ),
                        Some(accumulator) => match charted_columns(
                            accumulator.settings(),
                            fields@,
                        ) {
                            Err(error) => final(self).fails(
                                old(self),
                                "Chart data: "@ + chart_error_text(error),
                            ),
                            Ok(_) => if stops_early(accumulator@, &input, 0) {
                                final(self).charts(
                                    old(self),
                                    accumulator.settings(),
                                    collected(accumulator@, &input, 0),
                                    "query result sample"@,
                                    locate,
                                    edge,
                                ) && final(self).model->0.input_capped
                            } else {
                                *final(self) == (ChartPanel {
                                    accumulator: final(self).accumulator,
                                    ..*old(self)
                                }) && (final(self).accumulator matches Some(next)
                                    && next.settings() == accumulator.settings() && next@
                                    == collected(accumulator@, &input, 0))
                            },
                        },
                    }
                },
                ChartPoll::Failed(error) => final(self).fails(
                    old(self),
                    "Chart query: "@ + error.message_text(),
                ),
            },
    {
        match poll {
            ChartPoll::Pending => false,
            ChartPoll::Finished => {
                self.execution = None;
                self.finish("query result", locate, edge);
                true
            },
            ChartPoll::Rows { generation_id, fields, input } => {
                if generation_id.0 != self.generation.0 {
                    self.cancel();
                    self.status = "Ignored stale chart result".to_owned();
                    return true;
                }
                let held = self.accumulator.take();
                let mut accumulator = match held {
                    Some(accumulator) => accumulator,
                    None => {
                        self.execution = None;
                        self.error = Some("Chart query lost its bounded accumulator".to_owned());
                        return true;
                    },
                };
                let ghost before = accumulator@;
                match accumulator.push_batch(&fields, &input) {
                    Ok(accepted) => {
                        proof {
                            lemma_stopped_is_capped(before, &input, 0);
                        }
                        self.accumulator = Some(accumulator);
                        if !accepted {
                            self.execution = None;
                            self.finish("query result sample", locate, edge);
                        }
                    },
                    Err(error) => {
                        self.execution = None;
                        self.error = Some(cat("Chart data: ", error.message().as_str()));
                    },
                }
                true
            },
            ChartPoll::Failed(error) => {
                self.execution = None;
                self.accumulator = None;
                self.error = Some(cat("Chart query: ", error.message().as_str()));
                true
            },
        }
    }
}

proof fn lemma_stopped_is_capped(
    state: ChartState,
    input: &ChartInput,
    from: int,
)
    requires
        0 <= from,
    ensures
        stops_early(state, input, from) ==> collected(state, input, from).input_capped,
    decreases input.row_count() - from,
{
    if from < input.row_count() && state.values.len() != crate::chart::MAX_INPUT_ROWS {
        match input.charted(from) {
            Some(value) => lemma_stopped_is_capped(
                ChartState { values: state.values.push(value), ..state },
                input,
                from + 1,
            ),
            None => lemma_stopped_is_capped(
                ChartState { skipped_rows: state.skipped_rows + 1, ..state },
                input,
                from + 1,
            ),
        }
    }
}

/// The columns that a chart of a dataset shows at first: its first one for X, its
/// second one, or again its first, for Y.
pub fn default_chart_columns(names: &Vec<String>) -> (columns: (String, String))
    ensures
        columns.0@ == (if names@.len() > 0 {
            names@[0]@
        } else {
            Seq::empty()
        }),
        columns.1@ == (if names@.len() > 1 {
            names@[1]@
        } else if names@.len() > 0 {
            names@[0]@
        } else {
            Seq::empty()
        }),
{
    let x = if names.len() > 0 {
        names[0].as_str().to_owned()
    } else {
        String::new()
    };
    let y = if names.len() > 1 {
        names[1].as_str().to_owned()
    } else if names.len() > 0 {
        names[0].as_str().to_owned()
    } else {
        String::new()
    };
    (x, y)
}

// ---------------------------------------------------------------------------
// Profiles
// ---------------------------------------------------------------------------

/// The profile that is shown or being made.
#[derive(Debug)]
pub struct ProfilePanel {
    pub generation: GenerationId,
    /// Whether a column is being profiled.
    pub running: bool,
    pub column: Option<usize>,
    pub result: Option<ColumnProfile>,
    pub error: Option<String>,
    pub status: String,
}

impl ProfilePanel {
    /// Nothing has been profiled yet.
    pub open spec fn is_unused(&self) -> bool {
        &&& self.generation == GenerationId(0)
        &&& !self.running
        &&& self.column is None
        &&& self.result is None
        &&& self.error is None
        &&& self.status@ == "Select a source column to profile"@
    }
}

impl Default for ProfilePanel {
    fn default() -> (panel: Self)
        ensures
            panel.is_unused(),
    {
        ProfilePanel {
            generation: GenerationId(0),
            running: false,
            column: None,
            result: None,
            error: None,
            status: "Select a source column to profile".to_owned(),
        }
    }
}

/// The generation that an event belongs to.
pub open spec fn profile_generation(event: ProfileEvent) -> GenerationId {
    match event {
        ProfileEvent::Finished { generation, .. } => generation,
        ProfileEvent::Cancelled { generation } => generation,
        ProfileEvent::Failed { generation, .. } => generation,
    }
}

impl ProfilePanel {
    /// The dataset that was profiled is gone.
    pub open spec fn cleared(&self, before: &Self) -> bool {
        &&& self.generation == generation_after(before.generation)
        &&& !self.running
        &&& self.column is None
        &&& self.result is None
        &&& self.error is None
        &&& self.status@ == "Dataset changed; profile cleared"@
    }

    /// Another dataset is shown.
    pub fn reset(&mut self)
        ensures
            final(self).cleared(old(self)),
    {
        self.running = false;
        self.generation = next_generation(self.generation);
        self.column = None;
        self.result = None;
        self.error = None;
        self.status = "Dataset changed; profile cleared".to_owned();
    }

    /// A column is to be profiled: the profile before goes, and what comes of it is
    /// stale from now on.
    pub fn restart(&mut self) -> (generation: GenerationId)
        ensures
            generation == generation_after(old(self).generation),
            *final(self) == (ProfilePanel {
                generation,
                running: false,
                result: None,
                error: None,
                ..*old(self)
            }),
    {
        self.running = false;
        self.result = None;
        self.error = None;
        self.generation = next_generation(self.generation);
        self.generation
    }

    /// Profiling a column has begun.
    pub fn started(&mut self, column: usize)
        ensures
            final(self).running,
            final(self).column == Some(column),
            final(self).status@ == "Profiling column…"@,
            final(self).generation == old(self).generation,
            final(self).result == old(self).result,
            final(self).error == old(self).error,
    {
        self.running = true;
        self.column = Some(column);
        self.status = "Profiling column…".to_owned();
    }

    /// The user stops profiling.
    pub fn stop(&mut self)
        ensures
            !old(self).running ==> *final(self) == *old(self),
            old(self).running ==> !final(self).running && final(self).generation
                == generation_after(old(self).generation) && final(self).status@
                == "Profile cancelled"@ && final(self).column == old(self).column
                && final(self).result == old(self).result && final(self).error == old(self).error,
    {
        if self.running {
            self.running = false;
            self.generation = next_generation(self.generation);
            self.status = "Profile cancelled".to_owned();
        }
    }

    /// Takes in how profiling has ended. What belongs to a state that has passed is
    /// dropped.
    pub fn apply_event(&mut self, event: ProfileEvent)
        ensures
            !final(self).running,
            final(self).generation == old(self).generation,
            final(self).column == old(self).column,
            if profile_generation(event) != old(self).generation {
                final(self).status@ == "Ignored stale profile result"@ && final(self).result == old(
                    self,
                ).result && final(self).error == old(self).error
            } else {
                match event {
                    ProfileEvent::Finished { profile, .. } => final(self).result == Some(*profile)
                        && final(self).error == old(self).error && final(self).status@
                        == "Profiled "@ + decimal(profile.row_count as nat) + " rows"@,
                    ProfileEvent::Cancelled { .. } => final(self).status@ == "Profile cancelled"@
                        && final(self).result == old(self).result && final(self).error == old(
                        self,
                    ).error,
                    ProfileEvent::Failed { error, .. } => final(self).result == old(self).result && (
                    final(self).error matches Some(text) && text@ == "Profile: "@ + error@)
                        && final(self).status == old(self).status,
                }
            },
    {
        self.running = false;
        let generation: u64 = self.generation.0;
        match event {
            ProfileEvent::Finished { generation: of, profile } => {
                if of.0 == generation {
                    self.status = cat3(
                        "Profiled ",
                        decimal_text(profile.row_count).as_str(),
                        " rows",
                    );
                    self.result = Some(*profile);
                } else {
                    self.status = "Ignored stale profile result".to_owned();
                }
            },
            ProfileEvent::Cancelled { generation: of } => {
                if of.0 == generation {
                    self.status = "Profile cancelled".to_owned();
                } else {
                    self.status = "Ignored stale profile result".to_owned();
                }
            },
            ProfileEvent::Failed { generation: of, error } => {
                if of.0 == generation {
                    self.error = Some(cat("Profile: ", error.as_str()));
                } else {
                    self.status = "Ignored stale profile result".to_owned();
                }
            },
        }
    }
}

// ---------------------------------------------------------------------------
// Exports
// ---------------------------------------------------------------------------

/// The generation that an event belongs to.
pub open spec fn export_generation(event: ExportEvent) -> GenerationId {
    match event {
        ExportEvent::Progress { generation, .. } => generation,
        ExportEvent::Finished { generation, .. } => generation,
        ExportEvent::Cancelled { generation } => generation,
        ExportEvent::Failed { generation, .. } => generation,
    }
}

/// What the user is told of an export to a path.
pub open spec fn export_text(event: ExportEvent, path: Seq<char>) -> Seq<char> {
    match event {
        ExportEvent::Progress { rows, .. } => "Exporting: "@ + decimal(rows as nat)
            + " rows written"@,
        ExportEvent::Finished { rows, .. } => "Export complete: "@ + decimal(rows as nat)
            + " rows written to "@ + path,
        ExportEvent::Cancelled { .. } => "Export cancelled"@,
        ExportEvent::Failed { error, .. } => "Export failed: "@ + error@,
    }
}

/// What the user is told of an export to a path, and whether it has ended; nothing
/// where the event belongs to an export that has gone.
pub fn export_report(event: &ExportEvent, current: GenerationId, path: &str) -> (report: Option<
    (String, bool),
>)
    ensures
        match report {
            Some((status, ended)) => export_generation(*event) == current && status@ == export_text(
                *event,
                path@,
            ) && ended == !(*event is Progress),
            None => export_generation(*event) != current,
        },
{
    let generation = match event {
        ExportEvent::Progress { generation, .. } => *generation,
        ExportEvent::Finished { generation, .. } => *generation,
        ExportEvent::Cancelled { generation } => *generation,
        ExportEvent::Failed { generation, .. } => *generation,
    };
    if generation.0 != current.0 {
        return None;
    }
    match event {
        ExportEvent::Progress { rows, .. } => Some(
            (cat3("Exporting: ", decimal_text(*rows).as_str(), " rows written"), false),
        ),
        ExportEvent::Finished { rows, .. } => {
            let head = cat3("Export complete: ", decimal_text(*rows).as_str(), " rows written to ");
            Some((cat(head.as_str(), path), true))
        },
        ExportEvent::Cancelled { .. } => Some(("Export cancelled".to_owned(), true)),
        ExportEvent::Failed { error, .. } => Some((cat("Export failed: ", error.as_str()), true)),
    }
}

} // verus!

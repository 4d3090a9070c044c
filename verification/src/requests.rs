//! What asking for charts, profiles and exports does to what the window shows.

use crate::chart::{
    chart_error_text, chart_of, charted_columns, collected, config_fault,
    lemma_skipped_grows, stops_early,
    ChartAccumulator, ChartConfig, ChartErrorModel, ChartInput, ChartState,
};
use crate::execution::{execution_start, QueryEngine, QueryExecution};
use crate::explorer::Explorer;
use crate::export::{ExportEvent, ExportFormat};
use crate::labels::{chart_status, chart_text};
use crate::logical::{parts_of, share_metadata, LogicalPlan, PlanParts, PlanStep};
use crate::messages::{sql_message, sql_message_text};
use crate::panels::{
    export_generation, export_report, export_text, generation_after, next_generation, ChartPanel,
    ChartSource, ProfilePanel,
};
use crate::prepared::{plan_sql, plans_sql, whole_dataset};
use crate::projection::Projection;
use crate::queries::says;
use crate::runtime::GenerationId;
use crate::schema::Field;
use crate::sql::SqlError;
use crate::text::{cat, cat3, trim, trimmed};
use vstd::prelude::*;

verus! {

/// What asking for a chart came to.
#[derive(Debug)]
pub enum ChartStart {
    /// There is none.
    Refused,
    /// It is made of the rows that are shown.
    Window(ChartAccumulator),
    /// It is made of the rows of a query, which has not asked for any yet.
    Query(ChartAccumulator, QueryExecution),
}

/// Whether nothing is collected yet, for a chart of this configuration.
pub open spec fn collects_for(accumulator: ChartAccumulator, config: ChartConfig) -> bool {
    &&& accumulator.wf()
    &&& accumulator.settings().same_as(&config)
    &&& accumulator@ == (ChartState {
        values: Seq::empty(),
        skipped_rows: 0,
        input_capped: false,
    })
}

/// How many rows some inputs have.
pub open spec fn input_rows(inputs: Seq<(Vec<Field>, ChartInput)>, from: int) -> nat
    decreases inputs.len() - from,
{
    if from < 0 || from >= inputs.len() {
        0
    } else {
        (inputs[from].1.row_count() + input_rows(inputs, from + 1)) as nat
    }
}

/// What is collected of some inputs, from one on, or why that fails. Nothing is
/// looked at behind the input at which the chart is full.
pub open spec fn gathered(
    settings: ChartConfig,
    state: ChartState,
    inputs: Seq<(Vec<Field>, ChartInput)>,
    from: int,
) -> Result<ChartState, ChartErrorModel>
    decreases inputs.len() - from,
{
    if from < 0 || from >= inputs.len() {
        Ok(state)
    } else {
        match charted_columns(settings, inputs[from].0@) {
            Err(error) => Err(error),
            Ok(_) => {
                let next = collected(state, &inputs[from].1, 0);
                if stops_early(state, &inputs[from].1, 0) {
                    Ok(next)
                } else {
                    gathered(settings, next, inputs, from + 1)
                }
            },
        }
    }
}

impl Explorer {
    /// Makes a chart ready, of the rows that are shown or of a SQL query.
    pub fn begin_chart(&mut self, has_runtime: bool, engine: &QueryEngine) -> (start: ChartStart)
        requires
            old(self).wf(),
        ensures
            final(self).wf(),
            *final(self) == (Explorer { chart: final(self).chart, ..*old(self) }),
            match (config_fault(old(self).chart.config), old(self).dataset) {
                (Some(error), _) => {
                    &&& start is Refused
                    &&& final(self).chart == (ChartPanel {
                        error: final(self).chart.error,
                        ..old(self).chart
                    })
                    &&& says(final(self).chart.error, "Chart setup: "@ + chart_error_text(error))
                },
                (None, None) => {
                    &&& start is Refused
                    &&& final(self).chart == (ChartPanel {
                        error: final(self).chart.error,
                        ..old(self).chart
                    })
                    &&& says(final(self).chart.error, "Open a dataset before running a chart"@)
                },
                (None, Some(document)) => {
                    &&& final(self).chart == (ChartPanel {
                        generation: generation_after(old(self).chart.generation),
                        execution: None,
                        accumulator: None,
                        model: None,
                        error: final(self).chart.error,
                        ..old(self).chart
                    })
                    &&& if old(self).chart.source == ChartSource::CurrentResult {
                        if old(self).filtered is Some {
                            &&& final(self).chart.error is None
                            &&& start matches ChartStart::Window(accumulator)
                            &&& collects_for(accumulator, old(self).chart.config)
                        } else {
                            &&& start is Refused
                            &&& says(
                                final(self).chart.error,
                                "Chart data: run a filter, SQL query, or sort first"@,
                            )
                        }
                    } else {
                        exists|planned: Result<LogicalPlan, SqlError>| #[trigger]
                            plans_sql(
                                trimmed(old(self).chart.sql_input@),
                                *document.metadata,
                                planned,
                            ) && old(self).chart_follows(planned, has_runtime, *engine, final(self), start)
                    }
                },
            },
    {
        let accumulator = match ChartAccumulator::new(self.chart.config.copy()) {
            Ok(accumulator) => accumulator,
            Err(error) => {
                self.chart.error = Some(cat("Chart setup: ", error.message().as_str()));
                return ChartStart::Refused;
            },
        };
        let metadata = match &self.dataset {
            Some(document) => share_metadata(&document.metadata),
            None => {
                self.chart.error = Some("Open a dataset before running a chart".to_owned());
                return ChartStart::Refused;
            },
        };
        let generation = self.chart.restart();
        if self.chart.source == ChartSource::CurrentResult {
            if self.filtered.is_none() {
                self.chart.error = Some(
                    "Chart data: run a filter, SQL query, or sort first".to_owned(),
                );
                return ChartStart::Refused;
            }
            return ChartStart::Window(accumulator);
        }
        let sql = trim(self.chart.sql_input.as_str());
        let planned = plan_sql(sql.as_str(), &metadata);
        match planned {
            Err(error) => {
                self.chart.error = Some(
                    cat("Chart SQL: ", sql_message(&error, &metadata.schema).as_str()),
                );
                ChartStart::Refused
            },
            Ok(plan) => {
                if !has_runtime {
                    self.chart.error = Some("Background runtime is unavailable".to_owned());
                    return ChartStart::Refused;
                }
                match engine.execute(&plan, generation) {
                    Ok(execution) => ChartStart::Query(accumulator, execution),
                    Err(_) => ChartStart::Refused,
                }
            },
        }
    }

    /// What the plan of a chart's SQL query leads to.
    pub open spec fn chart_follows(
        &self,
        planned: Result<LogicalPlan, SqlError>,
        has_runtime: bool,
        engine: QueryEngine,
        after: &Explorer,
        start: ChartStart,
    ) -> bool {
        match planned {
            Err(error) => {
                &&& start is Refused
                &&& says(
                    after.chart.error,
                    "Chart SQL: "@ + sql_message_text(
                        error,
                        self.dataset->0.metadata.schema.fields@,
                    ),
                )
            },
            Ok(plan) => if has_runtime {
                &&& after.chart.error is None
                &&& start matches ChartStart::Query(accumulator, execution)
                &&& collects_for(accumulator, self.chart.config)
                &&& parts_of(plan) matches Ok(parts) && execution.planned().performs(parts)
                &&& execution.generation() == after.chart.generation
                &&& execution@ == execution_start(engine, execution.planned())
            } else {
                &&& start is Refused
                &&& says(after.chart.error, "Background runtime is unavailable"@)
            },
        }
    }

    /// The query of a chart has asked for its first rows.
    pub fn chart_started(&mut self, accumulator: ChartAccumulator, execution: QueryExecution)
        requires
            old(self).wf(),
            accumulator.wf(),
        ensures
            final(self).wf(),
            *final(self) == (Explorer {
                chart: ChartPanel {
                    accumulator: Some(accumulator),
                    execution: Some(execution),
                    status: final(self).chart.status,
                    ..old(self).chart
                },
                ..*old(self)
            }),
            final(self).chart.status@ == "Chart query running…"@,
    {
        self.chart.accumulator = Some(accumulator);
        self.chart.execution = Some(execution);
        self.chart.status = "Chart query running…".to_owned();
    }

    /// The query of a chart could not ask for its first rows.
    pub fn chart_refused(&mut self, error: &str)
        ensures
            *final(self) == (Explorer {
                chart: ChartPanel { error: final(self).chart.error, ..old(self).chart },
                ..*old(self)
            }),
            says(final(self).chart.error, "Start chart query: "@ + error@),
    {
        self.chart.error = Some(cat("Start chart query: ", error));
    }

    /// Makes the chart of the rows that are shown, of which `inputs` holds the
    /// charted columns, batch by batch.
    pub fn chart_window<L, E>(
        &mut self,
        accumulator: ChartAccumulator,
        inputs: &Vec<(Vec<Field>, ChartInput)>,
        locate: L,
        edge: E,
    ) where L: Fn(u64, u64, u64, usize) -> usize, E: Fn(u64, u64, usize, usize) -> u64
        requires
            old(self).wf(),
            accumulator.wf(),
            forall|i: int|
                0 <= i < inputs@.len() ==> (#[trigger] inputs@[i]).1.wf() && inputs@[i].1.suits(
                    accumulator.settings().kind,
                ),
            accumulator@.skipped_rows + input_rows(inputs@, 0) <= usize::MAX,
            forall|value: u64, min: u64, max: u64, count: usize|
                locate.requires((value, min, max, count)),
            forall|min: u64, max: u64, count: usize, index: usize|
                edge.requires((min, max, count, index)),
        ensures
            final(self).wf(),
            *final(self) == (Explorer {
                chart: ChartPanel {
                    model: final(self).chart.model,
                    error: final(self).chart.error,
                    status: final(self).chart.status,
                    ..old(self).chart
                },
                ..*old(self)
            }),
            match gathered(accumulator.settings(), accumulator@, inputs@, 0) {
                Ok(state) => {
                    &&& final(self).chart.error == old(self).chart.error
                    &&& final(self).chart.model matches Some(model)
                    &&& chart_of(model, accumulator.settings(), state, locate, edge)
                    &&& final(self).chart.status@ == chart_text(
                        model,
                        "current bounded result window"@,
                    )
                },
                Err(error) => {
                    &&& final(self).chart.model == old(self).chart.model
                    &&& final(self).chart.status == old(self).chart.status
                    &&& says(final(self).chart.error, "Chart data: "@ + chart_error_text(error))
                },
            },
    {
        let ghost settings = accumulator.settings();
        let ghost start = accumulator@;
        let mut held = accumulator;
        let mut i: usize = 0;
        let mut full: bool = false;
        while i < inputs.len() && !full
            invariant
                i <= inputs@.len(),
                held.wf(),
                held.settings() == settings,
                settings == accumulator.settings(),
                start == accumulator@,
                old(self).wf(),
                forall|k: int|
                    0 <= k < inputs@.len() ==> (#[trigger] inputs@[k]).1.wf() && inputs@[k].1.suits(
                        settings.kind,
                    ),
                held@.skipped_rows + input_rows(inputs@, i as int) <= usize::MAX,
                full ==> gathered(settings, start, inputs@, 0) == Ok::<ChartState, ChartErrorModel>(
                    held@,
                ),
                !full ==> gathered(settings, start, inputs@, 0) == gathered(
                    settings,
                    held@,
                    inputs@,
                    i as int,
                ),
                *self == *old(self),
            decreases inputs@.len() - i,
        {
            proof {
                lemma_skipped_grows(held@, &inputs@[i as int].1, 0);
            }
            match held.push_batch(&inputs[i].0, &inputs[i].1) {
                Ok(more) => {
                    full = !more;
                },
                Err(error) => {
                    self.chart.error = Some(cat("Chart data: ", error.message().as_str()));
                    return;
                },
            }
            i = i + 1;
        }
        let model = held.finish(locate, edge);
        self.chart.status = chart_status(&model, "current bounded result window");
        self.chart.model = Some(model);
    }

    /// Makes the profile of a column ready, and says in which generation.
    pub fn begin_profile(&mut self, has_runtime: bool) -> (generation: Option<GenerationId>)
        requires
            old(self).wf(),
        ensures
            final(self).wf(),
            *final(self) == (Explorer { profile: final(self).profile, ..*old(self) }),
            if old(self).dataset is Some && has_runtime {
                let next = generation_after(old(self).profile.generation);
                &&& generation == Some(next)
                &&& final(self).profile == (ProfilePanel {
                    generation: next,
                    running: false,
                    result: None,
                    error: None,
                    ..old(self).profile
                })
            } else {
                &&& generation is None
                &&& final(self).profile == (ProfilePanel {
                    error: final(self).profile.error,
                    ..old(self).profile
                })
                &&& says(
                    final(self).profile.error,
                    if old(self).dataset is None {
                        "Open a dataset before profiling"@
                    } else {
                        "Background runtime is unavailable"@
                    },
                )
            },
    {
        if self.dataset.is_none() {
            self.profile.error = Some("Open a dataset before profiling".to_owned());
            None
        } else if !has_runtime {
            self.profile.error = Some("Background runtime is unavailable".to_owned());
            None
        } else {
            Some(self.profile.restart())
        }
    }

    /// What is exported where not only a row is: the result that is shown, or the
    /// whole dataset; none where there is no dataset.
    pub fn export_plan(&self) -> (plan: Option<LogicalPlan>)
        ensures
            match (self.filtered, self.dataset) {
                (Some(filtered), _) => plan matches Some(plan) && parts_of(plan) == parts_of(
                    filtered.plan,
                ),
                (None, Some(document)) => plan matches Some(plan) && parts_of(plan) == Ok::<
                    PlanParts,
                    PlanStep,
                >(whole_dataset(*document.metadata)),
                (None, None) => plan is None,
            },
    {
        if let Some(filtered) = &self.filtered {
            return Some(filtered.plan.copy());
        }
        match &self.dataset {
            Some(document) => {
                let columns = Projection::all(document.metadata.column_count).to_vec();
                let scan = LogicalPlan::scan(share_metadata(&document.metadata));
                assert(parts_of(scan) is Ok);
                Some(scan.project(columns))
            },
            None => None,
        }
    }

    /// An export takes the place of the one that was running, and gets a generation.
    pub fn begin_export(&mut self) -> (generation: GenerationId)
        ensures
            *final(self) == (Explorer {
                exporting: false,
                export_generation: generation,
                status: final(self).status,
                ..*old(self)
            }),
            generation == generation_after(generation_after(old(self).export_generation)),
            if old(self).exporting {
                final(self).status@ == "Export cancelled"@
            } else {
                final(self).status == old(self).status
            },
    {
        self.cancel_export();
        self.export_generation = next_generation(self.export_generation);
        self.export_generation
    }

    /// The export is running.
    pub fn export_started(&mut self, format: ExportFormat)
        ensures
            *final(self) == (Explorer {
                exporting: true,
                status: final(self).status,
                ..*old(self)
            }),
            final(self).status@ == "Exporting "@ + format.label_text() + "…"@,
    {
        self.exporting = true;
        self.status = cat3("Exporting ", format.label(), "…");
    }

    /// Takes in what the export has come to, and says whether it has ended. What
    /// belongs to an earlier export is dropped.
    pub fn export_polled(&mut self, event: &ExportEvent, path: &str) -> (ended: bool)
        ensures
            *final(self) == (Explorer {
                exporting: final(self).exporting,
                status: final(self).status,
                ..*old(self)
            }),
            if export_generation(*event) == old(self).export_generation {
                &&& ended == !(*event is Progress)
                &&& final(self).exporting == (old(self).exporting && !ended)
                &&& final(self).status@ == export_text(*event, path@)
            } else {
                &&& !ended
                &&& final(self).exporting == old(self).exporting
                &&& final(self).status == old(self).status
            },
    {
        match export_report(event, self.export_generation, path) {
            Some((status, ended)) => {
                self.status = status;
                if ended {
                    self.exporting = false;
                }
                ended
            },
            None => false,
        }
    }
}

} // verus!

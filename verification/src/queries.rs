//! What starting, ending and answering queries does to what the window shows.

use crate::execution::{execution_start, ExecutionError, QueryEngine, QueryExecution};
use crate::explorer::{starts_anew, Clock, Explorer, Saving};
use crate::filter::parsed_filter;
use crate::labels::{arrow, sorting_status};
use crate::logical::{parts_of, Filter, LogicalPlan};
use crate::page::PAGE_ROWS;
use crate::prepared::{
    prepare_filter, prepare_sort, prepare_sql, prepares_filter, prepares_sort, prepares_sql,
    PrepareError, PreparedQuery,
};
use crate::results::{display_pairs, polled, FilteredGrid, PollReport, QueryKind, QueryPoll};
use crate::schema::Field;
use crate::sort::{SortDirection, SortSpec};
use crate::state::{ColumnLayout, GridState};
use crate::text::{cat, chars_of, trim, trimmed};
use vstd::prelude::*;

verus! {

/// What a query is started for.
#[derive(Debug)]
pub enum QueryPurpose {
    /// A filter.
    Filter(String),
    /// A SQL query.
    Sql(String),
    /// A sort by the column of this name.
    Sort(String, SortDirection),
}

/// A query that is ready, and has not asked for rows yet.
#[derive(Debug)]
pub struct PendingQuery {
    pub query: PreparedQuery,
    pub execution: QueryExecution,
    pub purpose: QueryPurpose,
}

/// What asking for a query came to.
#[derive(Debug)]
pub struct QueryStart {
    pub pending: Option<PendingQuery>,
    pub saving: Saving,
}

/// What asking a query for rows came to.
#[derive(Clone, Copy, Debug, PartialEq, Eq, Structural)]
pub struct QueryProgress {
    /// Whether it can be asked again at once.
    pub more: bool,
    pub saving: Saving,
}

impl PendingQuery {
    /// The query runs this plan within the bounds of this engine, in this generation,
    /// from the start.
    pub open spec fn ready(
        &self,
        query: PreparedQuery,
        engine: QueryEngine,
        explorer: &Explorer,
    ) -> bool {
        &&& self.query == query
        &&& parts_of(query.plan) matches Ok(parts) && self.execution.planned().performs(parts)
        &&& self.execution.generation() == explorer.grid.generation
        &&& self.execution@ == execution_start(engine, self.execution.planned())
    }
}

/// What the user is told when a filter cannot be applied.
pub open spec fn filter_refusal(error: PrepareError, fields: Seq<Field>) -> Seq<char> {
    if error is Filter {
        error.message_text(fields)
    } else {
        "Invalid filter: "@ + error.message_text(fields)
    }
}

/// What the user is told when a SQL query cannot be run.
pub open spec fn sql_refusal(error: PrepareError, fields: Seq<Field>) -> Seq<char> {
    if error is Sql || error is EmptySql {
        error.message_text(fields)
    } else {
        "SQL error: "@ + error.message_text(fields)
    }
}

/// What the user is told when the rows cannot be sorted.
pub open spec fn sort_refusal(error: PrepareError, fields: Seq<Field>) -> Seq<char> {
    if error is Plan {
        "Sort error: "@ + error.message_text(fields)
    } else {
        error.message_text(fields)
    }
}

/// Whether an optional message is there and says this.
pub open spec fn says(message: Option<String>, text: Seq<char>) -> bool {
    message matches Some(said) && said@ == text
}

impl Explorer {
    /// What was shown has given way to a result with so many columns that has no
    /// rows yet.
    pub open spec fn gives_way(&self, after: &Explorer, columns: nat) -> bool {
        &&& *after == (Explorer {
            grid: after.grid,
            pages: after.pages,
            filtered: None,
            session: after.session,
            running_sql: after.running_sql,
            filter_error: after.filter_error,
            ..*self
        })
        &&& after.pages@.len() == 0
        &&& starts_anew(after.grid, self.grid, 0, columns)
    }

    /// The SQL query whose result was shown has ended, where there was one.
    pub open spec fn ends_shown_sql(&self, after: &Explorer, clock: Clock) -> bool {
        if self.showing(QueryKind::Sql) {
            after.running_sql is None && after.session@ == self.after_running(false, None, clock)
        } else {
            after.running_sql == self.running_sql && after.session == self.session
        }
    }

    /// Whether the session changes when the result that is shown goes.
    pub open spec fn ending_is_recorded(&self) -> bool {
        self.showing(QueryKind::Sql) && self.running_sql is Some
    }

    /// What a filter that was prepared leads to.
    pub open spec fn filter_follows(
        &self,
        prepared: Result<PreparedQuery, PrepareError>,
        has_runtime: bool,
        engine: QueryEngine,
        clock: Clock,
        after: &Explorer,
        start: QueryStart,
    ) -> bool {
        match prepared {
            Err(error) => {
                &&& *after == (Explorer { filter_error: after.filter_error, ..*self })
                &&& says(
                    after.filter_error,
                    filter_refusal(error, self.dataset->0.metadata.schema.fields@),
                )
                &&& start.pending is None
                &&& start.saving == Saving::No
            },
            Ok(query) => {
                &&& self.gives_way(after, query.projected_columns@.len())
                &&& self.ends_shown_sql(after, clock)
                &&& start.saving == if !self.ending_is_recorded() {
                    Saving::No
                } else if has_runtime {
                    Saving::Silent
                } else {
                    Saving::Reported
                }
                &&& if has_runtime {
                    &&& after.filter_error == self.filter_error
                    &&& start.pending matches Some(pending)
                    &&& pending.ready(query, engine, after)
                    &&& pending.purpose matches QueryPurpose::Filter(text)
                    &&& text@ == trimmed(self.filter_input@)
                } else {
                    &&& says(after.filter_error, "Background runtime is unavailable"@)
                    &&& start.pending is None
                }
            },
        }
    }

    /// What a SQL query that was prepared leads to.
    pub open spec fn sql_follows(
        &self,
        prepared: Result<PreparedQuery, PrepareError>,
        has_runtime: bool,
        engine: QueryEngine,
        clock: Clock,
        after: &Explorer,
        start: QueryStart,
    ) -> bool {
        match prepared {
            Err(error) => {
                &&& *after == (Explorer {
                    sql_error: after.sql_error,
                    session: after.session,
                    ..*self
                })
                &&& says(
                    after.sql_error,
                    sql_refusal(error, self.dataset->0.metadata.schema.fields@),
                )
                &&& start.pending is None
                &&& if error is EmptySql {
                    start.saving == Saving::No && after.session == self.session
                } else {
                    start.saving == Saving::Reported && after.session@ == self.after_failure(
                        trimmed(self.sql_input@),
                        clock,
                    )
                }
            },
            Ok(query) => if has_runtime {
                &&& self.gives_way(after, query.projected_columns@.len())
                &&& after.filter_error == self.filter_error
                &&& after.running_sql is None
                &&& after.session@ == self.after_running(false, None, clock)
                &&& start.saving == if self.running_sql is Some {
                    Saving::Silent
                } else {
                    Saving::No
                }
                &&& start.pending matches Some(pending)
                &&& pending.ready(query, engine, after)
                &&& pending.purpose matches QueryPurpose::Sql(text)
                &&& text@ == trimmed(self.sql_input@)
            } else {
                &&& *after == (Explorer { sql_error: after.sql_error, ..*self })
                &&& says(after.sql_error, "Background runtime is unavailable"@)
                &&& start.pending is None
                &&& start.saving == Saving::No
            },
        }
    }

    /// What a sort that was prepared leads to.
    pub open spec fn sort_follows(
        &self,
        column: usize,
        prepared: Result<PreparedQuery, PrepareError>,
        has_runtime: bool,
        engine: QueryEngine,
        clock: Clock,
        after: &Explorer,
        start: QueryStart,
    ) -> bool {
        match prepared {
            Ok(query) => if has_runtime {
                &&& self.gives_way(after, query.projected_columns@.len())
                &&& after.filter_error == self.filter_error
                &&& self.ends_shown_sql(after, clock)
                &&& start.saving == if self.ending_is_recorded() {
                    Saving::Silent
                } else {
                    Saving::No
                }
                &&& start.pending matches Some(pending)
                &&& pending.ready(query, engine, after)
                &&& pending.purpose matches QueryPurpose::Sort(name, direction)
                &&& name@ == self.dataset->0.column_names@[column as int]@
                &&& query.sort matches Some(sort)
                &&& direction == sort.direction
            } else {
                &&& *after == (Explorer { status: after.status, ..*self })
                &&& after.status@ == "Background runtime is unavailable"@
                &&& start.pending is None
                &&& start.saving == Saving::No
            },
            Err(error) => {
                &&& *after == (Explorer { status: after.status, ..*self })
                &&& after.status@ == sort_refusal(error, self.dataset->0.metadata.schema.fields@)
                &&& start.pending is None
                &&& start.saving == Saving::No
            },
        }
    }

    /// What is shown gives way to a result with so many columns.
    fn give_way(&mut self, columns: usize, clock: Clock) -> (recorded: bool)
        requires
            old(self).wf(),
        ensures
            final(self).wf(),
            old(self).gives_way(final(self), columns as nat),
            final(self).filter_error == old(self).filter_error,
            old(self).ends_shown_sql(final(self), clock),
            recorded == old(self).ending_is_recorded(),
    {
        self.pages.clear();
        let recorded = self.cancel_filter(clock);
        self.grid.reset();
        self.grid.ready(0, columns);
        recorded
    }

    /// A query that fits the dataset can be run.
    fn pending(
        &self,
        query: PreparedQuery,
        purpose: QueryPurpose,
        engine: &QueryEngine,
    ) -> (pending: Option<PendingQuery>)
        requires
            parts_of(query.plan) matches Ok(parts) && crate::planner::fits_dataset(parts),
        ensures
            pending matches Some(pending) && pending.ready(query, *engine, self) && pending.purpose
                == purpose,
    {
        match engine.execute(&query.plan, self.grid.generation) {
            Ok(execution) => Some(PendingQuery { query, execution, purpose }),
            Err(_) => None,
        }
    }

    /// Applies the filter that the user has entered.
    pub fn apply_filter(&mut self, has_runtime: bool, engine: &QueryEngine, clock: Clock) -> (start:
        QueryStart)
        requires
            old(self).wf(),
        ensures
            final(self).wf(),
            match old(self).dataset {
                Some(document) => exists|prepared: Result<PreparedQuery, PrepareError>| #[trigger]
                    prepares_filter(old(self).filter_input@, *document.metadata, prepared) && old(
                        self,
                    ).filter_follows(prepared, has_runtime, *engine, clock, final(self), start),
                None => {
                    &&& *final(self) == (Explorer {
                        filter_error: final(self).filter_error,
                        ..*old(self)
                    })
                    &&& match parsed_filter(trimmed(old(self).filter_input@)) {
                        Ok(_) => says(
                            final(self).filter_error,
                            "Open a dataset before applying a filter"@,
                        ),
                        Err(fault) => exists|error: crate::filter::FilterError| #[trigger]
                            error@ == fault && says(
                                final(self).filter_error,
                                "Invalid filter: "@ + error.message_text(),
                            ),
                    }
                    &&& start.pending is None
                    &&& start.saving == Saving::No
                },
            },
    {
        let document = match &self.dataset {
            Some(document) => document,
            None => {
                let expression = trim(self.filter_input.as_str());
                let message = match Filter::parse(expression.as_str()) {
                    Ok(_) => "Open a dataset before applying a filter".to_owned(),
                    Err(error) => cat("Invalid filter: ", error.message().as_str()),
                };
                self.filter_error = Some(message);
                return QueryStart { pending: None, saving: Saving::No };
            },
        };
        let prepared = prepare_filter(self.filter_input.as_str(), &document.metadata);
        match prepared {
            Err(error) => {
                let message = error.message(&document.metadata.schema);
                let message = match error {
                    PrepareError::Filter(_) => message,
                    _ => cat("Invalid filter: ", message.as_str()),
                };
                self.filter_error = Some(message);
                QueryStart { pending: None, saving: Saving::No }
            },
            Ok(query) => {
                let expression = trim(self.filter_input.as_str());
                let recorded = self.give_way(query.projected_columns.len(), clock);
                if !has_runtime {
                    self.filter_error = Some("Background runtime is unavailable".to_owned());
                    let saving = if recorded {
                        Saving::Reported
                    } else {
                        Saving::No
                    };
                    return QueryStart { pending: None, saving };
                }
                let pending = self.pending(query, QueryPurpose::Filter(expression), engine);
                let saving = if recorded {
                    Saving::Silent
                } else {
                    Saving::No
                };
                QueryStart { pending, saving }
            },
        }
    }

    /// Runs the SQL query that the user has entered.
    pub fn run_sql(&mut self, has_runtime: bool, engine: &QueryEngine, clock: Clock) -> (start:
        QueryStart)
        requires
            old(self).wf(),
        ensures
            final(self).wf(),
            match old(self).dataset {
                Some(document) => exists|prepared: Result<PreparedQuery, PrepareError>| #[trigger]
                    prepares_sql(trimmed(old(self).sql_input@), *document.metadata, prepared)
                        && old(self).sql_follows(prepared, has_runtime, *engine, clock, final(self), start),
                None => {
                    &&& *final(self) == (Explorer {
                        sql_error: final(self).sql_error,
                        session: final(self).session,
                        ..*old(self)
                    })
                    &&& start.pending is None
                    &&& if trimmed(old(self).sql_input@).len() == 0 {
                        &&& says(
                            final(self).sql_error,
                            "Enter a SELECT query before running it"@,
                        )
                        &&& final(self).session == old(self).session
                        &&& start.saving == Saving::No
                    } else {
                        &&& says(final(self).sql_error, "Open a dataset before running SQL"@)
                        &&& final(self).session@ == old(self).after_failure(
                            trimmed(old(self).sql_input@),
                            clock,
                        )
                        &&& start.saving == Saving::Reported
                    }
                },
            },
    {
        let sql = trim(self.sql_input.as_str());
        let document = match &self.dataset {
            Some(document) => document,
            None => {
                if chars_of(sql.as_str()).len() == 0 {
                    self.sql_error = Some("Enter a SELECT query before running it".to_owned());
                    return QueryStart { pending: None, saving: Saving::No };
                }
                self.sql_error = Some("Open a dataset before running SQL".to_owned());
                self.record_sql_failure(sql.as_str(), clock);
                return QueryStart { pending: None, saving: Saving::Reported };
            },
        };
        let prepared = prepare_sql(sql.as_str(), &document.metadata);
        match prepared {
            Err(error) => {
                let message = error.message(&document.metadata.schema);
                match error {
                    PrepareError::EmptySql => {
                        self.sql_error = Some(message);
                        return QueryStart { pending: None, saving: Saving::No };
                    },
                    PrepareError::Sql(_) => {
                        self.sql_error = Some(message);
                    },
                    _ => {
                        self.sql_error = Some(cat("SQL error: ", message.as_str()));
                    },
                }
                self.record_sql_failure(sql.as_str(), clock);
                QueryStart { pending: None, saving: Saving::Reported }
            },
            Ok(query) => {
                if !has_runtime {
                    self.sql_error = Some("Background runtime is unavailable".to_owned());
                    return QueryStart { pending: None, saving: Saving::No };
                }
                let recorded = self.record_sql_history(false, None, clock);
                self.give_way(query.projected_columns.len(), clock);
                let pending = self.pending(query, QueryPurpose::Sql(sql), engine);
                let saving = if recorded {
                    Saving::Silent
                } else {
                    Saving::No
                };
                QueryStart { pending, saving }
            },
        }
    }

    /// Sorts what is shown by a column, or the other way round where it is sorted by
    /// it.
    pub fn toggle_sort(
        &mut self,
        column: usize,
        has_runtime: bool,
        engine: &QueryEngine,
        clock: Clock,
    ) -> (start: QueryStart)
        requires
            old(self).wf(),
        ensures
            final(self).wf(),
            match old(self).dataset {
                Some(document) => exists|prepared: Result<PreparedQuery, PrepareError>| #[trigger]
                    prepares_sort(old(self).shown_plan(), *document.metadata, column, prepared)
                        && old(self).sort_follows(
                        column,
                        prepared,
                        has_runtime,
                        *engine,
                        clock,
                        final(self),
                        start,
                    ),
                None => {
                    &&& *final(self) == (Explorer { status: final(self).status, ..*old(self) })
                    &&& final(self).status@ == "Open a dataset before sorting"@
                    &&& start.pending is None
                    &&& start.saving == Saving::No
                },
            },
    {
        let document = match &self.dataset {
            Some(document) => document,
            None => {
                self.status = "Open a dataset before sorting".to_owned();
                return QueryStart { pending: None, saving: Saving::No };
            },
        };
        let current: Option<(&LogicalPlan, QueryKind, Option<SortSpec>)> = match &self.filtered {
            Some(filtered) => Some((&filtered.plan, filtered.kind, filtered.sort)),
            None => None,
        };
        let prepared = prepare_sort(current, &document.metadata, column);
        match prepared {
            Err(error) => {
                let message = error.message(&document.metadata.schema);
                self.status = match error {
                    PrepareError::Plan(_) => cat("Sort error: ", message.as_str()),
                    _ => message,
                };
                QueryStart { pending: None, saving: Saving::No }
            },
            Ok(query) => {
                if !has_runtime {
                    self.status = "Background runtime is unavailable".to_owned();
                    return QueryStart { pending: None, saving: Saving::No };
                }
                assert(document.column_names@.len() == document.metadata.schema.fields@.len()) by {
                    assert(crate::table::texts(document.column_names@).len()
                        == document.column_names@.len());
                }
                let name = document.column_names[column].as_str().to_owned();
                let direction: SortDirection = match query.sort {
                    Some(sort) => sort.direction,
                    None => SortDirection::Ascending,
                };
                let recorded = self.give_way(query.projected_columns.len(), clock);
                let pending = self.pending(query, QueryPurpose::Sort(name, direction), engine);
                let saving = if recorded {
                    Saving::Silent
                } else {
                    Saving::No
                };
                QueryStart { pending, saving }
            },
        }
    }

    /// The plan, the kind and the order of the result that is shown.
    pub open spec fn shown_plan(&self) -> Option<(LogicalPlan, QueryKind, Option<SortSpec>)> {
        match self.filtered {
            Some(filtered) => Some((filtered.plan, filtered.kind, filtered.sort)),
            None => None,
        }
    }
}

/// Whether a window is the empty one on a query, with the columns that the layout
/// shows.
pub open spec fn opens_window(
    grid: FilteredGrid,
    pending: PendingQuery,
    layout: ColumnLayout,
) -> bool {
    &&& grid.tracks(Seq::empty())
    &&& grid.kind == pending.query.kind
    &&& grid.plan == pending.query.plan
    &&& grid.sort == pending.query.sort
    &&& grid.aggregate == pending.query.aggregate
    &&& grid.projected_columns == pending.query.projected_columns
    &&& grid.execution == Some(pending.execution)
    &&& grid.target_result == PAGE_ROWS
    &&& !grid.finished
    &&& grid.error is None
    &&& grid.display_columns@ == if grid.aggregate {
        Seq::new(grid.projected_columns@.len(), |i: int| (i as usize, i as usize))
    } else {
        display_pairs(layout.shown(), grid.projected_columns@)
    }
}

impl Explorer {
    /// The query has asked for its first rows.
    pub fn query_started(&mut self, pending: PendingQuery) -> (saving: Saving)
        requires
            old(self).wf(),
        ensures
            final(self).wf(),
            *final(self) == (Explorer {
                grid: GridState { columns: final(self).grid.columns, ..old(self).grid },
                filtered: final(self).filtered,
                filter_error: final(self).filter_error,
                sql_error: final(self).sql_error,
                running_sql: final(self).running_sql,
                session: final(self).session,
                status: final(self).status,
                ..*old(self)
            }),
            final(self).filtered matches Some(grid) && opens_window(
                grid,
                pending,
                old(self).column_layout,
            ) && final(self).grid.columns == grid.display_columns@.len(),
            match pending.purpose {
                QueryPurpose::Filter(expression) => {
                    &&& saving == Saving::No
                    &&& final(self).filter_error is None
                    &&& final(self).sql_error == old(self).sql_error
                    &&& final(self).running_sql == old(self).running_sql
                    &&& final(self).session == old(self).session
                    &&& final(self).status@ == "Filtering: "@ + expression@
                },
                QueryPurpose::Sql(sql) => {
                    &&& saving == Saving::Silent
                    &&& final(self).filter_error == old(self).filter_error
                    &&& final(self).sql_error is None
                    &&& final(self).running_sql == Some(sql)
                    &&& final(self).session@ == old(self).kept(old(self).session@)
                    &&& final(self).status@ == "SQL: running"@
                },
                QueryPurpose::Sort(name, direction) => {
                    &&& saving == Saving::No
                    &&& final(self).filter_error == old(self).filter_error
                    &&& final(self).sql_error == old(self).sql_error
                    &&& final(self).running_sql == old(self).running_sql
                    &&& final(self).session == old(self).session
                    &&& final(self).status@ == "Sorting "@ + name@ + " "@ + arrow(direction)
                        + " (nulls last)"@
                },
            },
    {
        let PendingQuery { query, execution, purpose } = pending;
        self.filtered = Some(
            FilteredGrid::new(
                query.kind,
                query.plan,
                query.sort,
                query.aggregate,
                query.projected_columns,
                execution,
            ),
        );
        self.refresh_grid_columns();
        match purpose {
            QueryPurpose::Filter(expression) => {
                self.filter_error = None;
                self.status = cat("Filtering: ", expression.as_str());
                Saving::No
            },
            QueryPurpose::Sql(sql) => {
                self.sql_error = None;
                self.running_sql = Some(sql);
                self.keep_choices();
                self.status = "SQL: running".to_owned();
                Saving::Silent
            },
            QueryPurpose::Sort(name, direction) => {
                self.status = sorting_status(name.as_str(), direction);
                Saving::No
            },
        }
    }

    /// The query could not ask for its first rows.
    pub fn query_refused(&mut self, purpose: QueryPurpose, error: &str, clock: Clock) -> (saving:
        Saving)
        ensures
            *final(self) == (Explorer {
                filter_error: final(self).filter_error,
                sql_error: final(self).sql_error,
                session: final(self).session,
                status: final(self).status,
                ..*old(self)
            }),
            match purpose {
                QueryPurpose::Filter(_) => {
                    &&& saving == Saving::No
                    &&& says(final(self).filter_error, "Start filter: "@ + error@)
                    &&& final(self).sql_error == old(self).sql_error
                    &&& final(self).session == old(self).session
                    &&& final(self).status@ == "Unable to start filter"@
                },
                QueryPurpose::Sql(sql) => {
                    &&& saving == Saving::Reported
                    &&& final(self).filter_error == old(self).filter_error
                    &&& says(final(self).sql_error, "Start SQL query: "@ + error@)
                    &&& final(self).session@ == old(self).after_failure(sql@, clock)
                    &&& final(self).status@ == "Unable to start SQL query"@
                },
                QueryPurpose::Sort(_, _) => {
                    &&& saving == Saving::No
                    &&& final(self).filter_error == old(self).filter_error
                    &&& final(self).sql_error == old(self).sql_error
                    &&& final(self).session == old(self).session
                    &&& final(self).status@ == "Start sort: "@ + error@
                },
            },
    {
        match purpose {
            QueryPurpose::Filter(_) => {
                self.filter_error = Some(cat("Start filter: ", error));
                self.status = "Unable to start filter".to_owned();
                Saving::No
            },
            QueryPurpose::Sql(sql) => {
                self.sql_error = Some(cat("Start SQL query: ", error));
                self.status = "Unable to start SQL query".to_owned();
                self.record_sql_failure(sql.as_str(), clock);
                Saving::Reported
            },
            QueryPurpose::Sort(_, _) => {
                self.status = cat("Start sort: ", error);
                Saving::No
            },
        }
    }

    /// The whole dataset is shown again, where there is one.
    pub open spec fn shows_dataset(&self, after: &Explorer, message: Seq<char>) -> bool {
        &&& after.filtered is None
        &&& after.pages@.len() == 0
        &&& match self.dataset {
            Some(document) => starts_anew(
                after.grid,
                self.grid,
                document.metadata.row_count,
                self.column_layout.shown().len(),
            ) && after.status@ == message,
            None => {
                &&& after.grid.generation == crate::panels::generation_after(self.grid.generation)
                &&& after.grid.rows == 0
                &&& after.grid.columns == 0
                &&& after.grid.loading is Opening
                &&& after.grid.requested@ == Set::<u64>::empty()
                &&& after.grid.loaded@ == Set::<u64>::empty()
                &&& after.grid.selection is None
                &&& after.grid.selection_range is None
                &&& after.status == self.status
            },
        }
    }

    fn show_dataset(&mut self, message: &str)
        requires
            old(self).wf(),
            old(self).filtered is None,
        ensures
            final(self).wf(),
            *final(self) == (Explorer {
                grid: final(self).grid,
                pages: final(self).pages,
                status: final(self).status,
                ..*old(self)
            }),
            old(self).shows_dataset(final(self), message@),
    {
        self.pages.clear();
        self.grid.reset();
        if let Some(document) = &self.dataset {
            let rows: u64 = document.metadata.row_count;
            let columns: usize = self.column_layout.visible().len();
            self.grid.ready(rows, columns);
            self.status = message.to_owned();
        }
    }

    /// Forgets the filter, and shows the whole dataset again where the filter was
    /// applied.
    pub fn clear_filter(&mut self, clock: Clock)
        requires
            old(self).wf(),
        ensures
            final(self).wf(),
            final(self).filter_error is None,
            final(self).filter_input@.len() == 0,
            if old(self).showing(QueryKind::Filter) {
                &&& *final(self) == (Explorer {
                    grid: final(self).grid,
                    pages: final(self).pages,
                    filtered: None,
                    filter_input: final(self).filter_input,
                    filter_error: None,
                    status: final(self).status,
                    ..*old(self)
                })
                &&& old(self).shows_dataset(final(self), "Filter cleared"@)
            } else {
                *final(self) == (Explorer {
                    filter_input: final(self).filter_input,
                    filter_error: None,
                    ..*old(self)
                })
            },
    {
        let filtering = self.shows(QueryKind::Filter);
        self.filter_input = String::new();
        self.filter_error = None;
        if filtering {
            self.cancel_filter(clock);
            self.show_dataset("Filter cleared");
        }
    }

    /// Ends the SQL query whose result is shown, and shows the whole dataset again.
    pub fn cancel_sql(&mut self, clock: Clock) -> (saving: Saving)
        requires
            old(self).wf(),
        ensures
            final(self).wf(),
            if old(self).showing(QueryKind::Sql) {
                &&& *final(self) == (Explorer {
                    grid: final(self).grid,
                    pages: final(self).pages,
                    filtered: None,
                    running_sql: None,
                    session: final(self).session,
                    status: final(self).status,
                    ..*old(self)
                })
                &&& old(self).shows_dataset(final(self), "SQL query cancelled"@)
                &&& final(self).session@ == old(self).after_running(false, None, clock)
                &&& saving == if old(self).running_sql is None {
                    Saving::No
                } else if old(self).dataset is Some {
                    Saving::Silent
                } else {
                    Saving::Reported
                }
            } else {
                *final(self) == *old(self) && saving == Saving::No
            },
    {
        if !self.shows(QueryKind::Sql) {
            return Saving::No;
        }
        let recorded = self.cancel_filter(clock);
        self.show_dataset("SQL query cancelled");
        if !recorded {
            Saving::No
        } else if self.dataset.is_some() {
            Saving::Silent
        } else {
            Saving::Reported
        }
    }

    /// Takes in what asking the query for rows came to.
    pub fn query_polled(
        &mut self,
        poll: Result<QueryPoll, ExecutionError>,
        clock: Clock,
    ) -> (progress: QueryProgress)
        requires
            old(self).wf(),
        ensures
            final(self).wf(),
            match old(self).filtered {
                None => *final(self) == *old(self) && progress == (QueryProgress {
                    more: false,
                    saving: Saving::No,
                }),
                Some(before) => exists|after: FilteredGrid, grid: GridState, report: PollReport|
                    #[trigger]
                    polled(before, after, old(self).grid, grid, poll, report) && old(
                        self,
                    ).poll_follows(after, grid, report, clock, final(self), progress),
            },
    {
        let held = self.filtered.take();
        match held {
            None => QueryProgress { more: false, saving: Saving::No },
            Some(mut filtered) => {
                let report = filtered.apply_poll(poll, &mut self.grid);
                self.grid.rows = filtered.rows;
                self.filtered = Some(filtered);
                if let Some(status) = report.status {
                    self.status = status;
                }
                let recorded = match report.history {
                    Some((success, row_count)) => self.record_sql_history(
                        success,
                        row_count,
                        clock,
                    ),
                    None => false,
                };
                let saving = if recorded {
                    Saving::Reported
                } else {
                    Saving::No
                };
                QueryProgress { more: report.more, saving }
            },
        }
    }

    /// What asking the query for rows leads to, given what its window and the grid
    /// became and what was reported.
    pub open spec fn poll_follows(
        &self,
        filtered: FilteredGrid,
        grid: GridState,
        report: PollReport,
        clock: Clock,
        after: &Explorer,
        progress: QueryProgress,
    ) -> bool {
        &&& *after == (Explorer {
            grid: GridState { rows: filtered.rows, ..grid },
            filtered: Some(filtered),
            running_sql: after.running_sql,
            session: after.session,
            status: after.status,
            ..*self
        })
        &&& after.status == match report.status {
            Some(status) => status,
            None => self.status,
        }
        &&& progress.more == report.more
        &&& match report.history {
            Some((success, row_count)) => {
                &&& after.running_sql is None
                &&& after.session@ == self.after_running(success, row_count, clock)
                &&& progress.saving == if self.running_sql is Some {
                    Saving::Reported
                } else {
                    Saving::No
                }
            },
            None => {
                &&& after.running_sql == self.running_sql
                &&& after.session == self.session
                &&& progress.saving == Saving::No
            },
        }
    }
}

} // verus!

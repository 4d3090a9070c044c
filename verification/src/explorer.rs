//! What the window shows, and what opening a dataset, loading its pages and
//! arranging its columns do to it.

use std::sync::Arc;

use crate::grid_pages::{answered, GridPages};
use crate::labels::{opened_status, opened_text};
use crate::layouts::{
    columns_by_name, columns_named, hidden_names, joined_names, kept_width, layout_preference,
    names_of_columns, restored_order, restored_order_of, restored_widths, schema_key, width_models,
};
use crate::logical::share_metadata;
use crate::metadata::DatasetMetadata;
use crate::page::{DataPage, PAGE_ROWS};
use crate::panels::{
    default_chart_columns, generation_after, next_generation, ChartPanel, ProfilePanel,
};
use crate::projection::{all_columns, projection_fault, Projection};
use crate::results::{display_pairs, FilteredGrid, QueryKind};
use crate::runtime::{GenerationId, OpenOutcome, PageResponse};
use crate::schema::{field_names, Field};
use crate::session::{
    bounded, file_recorded, file_removed, is_written, layout_saved, query_recorded,
    GridLayoutPreference, HistoryModel, Preferences, SessionModel, SessionState,
    MAX_LAYOUT_COLUMNS, MAX_QUERY_BYTES,
};
use crate::session_laws::law_newest_query_comes_first;
use crate::state::{
    clamped_width, is_order, ColumnLayout, GridState, LoadState, ToolbarAvailability,
    ToolbarCommand, Workspace,
};
use crate::table::texts;
use crate::text::{cat, cat3, decimal, decimal_text};
use vstd::prelude::*;

verus! {

/// The dataset that is open.
#[derive(Debug)]
pub struct Document {
    pub metadata: Arc<DatasetMetadata>,
    pub path: String,
    pub column_names: Vec<String>,
}

impl Document {
    /// The names are those of the columns.
    pub open spec fn wf(&self) -> bool {
        texts(self.column_names@) == field_names(self.metadata.schema.fields@)
    }
}

/// The time of day, and how long the query that is running takes already.
#[derive(Clone, Copy, Debug, PartialEq, Eq, Structural)]
pub struct Clock {
    pub now_unix_secs: u64,
    pub elapsed_ms: u64,
}

/// Whether the session has to be written, and whether the user is told where that
/// fails.
#[derive(Clone, Copy, Debug, PartialEq, Eq, Structural)]
pub enum Saving {
    No,
    Silent,
    Reported,
}

/// A key, pressed together with the command key, that changes what is shown.
#[derive(Clone, Copy, Debug, PartialEq, Eq, Structural)]
pub enum Shortcut {
    Grid,
    Sql,
    Inspector,
    Filter,
}

/// What the window shows.
#[derive(Debug)]
pub struct Explorer {
    pub grid: GridState,
    pub dataset: Option<Document>,
    pub pages: GridPages,
    pub filtered: Option<FilteredGrid>,
    pub column_layout: ColumnLayout,
    pub path_input: String,
    pub filter_input: String,
    pub filter_error: Option<String>,
    pub sql_input: String,
    pub sql_error: Option<String>,
    pub chart: ChartPanel,
    pub profile: ProfilePanel,
    pub session: SessionState,
    /// The SQL query that is running.
    pub running_sql: Option<String>,
    pub workspace: Workspace,
    pub show_inspector: bool,
    pub show_filter_controls: bool,
    pub show_safe_full_selection: bool,
    pub show_nested_selection: bool,
    pub exporting: bool,
    pub export_generation: GenerationId,
    pub status: String,
}

/// Whether a grid has started anew, on so many rows and columns.
pub open spec fn starts_anew(
    grid: GridState,
    before: GridState,
    rows: u64,
    columns: nat,
) -> bool {
    &&& grid.generation == generation_after(before.generation)
    &&& grid.rows == rows
    &&& grid.columns == columns
    &&& grid.loading is Ready
    &&& grid.requested@ == Set::<u64>::empty()
    &&& grid.loaded@ == Set::<u64>::empty()
    &&& grid.selection is None
    &&& grid.selection_range is None
}

/// Whether a layout shows all columns in their order, with the same width.
pub open spec fn plain_layout(layout: ColumnLayout, count: nat, width: u32) -> bool {
    &&& layout.column_order() == Seq::new(count, |i: int| i as usize)
    &&& layout.hidden_columns() == Set::<usize>::empty()
    &&& layout.column_widths() == Seq::new(count, |i: int| width)
}

/// Whether a layout is the one that was kept for columns with these names; it is
/// the plain one where what was kept does not fit.
pub open spec fn kept_layout(
    layout: ColumnLayout,
    names: Seq<Seq<char>>,
    kept: GridLayoutPreference,
    widths: Seq<u32>,
    width: u32,
) -> bool {
    let order = restored_order_of(names, texts(kept.order@));
    if order.len() == names.len() && is_order(order) {
        &&& layout.column_order() == order
        &&& layout.hidden_columns() =~= Set::new(
            |column: usize|
                columns_named(names, texts(kept.hidden@)).contains(column) && column < order.len(),
        )
        &&& layout.column_widths() == widths.map_values(|bits: u32| clamped_width(bits))
    } else {
        plain_layout(layout, names.len(), width)
    }
}

/// Whether a layout is what a session keeps for columns with these names.
/// `width_bits` turns a width that is kept, or that none is kept, into a width.
pub open spec fn restored_layout<F: Fn(Option<u16>) -> u32>(
    layout: ColumnLayout,
    names: Seq<Seq<char>>,
    kept: Seq<GridLayoutPreference>,
    width_bits: F,
) -> bool {
    exists|width: u32| #[trigger]
        width_bits.ensures((None,), width) && {
            ||| plain_layout(layout, names.len(), width) && (names.len() > MAX_LAYOUT_COLUMNS
                || forall|i: int|
                0 <= i < kept.len() ==> (#[trigger] kept[i]).schema_key@ != joined_names(names))
            ||| names.len() <= MAX_LAYOUT_COLUMNS && exists|i: int, widths: Seq<u32>|
                0 <= i < kept.len() && kept[i].schema_key@ == joined_names(names) && widths.len()
                    == names.len() && (forall|k: int|
                    0 <= k < names.len() ==> width_bits.ensures(
                        (kept_width(kept[i].widths@, names[k]),),
                        #[trigger] widths[k],
                    )) && #[trigger] kept_layout(layout, names, kept[i], widths, width)
        }
}

fn names_of(fields: &Vec<Field>) -> (names: Vec<String>)
    ensures
        texts(names@) == field_names(fields@),
        names@.len() == fields@.len(),
{
    let mut names: Vec<String> = Vec::new();
    let mut i: usize = 0;
    while i < fields.len()
        invariant
            i <= fields@.len(),
            names@.len() == i,
            forall|k: int| 0 <= k < i ==> (#[trigger] names@[k])@ == fields@[k].name@,
        decreases fields@.len() - i,
    {
        names.push(fields[i].name.as_str().to_owned());
        i = i + 1;
    }
    assert(texts(names@) =~= field_names(fields@));
    names
}

impl Explorer {
    pub open spec fn wf(&self) -> bool {
        &&& self.pages.wf()
        &&& self.column_layout.wf()
        &&& self.chart.wf()
        &&& self.filtered matches Some(filtered) ==> filtered.wf()
        &&& self.dataset matches Some(document) ==> document.wf()
    }

    /// Whether the result of such a query is shown.
    pub open spec fn showing(&self, kind: QueryKind) -> bool {
        self.filtered matches Some(filtered) && filtered.kind == kind
    }

    /// A session with what the user has entered and chosen last.
    pub open spec fn kept(&self, session: SessionModel) -> SessionModel {
        SessionModel {
            sql_input: self.sql_input@,
            preferences: Preferences {
                inspector_visible: self.show_inspector,
                chart_visible: self.chart.visible,
            },
            ..session
        }
    }

    /// The session once the SQL query that was running has ended.
    pub open spec fn after_running(
        &self,
        success: bool,
        row_count: Option<u64>,
        clock: Clock,
    ) -> SessionModel {
        match self.running_sql {
            Some(sql) => self.kept(
                query_recorded(
                    self.session@,
                    HistoryModel {
                        sql: sql@,
                        timestamp_unix_secs: clock.now_unix_secs,
                        duration_ms: clock.elapsed_ms,
                        success,
                        row_count,
                    },
                ),
            ),
            None => self.session@,
        }
    }

    /// The session once a SQL query could not be started.
    pub open spec fn after_failure(&self, sql: Seq<char>, clock: Clock) -> SessionModel {
        self.kept(
            query_recorded(
                self.session@,
                HistoryModel {
                    sql,
                    timestamp_unix_secs: clock.now_unix_secs,
                    duration_ms: 0,
                    success: false,
                    row_count: None,
                },
            ),
        )
    }

    /// A window without a dataset. Columns are `width` wide at first.
    pub fn new(session: SessionState, path: Option<String>, width: u32) -> (explorer: Self)
        ensures
            explorer.wf(),
            explorer.session == session,
            explorer.sql_input@ == session.sql_input@,
            explorer.show_inspector == session.preferences.inspector_visible,
            explorer.chart.visible == session.preferences.chart_visible,
            explorer.path_input@ == match path {
                Some(path) => path@,
                None => Seq::empty(),
            },
            explorer.dataset is None,
            explorer.filtered is None,
            explorer.running_sql is None,
            explorer.filter_error is None,
            explorer.sql_error is None,
            explorer.filter_input@ == Seq::<char>::empty(),
            explorer.workspace == Workspace::Grid,
            !explorer.show_filter_controls,
            !explorer.show_safe_full_selection,
            !explorer.show_nested_selection,
            !explorer.exporting,
            explorer.export_generation == GenerationId(0),
            explorer.pages@ == Seq::<(u64, DataPage)>::empty(),
            explorer.grid.is_unused(),
            explorer.chart.is_unused(),
            explorer.profile.is_unused(),
            plain_layout(explorer.column_layout, 0, width),
            explorer.status@ == "Choose a Parquet file to begin"@,
    {
        let mut chart = ChartPanel::default();
        chart.visible = session.preferences.chart_visible;
        let sql_input = session.sql_input.as_str().to_owned();
        let show_inspector: bool = session.preferences.inspector_visible;
        let path_input = match path {
            Some(path) => path,
            None => String::new(),
        };
        Explorer {
            grid: GridState::default(),
            dataset: None,
            pages: GridPages::new(),
            filtered: None,
            column_layout: ColumnLayout::new(0, width),
            path_input,
            filter_input: String::new(),
            filter_error: None,
            sql_input,
            sql_error: None,
            chart,
            profile: ProfilePanel::default(),
            session,
            running_sql: None,
            workspace: Workspace::Grid,
            show_inspector,
            show_filter_controls: false,
            show_safe_full_selection: false,
            show_nested_selection: false,
            exporting: false,
            export_generation: GenerationId(0),
            status: "Choose a Parquet file to begin".to_owned(),
        }
    }

    /// Whether the result of such a query is shown.
    pub fn shows(&self, kind: QueryKind) -> (shown: bool)
        ensures
            shown == self.showing(kind),
    {
        match &self.filtered {
            Some(filtered) => filtered.kind == kind,
            None => false,
        }
    }

    /// Notes in the session what the user has entered and chosen.
    pub fn keep_choices(&mut self)
        ensures
            *final(self) == (Explorer { session: final(self).session, ..*old(self) }),
            final(self).session@ == old(self).kept(old(self).session@),
    {
        self.session.sql_input = self.sql_input.as_str().to_owned();
        self.session.preferences = Preferences {
            inspector_visible: self.show_inspector,
            chart_visible: self.chart.visible,
        };
    }

    /// The commands that can be given; `opening` says whether a dataset is being
    /// opened.
    pub fn toolbar_availability(&self, opening: bool) -> (available: ToolbarAvailability)
        ensures
            available.has_dataset == (self.dataset is Some),
            available.opening == opening,
    {
        ToolbarAvailability { has_dataset: self.dataset.is_some(), opening }
    }

    /// Does what a key asks for, where that can be done.
    pub fn press(&mut self, shortcut: Shortcut, opening: bool) -> (saving: Saving)
        ensures
            saving == if shortcut == Shortcut::Inspector {
                Saving::Reported
            } else {
                Saving::No
            },
            ({
                let enabled = old(self).dataset is Some && !opening;
                match shortcut {
                    Shortcut::Grid => *final(self) == (Explorer {
                        workspace: Workspace::Grid,
                        ..*old(self)
                    }),
                    Shortcut::Sql => *final(self) == if enabled {
                        Explorer { workspace: Workspace::Sql, ..*old(self) }
                    } else {
                        *old(self)
                    },
                    Shortcut::Inspector => *final(self) == (Explorer {
                        show_inspector: !old(self).show_inspector,
                        session: final(self).session,
                        ..*old(self)
                    }) && final(self).session@ == final(self).kept(old(self).session@),
                    Shortcut::Filter => *final(self) == if enabled {
                        Explorer {
                            workspace: Workspace::Grid,
                            show_filter_controls: true,
                            ..*old(self)
                        }
                    } else {
                        *old(self)
                    },
                }
            }),
    {
        let available = self.toolbar_availability(opening);
        match shortcut {
            Shortcut::Grid => {
                self.workspace = Workspace::Grid;
            },
            Shortcut::Sql => {
                if available.enabled(ToolbarCommand::Sql) {
                    self.workspace = Workspace::Sql;
                }
            },
            Shortcut::Inspector => {
                self.show_inspector = !self.show_inspector;
                self.keep_choices();
                return Saving::Reported;
            },
            Shortcut::Filter => {
                if available.enabled(ToolbarCommand::Filter) {
                    self.workspace = Workspace::Grid;
                    self.show_filter_controls = true;
                }
            },
        }
        Saving::No
    }

    /// The SQL query that was running has ended.
    pub fn record_sql_history(
        &mut self,
        success: bool,
        row_count: Option<u64>,
        clock: Clock,
    ) -> (recorded: bool)
        ensures
            recorded == (old(self).running_sql is Some),
            *final(self) == (Explorer {
                running_sql: None,
                session: final(self).session,
                ..*old(self)
            }),
            final(self).session@ == old(self).after_running(success, row_count, clock),
    {
        let running = self.running_sql.take();
        match running {
            Some(sql) => {
                self.session.record_query(
                    sql.as_str(),
                    clock.now_unix_secs,
                    clock.elapsed_ms,
                    success,
                    row_count,
                );
                self.keep_choices();
                true
            },
            None => false,
        }
    }

    /// A SQL query could not be started.
    pub fn record_sql_failure(&mut self, sql: &str, clock: Clock)
        ensures
            *final(self) == (Explorer { session: final(self).session, ..*old(self) }),
            final(self).session@ == old(self).after_failure(sql@, clock),
    {
        self.session.record_query(sql, clock.now_unix_secs, 0, false, None);
        self.keep_choices();
    }

    /// The result of a query is not shown any more.
    pub fn cancel_filter(&mut self, clock: Clock) -> (recorded: bool)
        ensures
            recorded == (old(self).showing(QueryKind::Sql) && old(self).running_sql is Some),
            *final(self) == (Explorer {
                filtered: None,
                running_sql: final(self).running_sql,
                session: final(self).session,
                ..*old(self)
            }),
            if old(self).showing(QueryKind::Sql) {
                final(self).running_sql is None && final(self).session@ == old(self).after_running(
                    false,
                    None,
                    clock,
                )
            } else {
                final(self).running_sql == old(self).running_sql && final(self).session == old(
                    self,
                ).session
            },
    {
        let sql = self.shows(QueryKind::Sql);
        self.filtered = None;
        if sql {
            self.record_sql_history(false, None, clock)
        } else {
            false
        }
    }

    /// An export is not wanted any more.
    pub fn cancel_export(&mut self)
        ensures
            *final(self) == (Explorer {
                exporting: false,
                export_generation: generation_after(old(self).export_generation),
                status: final(self).status,
                ..*old(self)
            }),
            if old(self).exporting {
                final(self).status@ == "Export cancelled"@
            } else {
                final(self).status == old(self).status
            },
    {
        if self.exporting {
            self.status = "Export cancelled".to_owned();
        }
        self.exporting = false;
        self.export_generation = next_generation(self.export_generation);
    }

    /// A dataset is about to be opened, and everything that belongs to the one that
    /// was open goes.
    pub fn begin_open(&mut self, path: &str, clock: Clock) -> (saving: Saving)
        requires
            old(self).wf(),
        ensures
            final(self).wf(),
            saving == if old(self).running_sql is Some {
                Saving::Silent
            } else {
                Saving::No
            },
            *final(self) == (Explorer {
                grid: final(self).grid,
                dataset: None,
                pages: final(self).pages,
                filtered: None,
                path_input: final(self).path_input,
                filter_error: None,
                sql_error: None,
                chart: final(self).chart,
                profile: final(self).profile,
                session: final(self).session,
                running_sql: None,
                workspace: Workspace::Grid,
                show_filter_controls: false,
                show_safe_full_selection: false,
                show_nested_selection: false,
                exporting: false,
                export_generation: generation_after(old(self).export_generation),
                status: final(self).status,
                ..*old(self)
            }),
            final(self).grid.generation == generation_after(old(self).grid.generation),
            final(self).grid.rows == 0,
            final(self).grid.columns == 0,
            final(self).grid.loading is Opening,
            final(self).grid.requested@ == Set::<u64>::empty(),
            final(self).grid.loaded@ == Set::<u64>::empty(),
            final(self).grid.selection is None,
            final(self).grid.selection_range is None,
            final(self).pages@.len() == 0,
            final(self).path_input@ == path@,
            final(self).chart.cleared(&old(self).chart),
            final(self).profile.cleared(&old(self).profile),
            final(self).session@ == old(self).after_running(false, None, clock),
            final(self).status@ == "Opening "@ + path@ + "…"@,
    {
        self.pages.clear();
        self.cancel_export();
        let recorded = self.record_sql_history(false, None, clock);
        self.filtered = None;
        self.chart.reset();
        self.profile.reset();
        self.show_safe_full_selection = false;
        self.show_nested_selection = false;
        self.workspace = Workspace::Grid;
        self.show_filter_controls = false;
        self.dataset = None;
        self.filter_error = None;
        self.sql_error = None;
        self.grid.reset();
        self.path_input = path.to_owned();
        self.status = cat3("Opening ", path, "…");
        if recorded {
            Saving::Silent
        } else {
            Saving::No
        }
    }

    /// A dataset could not be opened.
    pub fn open_error(&mut self, error: String)
        ensures
            *final(self) == (Explorer {
                grid: GridState { loading: LoadState::Error(error), ..old(self).grid },
                status: final(self).status,
                ..*old(self)
            }),
            final(self).status@ == error@,
    {
        self.status = error.as_str().to_owned();
        self.grid.loading = LoadState::Error(error);
    }

    fn restore_column_layout<F: Fn(Option<u16>) -> u32>(
        &mut self,
        names: &Vec<String>,
        width_bits: &F,
    )
        requires
            forall|kept: Option<u16>| width_bits.requires((kept,)),
        ensures
            *final(self) == (Explorer {
                column_layout: final(self).column_layout,
                ..*old(self)
            }),
            final(self).column_layout.wf(),
            restored_layout(
                final(self).column_layout,
                texts(names@),
                old(self).session.grid_layouts@,
                *width_bits,
            ),
    {
        let ghost all = texts(names@);
        let width: u32 = width_bits(None);
        self.column_layout = ColumnLayout::new(names.len(), width);
        assert(plain_layout(self.column_layout, all.len(), width));
        let key = match schema_key(names) {
            Some(key) => key,
            None => return,
        };
        let kept = match self.session.grid_layout(key.as_str()) {
            Some(kept) => kept,
            None => return,
        };
        let ghost layouts = self.session.grid_layouts@;
        let ghost place = choose|i: int| 0 <= i < layouts.len() && layouts[i] == *kept;
        let known = restored_widths(names, &kept.widths);
        let mut widths: Vec<u32> = Vec::new();
        let mut i: usize = 0;
        while i < known.len()
            invariant
                i <= known@.len(),
                known@.len() == all.len(),
                widths@.len() == i,
                all == texts(names@),
                known@ == all.map_values(|name: Seq<char>| kept_width(kept.widths@, name)),
                forall|kept: Option<u16>| width_bits.requires((kept,)),
                forall|k: int|
                    0 <= k < i ==> width_bits.ensures(
                        (kept_width(kept.widths@, all[k]),),
                        #[trigger] widths@[k],
                    ),
            decreases known@.len() - i,
        {
            assert(known@[i as int] == kept_width(kept.widths@, all[i as int]));
            widths.push(width_bits(known[i]));
            i = i + 1;
        }
        let ghost bits = widths@;
        let order = restored_order(names, &kept.order);
        let hidden = columns_by_name(names, &kept.hidden);
        self.column_layout.restore(order, &hidden, widths);
        assert(kept_layout(self.column_layout, all, layouts[place], bits, width));
    }

    /// Takes in the answer to an open request. One for a dataset that is not wanted
    /// any more is dropped.
    pub fn opened<F: Fn(Option<u16>) -> u32>(
        &mut self,
        generation_id: GenerationId,
        outcome: OpenOutcome,
        width_bits: &F,
    ) -> (saving: Saving)
        requires
            old(self).wf(),
            forall|kept: Option<u16>| width_bits.requires((kept,)),
        ensures
            final(self).wf(),
            generation_id != old(self).grid.generation ==> *final(self) == *old(self) && saving
                == Saving::No,
            generation_id == old(self).grid.generation ==> match outcome {
                OpenOutcome::Opened(source) => {
                    let metadata = *source.dataset_metadata;
                    let names = field_names(metadata.schema.fields@);
                    &&& saving == Saving::Silent
                    &&& *final(self) == (Explorer {
                        grid: GridState {
                            rows: metadata.row_count,
                            columns: final(self).grid.columns,
                            loading: LoadState::Ready,
                            ..old(self).grid
                        },
                        dataset: final(self).dataset,
                        column_layout: final(self).column_layout,
                        chart: final(self).chart,
                        session: final(self).session,
                        status: final(self).status,
                        ..*old(self)
                    })
                    &&& final(self).dataset matches Some(document) && *document.metadata == metadata
                        && document.path@ == old(self).path_input@ && texts(document.column_names@)
                        == names
                    &&& restored_layout(
                        final(self).column_layout,
                        names,
                        old(self).session.grid_layouts@,
                        *width_bits,
                    )
                    &&& final(self).grid.columns == final(self).column_layout.shown().len()
                    &&& final(self).session@ == old(self).kept(
                        file_recorded(old(self).session@, old(self).path_input@),
                    )
                    &&& final(self).charts_columns(&old(self).chart, names)
                    &&& final(self).status@ == opened_text(
                        metadata.row_count as nat,
                        metadata.column_count as nat,
                    )
                },
                OpenOutcome::Cancelled => saving == Saving::No && *final(self) == (Explorer {
                    status: final(self).status,
                    ..*old(self)
                }) && final(self).status@ == "File open cancelled"@,
                OpenOutcome::OpenFailed(error) => {
                    &&& saving == Saving::Silent
                    &&& *final(self) == (Explorer {
                        grid: GridState { loading: final(self).grid.loading, ..old(self).grid },
                        session: final(self).session,
                        status: final(self).status,
                        ..*old(self)
                    })
                    &&& final(self).session@ == old(self).kept(
                        file_removed(old(self).session@, old(self).path_input@),
                    )
                    &&& final(self).status@ == "open file: "@ + error@
                    &&& final(self).grid.loading matches LoadState::Error(text) && text@
                        == final(self).status@
                },
            },
    {
        if generation_id.0 != self.grid.generation.0 {
            return Saving::No;
        }
        match outcome {
            OpenOutcome::Opened(source) => {
                let metadata = share_metadata(&source.dataset_metadata);
                let column_names = names_of(&metadata.schema.fields);
                let (x_column, y_column) = default_chart_columns(&column_names);
                self.restore_column_layout(&column_names, width_bits);
                self.grid.rows = metadata.row_count;
                self.grid.columns = self.column_layout.visible().len();
                self.grid.loading = LoadState::Ready;
                self.session.record_recent_file(self.path_input.as_str().to_owned());
                self.keep_choices();
                self.chart.config.x_column = x_column;
                self.chart.config.y_column = y_column;
                self.status = opened_status(metadata.row_count, metadata.column_count);
                self.dataset = Some(
                    Document {
                        metadata,
                        path: self.path_input.as_str().to_owned(),
                        column_names,
                    },
                );
                Saving::Silent
            },
            OpenOutcome::Cancelled => {
                self.status = "File open cancelled".to_owned();
                Saving::No
            },
            OpenOutcome::OpenFailed(error) => {
                self.session.remove_recent_file(self.path_input.as_str());
                self.keep_choices();
                self.open_error(cat("open file: ", error.as_str()));
                Saving::Silent
            },
        }
    }

    /// The chart is about the first two of these columns, or twice about the only
    /// one.
    pub open spec fn charts_columns(&self, before: &ChartPanel, names: Seq<Seq<char>>) -> bool {
        let config = self.chart.config;
        &&& self.chart == (ChartPanel {
            config: crate::chart::ChartConfig {
                x_column: config.x_column,
                y_column: config.y_column,
                ..before.config
            },
            ..*before
        })
        &&& config.x_column@ == if names.len() > 0 {
            names[0]
        } else {
            Seq::empty()
        }
        &&& config.y_column@ == if names.len() > 1 {
            names[1]
        } else if names.len() > 0 {
            names[0]
        } else {
            Seq::empty()
        }
    }
}

// ---------------------------------------------------------------------------
// Pages
// ---------------------------------------------------------------------------

/// The pages that a cell in this row needs: its own, and at the first row of a page
/// the next one too.
pub open spec fn needed_pages(row: u64, rows: u64) -> Seq<u64> {
    let page = (row / PAGE_ROWS) as u64;
    if row >= rows {
        Seq::empty()
    } else if row % PAGE_ROWS == 0 && (page + 1) * PAGE_ROWS < rows {
        seq![page, (page + 1) as u64]
    } else {
        seq![page]
    }
}

impl Explorer {
    /// The pages that a cell in this row needs.
    pub fn pages_for_row(&self, row: u64) -> (pages: Vec<u64>)
        ensures
            pages@ == needed_pages(row, self.grid.rows),
    {
        let mut pages: Vec<u64> = Vec::new();
        if let Some(page) = self.grid.page_for_row(row) {
            pages.push(page);
            if row % PAGE_ROWS == 0 && self.grid.rows - row > PAGE_ROWS {
                pages.push(page + 1);
            }
        }
        assert(pages@ =~= needed_pages(row, self.grid.rows));
        pages
    }

    /// Asks for a page, and says which columns of it to read; none where it is there
    /// or on its way, or cannot be read.
    pub fn request_page(&mut self, page: u64, has_runtime: bool) -> (projection: Option<Projection>)
        requires
            old(self).wf(),
        ensures
            final(self).wf(),
            *final(self) == (Explorer {
                grid: GridState { requested: final(self).grid.requested, ..old(self).grid },
                status: final(self).status,
                ..*old(self)
            }),
            ({
                let asked = old(self).grid.requested@;
                let shown = old(self).column_layout.shown();
                if old(self).grid.loaded@.contains(page) || asked.contains(page) {
                    &&& projection is None
                    &&& final(self).grid.requested@ == asked
                    &&& final(self).status == old(self).status
                } else {
                    match old(self).dataset {
                        None => {
                            &&& projection is None
                            &&& final(self).grid.requested@ == asked.insert(page)
                            &&& final(self).status == old(self).status
                        },
                        Some(document) => if !has_runtime {
                            &&& projection is None
                            &&& final(self).grid.requested@ == asked
                            &&& final(self).status == old(self).status
                        } else {
                            match projection_fault(shown, document.metadata.column_count as nat) {
                                Some(error) => {
                                    &&& projection is None
                                    &&& final(self).grid.requested@ == asked
                                    &&& final(self).status@ == "page projection: "@
                                        + error.message_text()
                                },
                                None => {
                                    &&& projection matches Some(columns) && columns@ == (
                                    if shown.len() == 0 {
                                        all_columns(document.metadata.column_count as nat)
                                    } else {
                                        shown
                                    })
                                    &&& final(self).grid.requested@ == asked.insert(page)
                                    &&& final(self).status == old(self).status
                                },
                            }
                        },
                    }
                }
            }),
    {
        let ghost asked = self.grid.requested@;
        if !self.grid.request_page(page) {
            assert(self.grid.requested@ =~= asked);
            return None;
        }
        let column_count: usize = match &self.dataset {
            Some(document) => document.metadata.column_count,
            None => return None,
        };
        if !has_runtime {
            self.grid.requested.remove(&page);
            assert(self.grid.requested@ =~= asked);
            return None;
        }
        let shown = self.column_layout.visible_columns();
        match Projection::columns(shown, column_count) {
            Ok(projection) => Some(projection),
            Err(error) => {
                self.grid.requested.remove(&page);
                assert(self.grid.requested@ =~= asked);
                self.status = cat("page projection: ", error.message().as_str());
                None
            },
        }
    }

    /// A page could not be asked for.
    pub fn page_refused(&mut self, page: u64, error: &str)
        ensures
            *final(self) == (Explorer {
                grid: GridState { requested: final(self).grid.requested, ..old(self).grid },
                status: final(self).status,
                ..*old(self)
            }),
            final(self).grid.requested@ == old(self).grid.requested@.remove(page),
            final(self).status@ == "queue page "@ + decimal(page as nat) + ": "@ + error@,
    {
        self.grid.requested.remove(&page);
        let head = cat3("queue page ", decimal_text(page).as_str(), ": ");
        self.status = cat(head.as_str(), error);
    }

    /// Takes in the answer to a page request, or that none will come.
    pub fn page_answered(&mut self, page: u64, response: Option<PageResponse>)
        requires
            old(self).wf(),
        ensures
            final(self).wf(),
            *final(self) == (Explorer {
                grid: final(self).grid,
                pages: final(self).pages,
                status: final(self).status,
                ..*old(self)
            }),
            exists|status: Option<Seq<char>>| #[trigger]
                answered(
                    old(self).pages@,
                    final(self).pages@,
                    old(self).grid,
                    final(self).grid,
                    page,
                    response,
                    status,
                ) && match status {
                    Some(text) => final(self).status@ == text,
                    None => final(self).status == old(self).status,
                },
    {
        if let Some(status) = self.pages.apply_response(&mut self.grid, page, response) {
            self.status = status;
        }
    }
}

// ---------------------------------------------------------------------------
// Columns
// ---------------------------------------------------------------------------

impl Explorer {
    /// The columns that the layout asks for are shown.
    pub open spec fn columns_follow(&self, after: &Explorer) -> bool {
        match self.filtered {
            Some(before) => {
                &&& after.filtered matches Some(filtered)
                &&& filtered == (FilteredGrid {
                    display_columns: filtered.display_columns,
                    ..before
                })
                &&& filtered.display_columns@ == if before.aggregate {
                    Seq::new(before.projected_columns@.len(), |i: int| (i as usize, i as usize))
                } else {
                    display_pairs(self.column_layout.shown(), before.projected_columns@)
                }
                &&& after.grid.columns == filtered.display_columns@.len()
            },
            None => after.filtered is None && after.grid.columns
                == self.column_layout.shown().len(),
        }
    }

    /// Shows the columns that the layout asks for.
    pub fn refresh_grid_columns(&mut self)
        requires
            old(self).wf(),
        ensures
            final(self).wf(),
            *final(self) == (Explorer {
                grid: GridState { columns: final(self).grid.columns, ..old(self).grid },
                filtered: final(self).filtered,
                ..*old(self)
            }),
            old(self).columns_follow(final(self)),
    {
        let shown = self.filtered.take();
        match shown {
            Some(mut filtered) => {
                filtered.refresh_display_columns(&self.column_layout);
                self.grid.columns = filtered.display_columns.len();
                self.filtered = Some(filtered);
            },
            None => {
                self.grid.columns = self.column_layout.visible().len();
            },
        }
    }

    /// The columns are arranged in another way: the pages are read anew, and nothing
    /// is selected.
    pub fn layout_changed(&mut self)
        requires
            old(self).wf(),
        ensures
            final(self).wf(),
            *final(self) == (Explorer {
                grid: final(self).grid,
                pages: final(self).pages,
                filtered: final(self).filtered,
                ..*old(self)
            }),
            final(self).pages@.len() == 0,
            final(self).grid == (GridState {
                columns: final(self).grid.columns,
                requested: final(self).grid.requested,
                loaded: final(self).grid.loaded,
                selection: None,
                selection_range: None,
                ..old(self).grid
            }),
            final(self).grid.requested@ == Set::<u64>::empty(),
            final(self).grid.loaded@ == Set::<u64>::empty(),
            old(self).columns_follow(final(self)),
    {
        self.pages.clear();
        self.grid.clear_pages();
        self.grid.selection = None;
        self.grid.selection_range = None;
        self.refresh_grid_columns();
    }

    /// Keeps the layout of the columns for datasets with the same ones; `widths` are
    /// those of all columns.
    pub fn save_column_layout(&mut self, widths: &Vec<u16>) -> (saving: Saving)
        requires
            old(self).dataset matches Some(document) ==> widths@.len()
                == document.column_names@.len(),
        ensures
            *final(self) == (Explorer { session: final(self).session, ..*old(self) }),
            match old(self).dataset {
                Some(document) => if document.column_names@.len() <= MAX_LAYOUT_COLUMNS {
                    saving == Saving::Reported && exists|kept: GridLayoutPreference|
                        keeps_layout(kept, document, old(self).column_layout, widths@)
                            && final(self).session@ == old(self).kept(
                            #[trigger] layout_saved(old(self).session@, kept),
                        )
                } else {
                    saving == Saving::No && final(self).session == old(self).session
                },
                None => saving == Saving::No && final(self).session == old(self).session,
            },
    {
        let kept = match &self.dataset {
            Some(document) => layout_preference(
                &document.column_names,
                &self.column_layout,
                widths,
            ),
            None => None,
        };
        match kept {
            Some(kept) => {
                proof {
                    let document = self.dataset->0;
                    let names = texts(document.column_names@);
                    assert(width_models(kept.widths@) =~= Seq::new(
                        names.len(),
                        |i: int| (names[i], widths@[i]),
                    ));
                    assert(keeps_layout(kept, document, self.column_layout, widths@));
                }
                self.session.save_grid_layout(kept);
                self.keep_choices();
                Saving::Reported
            },
            None => Saving::No,
        }
    }
}

/// Whether this is what is kept of the layout of a dataset.
pub open spec fn keeps_layout(
    kept: GridLayoutPreference,
    document: Document,
    layout: ColumnLayout,
    widths: Seq<u16>,
) -> bool {
    let names = texts(document.column_names@);
    &&& kept.schema_key@ == joined_names(names)
    &&& texts(kept.order@) == names_of_columns(layout.column_order(), names)
    &&& texts(kept.hidden@) == hidden_names(layout.hidden_columns(), names, names.len())
    &&& width_models(kept.widths@) == Seq::new(names.len(), |i: int| (names[i], widths[i]))
}

/// A row needs the page that it stands on, and no page needs to be there that has no row
/// or that is further than the next one.
pub proof fn law_row_needs_its_page(row: u64, rows: u64)
    ensures
        row < rows ==> needed_pages(row, rows).contains((row / PAGE_ROWS) as u64),
        row >= rows ==> needed_pages(row, rows).len() == 0,
        forall|i: int|
            0 <= i < needed_pages(row, rows).len() ==> {
                let page = #[trigger] needed_pages(row, rows)[i];
                page * PAGE_ROWS < rows && row / PAGE_ROWS <= page <= row / PAGE_ROWS + 1
            },
{
    if row < rows {
        assert(needed_pages(row, rows)[0] == (row / PAGE_ROWS) as u64);
        assert((row / PAGE_ROWS) * PAGE_ROWS <= row);
    }
}

/// A query that has ended stands first in the history, as it went: when it ended, how long it
/// took, whether it succeeded and how many rows it gave.
pub proof fn law_ended_query_is_recorded_as_it_went(
    explorer: &Explorer,
    success: bool,
    row_count: Option<u64>,
    clock: Clock,
)
    requires
        explorer.running_sql matches Some(sql) && is_written(
            bounded(sql@, MAX_QUERY_BYTES as nat),
        ),
    ensures
        ({
            let after = explorer.after_running(success, row_count, clock);
            let entry = after.query_history[0];
            &&& after.query_history.len() > 0
            &&& entry.sql == bounded(explorer.running_sql->0@, MAX_QUERY_BYTES as nat)
            &&& entry.success == success
            &&& entry.row_count == row_count
            &&& entry.timestamp_unix_secs == clock.now_unix_secs
            &&& entry.duration_ms == clock.elapsed_ms
            &&& after.recent_files == explorer.session@.recent_files
            &&& after.sql_input == explorer.sql_input@
        }),
{
    let sql = explorer.running_sql->0@;
    law_newest_query_comes_first(
        explorer.session@,
        HistoryModel {
            sql,
            timestamp_unix_secs: clock.now_unix_secs,
            duration_ms: clock.elapsed_ms,
            success,
            row_count,
        },
    );
}

} // verus!

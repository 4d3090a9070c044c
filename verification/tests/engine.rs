use std::sync::Arc;

use arrow_array::types::Int32Type;
use arrow_array::{
    Array, ArrayRef, BooleanArray, Date32Array, Float64Array, Int32Array, Int64Array, ListArray,
    RecordBatch, RecordBatchOptions, StringArray, TimestampMillisecondArray, UInt64Array,
};
use arrow_schema::Schema as ArrowSchema;
use pavi::accumulate::FloatSum;
use pavi::aggregate::{AggregateExpr, AggregateSpec, GroupBudget};
use pavi::batch::{Batch, BatchError};
use pavi::chart::{
    ChartAccumulator, ChartConfig, ChartInput, ChartKind, DEFAULT_POINT_LIMIT, MAX_INPUT_ROWS,
};
use pavi::collector::{GroupCollector, OutputField};
use pavi::copying::{CopyError, RowPlace};
use pavi::execution::{
    is_queue_full, ExecutionError, QueryBatch, QueryEngine, QueryExecution, QueryStep, ReadRequest,
};
use pavi::explorer::{Clock, Explorer, Saving, Shortcut};
use pavi::export::{
    csv_header, csv_rows, export_event, rows_written, ExportEvent, ExportFormat,
};
use pavi::filter::{FilterExpr, FilterInput, FloatOrder};
use pavi::inspector::{inspect_cell, CellDetails};
use pavi::labels::sort_heading;
use pavi::logical::{Filter, LogicalPlan};
use pavi::metadata::{DatasetMetadata, RowGroupInfo};
use pavi::navigation::{batch_column_of, selected_source_column, visible_batch_columns};
use pavi::output::OutputColumn;
use pavi::order::SortKeys;
use pavi::page::PAGE_ROWS;
use pavi::panels::{ChartPoll, ChartSource};
use pavi::planner::{PhysicalPlan, Planner};
use pavi::profile::{profile_event, ColumnProfile, ProfileAccumulator, ProfileEvent, ProfileValue};
use pavi::projection::Projection;
use pavi::queries::QueryStart;
use pavi::requests::ChartStart;
use pavi::reads::{passing, ReadError, RowFilter};
use pavi::results::{FilteredGrid, QueryKind, QueryPoll, MAX_FILTERED_BATCHES};
use pavi::runtime::{
    open_outcome, page_outcome, still_wanted, GenerationId, OpenOutcome, OpenResponse, PageOutcome,
    PageResponse, RuntimeConfig, RuntimeConfigError, SubmitError, TaskId, TaskIds,
};
use pavi::scalar::{Column, FloatCell};
use pavi::schema::{DataType, Field, Schema, TimeUnit};
use pavi::session::SessionState;
use pavi::sort::{NullOrder, SortBudget, SortDirection, SortSpec};
use pavi::sorted::sorted_batches;
use pavi::source::{PageRead, ParquetSource, ValidationError, BATCH_SIZE};
use pavi::sql::{SqlAst, SqlProjection, SqlSort};
use pavi::state::{LoadState, SelectionRange, Workspace};
use pavi::value::{format_cell, format_cell_with_limit, CellValue};
use pavi::window::{FilteredWindow, WindowError};

const ROWS: i32 = 5_000;

// ---------------------------------------------------------------------------
// A dataset in memory
// ---------------------------------------------------------------------------

struct Table {
    data: RecordBatch,
    source: ParquetSource,
    /// The file is gone: every read fails.
    broken: bool,
}

fn data_type_of(data_type: &arrow_schema::DataType) -> DataType {
    match data_type {
        arrow_schema::DataType::Boolean => DataType::Boolean,
        arrow_schema::DataType::Int32 => DataType::Int32,
        arrow_schema::DataType::Int64 => DataType::Int64,
        arrow_schema::DataType::Utf8 => DataType::Utf8,
        arrow_schema::DataType::Date32 => DataType::Date32,
        arrow_schema::DataType::Timestamp(arrow_schema::TimeUnit::Millisecond, zone) => {
            DataType::Timestamp {
                unit: TimeUnit::Millisecond,
                zoned: zone.is_some(),
            }
        }
        _ => DataType::Other,
    }
}

fn schema_of(schema: &ArrowSchema) -> Schema {
    Schema {
        fields: schema
            .fields()
            .iter()
            .map(|field| Field {
                name: field.name().to_owned(),
                data_type: data_type_of(field.data_type()),
                type_text: format!("{:?}", field.data_type()),
                nullable: field.is_nullable(),
                children: Vec::new(),
            })
            .collect(),
    }
}

fn ints(array: &ArrayRef) -> &Int32Array {
    array.as_any().downcast_ref::<Int32Array>().unwrap()
}

fn longs(array: &ArrayRef) -> &Int64Array {
    array.as_any().downcast_ref::<Int64Array>().unwrap()
}

fn counts(array: &ArrayRef) -> &UInt64Array {
    array.as_any().downcast_ref::<UInt64Array>().unwrap()
}

fn texts(array: &ArrayRef) -> &StringArray {
    array.as_any().downcast_ref::<StringArray>().unwrap()
}

fn booleans(array: &ArrayRef) -> &BooleanArray {
    array.as_any().downcast_ref::<BooleanArray>().unwrap()
}

fn owned(text: Option<&str>) -> Option<String> {
    text.map(str::to_owned)
}

fn column_of(array: &ArrayRef) -> Column {
    match data_type_of(array.data_type()) {
        DataType::Boolean => Column::Boolean(booleans(array).iter().collect()),
        DataType::Int32 => Column::Int32(ints(array).iter().collect()),
        DataType::Int64 => Column::Int64(longs(array).iter().collect()),
        DataType::Utf8 => Column::Utf8(texts(array).iter().map(owned).collect()),
        DataType::Date32 => Column::Date32(
            array
                .as_any()
                .downcast_ref::<Date32Array>()
                .unwrap()
                .iter()
                .collect(),
        ),
        DataType::Timestamp { unit, .. } => Column::Timestamp(
            unit,
            array
                .as_any()
                .downcast_ref::<TimestampMillisecondArray>()
                .unwrap()
                .iter()
                .collect(),
        ),
        _ => Column::Other((0..array.len()).map(|row| array.is_null(row)).collect()),
    }
}

fn against(left: f64, right: f64) -> FloatOrder {
    if left < right {
        FloatOrder::Less
    } else if left > right {
        FloatOrder::Greater
    } else if left == right {
        FloatOrder::Equal
    } else {
        FloatOrder::Unordered
    }
}

fn filter_input(array: &ArrayRef, filter: &FilterExpr) -> FilterInput {
    match data_type_of(array.data_type()) {
        DataType::Int32 => {
            let right: f64 = filter.value.parse().unwrap_or(f64::NAN);
            FilterInput::Numbers(
                ints(array)
                    .iter()
                    .map(|left| left.map(|left| against(f64::from(left), right)))
                    .collect(),
            )
        }
        _ => FilterInput::Other,
    }
}

fn cell_of(batch: &Batch, row: usize, column: usize) -> CellValue {
    let array = batch.table.column(column);
    if array.is_null(row) {
        return CellValue::Null;
    }
    match array.data_type() {
        arrow_schema::DataType::Boolean => CellValue::Boolean(booleans(array).value(row)),
        arrow_schema::DataType::Int32 => CellValue::Signed(i64::from(ints(array).value(row))),
        arrow_schema::DataType::Int64 => CellValue::Signed(longs(array).value(row)),
        arrow_schema::DataType::UInt64 => CellValue::Unsigned(counts(array).value(row)),
        arrow_schema::DataType::Utf8 => CellValue::Text(texts(array).value(row).to_owned()),
        _ => CellValue::Mismatch,
    }
}

fn plus(bits: u64, cell: FloatCell) -> FloatSum {
    let number = match cell {
        FloatCell::Bits(bits) => f64::from_bits(bits),
        FloatCell::Signed(value) => value as f64,
        FloatCell::Unsigned(value) => value as f64,
    };
    let sum = f64::from_bits(bits) + number;
    FloatSum {
        bits: sum.to_bits(),
        finite: sum.is_finite(),
    }
}

fn divide(sum: u64, count: u64) -> u64 {
    (f64::from_bits(sum) / count as f64).to_bits()
}

fn float_of(cell: &FloatCell) -> f64 {
    match cell {
        FloatCell::Bits(bits) => f64::from_bits(*bits),
        FloatCell::Signed(value) => *value as f64,
        FloatCell::Unsigned(value) => *value as f64,
    }
}

fn written(fields: &Vec<OutputField>) -> Batch {
    let arrays: Vec<ArrayRef> = fields
        .iter()
        .map(|field| match &field.column {
            OutputColumn::Int32(values) => Arc::new(Int32Array::from(values.clone())) as ArrayRef,
            OutputColumn::Int64(values) => Arc::new(Int64Array::from(values.clone())),
            OutputColumn::UInt64(values) => Arc::new(UInt64Array::from(values.clone())),
            OutputColumn::Utf8(values) => Arc::new(StringArray::from(values.clone())),
            OutputColumn::Float64(values) => Arc::new(Float64Array::from(
                values
                    .iter()
                    .map(|value| value.as_ref().map(float_of))
                    .collect::<Vec<_>>(),
            )),
            other => panic!("unexpected column {other:?}"),
        })
        .collect();
    let schema = ArrowSchema::new(
        fields
            .iter()
            .zip(&arrays)
            .map(|(field, array)| {
                arrow_schema::Field::new(&field.name, array.data_type().clone(), field.nullable)
            })
            .collect::<Vec<_>>(),
    );
    Batch {
        table: RecordBatch::try_new(Arc::new(schema), arrays).unwrap(),
    }
}

fn cells(filter: &RowFilter, batch: &Batch) -> FilterInput {
    filter
        .cells(batch)
        .unwrap_or_else(|| filter_input(batch.table.column(filter.position), &filter.filter))
}

impl Table {
    fn new(data: RecordBatch, group_rows: usize) -> Self {
        let mut sizes = Vec::new();
        let mut left = data.num_rows();
        while left > 0 {
            let size = left.min(group_rows);
            sizes.push(size as u64);
            left -= size;
        }
        let metadata = DatasetMetadata::new(schema_of(&data.schema()), sizes).unwrap();
        Table {
            data,
            source: ParquetSource::new("data.parquet".to_string(), Arc::new(metadata)),
            broken: false,
        }
    }

    fn metadata(&self) -> Arc<DatasetMetadata> {
        Arc::clone(&self.source.dataset_metadata)
    }

    /// Decodes rows of a row group: the stored columns, then put in order.
    fn decode(&self, first: usize, rows: usize, projection: &Projection) -> Vec<Batch> {
        let stored = Batch {
            table: self.data.project(&projection.parquet_columns()).unwrap(),
        };
        let table = projection.reorder(&stored).unwrap().table;
        let mut batches = Vec::new();
        let mut at = 0;
        while at < rows {
            let size = (rows - at).min(BATCH_SIZE);
            batches.push(Batch {
                table: table.slice(first + at, size),
            });
            at += size;
        }
        batches
    }

    fn empty(&self, projection: &Projection) -> Batch {
        let table = self.data.project(projection.as_slice()).unwrap();
        Batch {
            table: RecordBatch::new_empty(table.schema()),
        }
    }

    fn read_window_batches(
        &self,
        first_row: u64,
        row_count: usize,
        projection: &Projection,
    ) -> Result<Vec<Batch>, WindowError> {
        let Some(plan) = self.source.metadata().plan_window(first_row, row_count)? else {
            return Ok(Vec::new());
        };
        let start = self.source.row_groups()[plan.row_groups[0]].first_row as usize + plan.skip;
        Ok(self.decode(start, plan.take, projection))
    }

    fn read_window(
        &self,
        first_row: u64,
        row_count: usize,
        projection: &Projection,
    ) -> Result<Batch, WindowError> {
        let batches = self.read_window_batches(first_row, row_count, projection)?;
        Ok(pavi::batch::concat_or_empty(batches)
            .unwrap()
            .unwrap_or_else(|| self.empty(projection)))
    }

    fn message(&self, error: ReadError) -> String {
        error.message(self.source.schema()).unwrap()
    }

    /// The decoded batches of all row groups.
    fn scan(&self, projection: &Projection) -> Vec<Batch> {
        self.source
            .row_groups()
            .iter()
            .flat_map(|group| {
                self.decode(
                    group.first_row as usize,
                    group.row_count as usize,
                    projection,
                )
            })
            .collect()
    }

    fn read_filtered_window(
        &self,
        filter: &FilterExpr,
        first_match: u64,
        row_count: usize,
        projection: &Projection,
    ) -> Batch {
        let metadata = self.source.metadata();
        let read = metadata.plan_filtered(filter, first_match, row_count, projection);
        let Some(mut read) = read.unwrap() else {
            return self.empty(projection);
        };
        for batch in self.scan(&read.projection) {
            let cells = cells(&read.filter, &batch);
            if !read.take(&batch, &cells).unwrap() {
                break;
            }
        }
        read.finish()
            .unwrap()
            .unwrap_or_else(|| self.empty(projection))
    }

    fn read_sorted(
        &self,
        filter: Option<&FilterExpr>,
        projection: &Projection,
        sort: SortSpec,
        budget: SortBudget,
    ) -> Result<Vec<Batch>, String> {
        let mut read = self
            .source
            .metadata()
            .plan_sorted(filter, projection, sort, budget)
            .map_err(|error| self.message(error))?;
        for batch in self.scan(&read.columns.projection) {
            let input = read.filter.as_ref().map(|found| cells(found, &batch));
            read.take(batch, input.as_ref())
                .map_err(|error| self.message(error))?;
        }
        let Some(joined) = read.join().unwrap() else {
            return Ok(Vec::new());
        };
        let sorted = joined.sorted_by_key().unwrap_or_else(|| {
            joined.sorted(&column_of(joined.rows.table.column(joined.key_position)))
        });
        sorted.map_err(|error| self.message(error))
    }

    fn read_aggregated(
        &self,
        filter: Option<&FilterExpr>,
        aggregate: &AggregateSpec,
        budget: GroupBudget,
    ) -> Result<Batch, String> {
        let mut read = self
            .source
            .metadata()
            .plan_aggregated(filter, aggregate, budget)
            .map_err(|error| self.message(error))?;
        let decoded = read.projection.as_ref().map(Projection::copy);
        for batch in decoded.map_or(Vec::new(), |decoded| self.scan(&decoded)) {
            let input = read.filter.as_ref().map(|found| cells(found, &batch));
            let kept = passing(&read.filter, batch, input.as_ref()).unwrap();
            let columns: Vec<Column> = kept.table.columns().iter().map(column_of).collect();
            read.take(&columns, kept.table.num_rows(), &plus)
                .map_err(|error| self.message(error))?;
        }
        let fields = read
            .groups
            .finish(&divide)
            .map_err(|error| error.message(""))?;
        Ok(written(&fields))
    }

    fn read(
        &mut self,
        plan: &PhysicalPlan,
        request: ReadRequest,
    ) -> Result<PageOutcome, String> {
        if self.broken {
            return Err("open data.parquet".to_string());
        }
        let projection = &plan.projection;
        Ok(match request {
            ReadRequest::Page { page_index } => {
                PageOutcome::Loaded(match self.source.read_page(page_index, projection) {
                    PageRead::Cached(page) => page,
                    PageRead::Missing(key, window) => {
                        let batches = self
                            .read_window_batches(window.first_row, window.row_count, projection)
                            .unwrap();
                        self.source.store_page(key, window, batches)
                    }
                })
            }
            ReadRequest::Window {
                first_row,
                row_count,
            } => PageOutcome::Batch(self.read_window(first_row, row_count, projection).unwrap()),
            ReadRequest::Filtered {
                first_match_offset,
                row_count,
            } => PageOutcome::Batch(self.read_filtered_window(
                plan.filter().unwrap(),
                first_match_offset,
                row_count,
                projection,
            )),
            ReadRequest::Sorted { budget } => PageOutcome::Batches(self.read_sorted(
                plan.filter(),
                projection,
                plan.sort().unwrap(),
                budget,
            )?),
            ReadRequest::Aggregated { budget } => PageOutcome::Batch(self.read_aggregated(
                plan.filter(),
                plan.aggregate().unwrap(),
                budget,
            )?),
        })
    }
}

/// A query under way, with the one read that it waits for.
struct Run<'a> {
    table: &'a mut Table,
    execution: QueryExecution,
    ids: TaskIds,
    waiting: Option<(TaskId, ReadRequest)>,
}

fn submit(
    execution: &mut QueryExecution,
    ids: &mut TaskIds,
    request: ReadRequest,
) -> (TaskId, ReadRequest) {
    let id = ids.reserve(true).unwrap();
    execution.submitted(request, id);
    (id, request)
}

fn answer(
    table: &mut Table,
    execution: &mut QueryExecution,
    (task_id, request): (TaskId, ReadRequest),
) -> Result<(), ExecutionError> {
    let read = table.read(execution.plan(), request);
    let response = PageResponse {
        task_id,
        generation_id: execution.generation_id(),
        outcome: page_outcome(read, false),
    };
    execution.deliver(response)
}

impl<'a> Run<'a> {
    fn start(
        table: &'a mut Table,
        engine: QueryEngine,
        plan: &LogicalPlan,
        generation: GenerationId,
    ) -> Run<'a> {
        let mut execution = engine.execute(plan, generation).unwrap();
        let mut ids = TaskIds::new();
        let waiting = execution
            .schedule_next()
            .map(|request| submit(&mut execution, &mut ids, request));
        Run {
            table,
            execution,
            ids,
            waiting,
        }
    }

    fn next_batch(&mut self) -> Result<Option<QueryBatch>, ExecutionError> {
        loop {
            match self.execution.next_step()? {
                QueryStep::Batch(batch) => return Ok(Some(batch)),
                QueryStep::Finished => return Ok(None),
                QueryStep::Submit(request) => {
                    self.waiting = Some(submit(&mut self.execution, &mut self.ids, request));
                }
                QueryStep::Receive => {
                    let waiting = self.waiting.take().unwrap();
                    answer(self.table, &mut self.execution, waiting)?;
                }
            }
        }
    }

    fn next_table(&mut self) -> Option<RecordBatch> {
        self.next_batch().unwrap().map(|batch| batch.batch.table)
    }
}

fn run<'a>(table: &'a mut Table, plan: &LogicalPlan, generation: u64) -> Run<'a> {
    Run::start(table, QueryEngine::new(), plan, GenerationId(generation))
}

fn ids(batch: &RecordBatch) -> Vec<i32> {
    ints(batch.column(0)).values().to_vec()
}

fn column(name: &str, data_type: arrow_schema::DataType, nullable: bool) -> arrow_schema::Field {
    arrow_schema::Field::new(name, data_type, nullable)
}

fn table(
    fields: Vec<arrow_schema::Field>,
    arrays: Vec<ArrayRef>,
    group_rows: usize,
) -> Table {
    let schema = Arc::new(ArrowSchema::new(fields));
    Table::new(RecordBatch::try_new(schema, arrays).unwrap(), group_rows)
}

// ---------------------------------------------------------------------------
// Reading windows
// ---------------------------------------------------------------------------

fn small_table() -> Table {
    table(
        vec![
            column("id", arrow_schema::DataType::Int32, false),
            column("value", arrow_schema::DataType::Int32, false),
        ],
        vec![
            Arc::new(Int32Array::from_iter_values(0..6)),
            Arc::new(Int32Array::from_iter_values((0..6).map(|value| value * 10))),
        ],
        3,
    )
}

#[test]
fn builds_row_group_ranges() {
    let table = small_table();
    let source = &table.source;

    assert_eq!(source.row_count(), 6);
    assert_eq!(
        source.row_groups(),
        &[
            RowGroupInfo {
                index: 0,
                first_row: 0,
                row_count: 3
            },
            RowGroupInfo {
                index: 1,
                first_row: 3,
                row_count: 3
            }
        ]
    );
}

#[test]
fn reads_window_within_one_row_group() {
    let table = small_table();
    let projection = Projection::columns(vec![0], table.source.column_count()).unwrap();
    let batch = table.read_window(1, 2, &projection).unwrap();

    assert_eq!(ids(&batch.table), vec![1, 2]);
}

#[test]
fn reads_window_spanning_row_groups() {
    let table = small_table();
    let projection = Projection::columns(vec![0], table.source.column_count()).unwrap();
    let batch = table.read_window(2, 3, &projection).unwrap();

    assert_eq!(ids(&batch.table), vec![2, 3, 4]);
}

#[test]
fn projects_requested_columns() {
    let table = small_table();
    let projection = Projection::columns(vec![1], table.source.column_count()).unwrap();
    let batch = table.read_window(0, 2, &projection).unwrap();

    assert_eq!(batch.table.num_columns(), 1);
    assert_eq!(batch.table.schema().field(0).name(), "value");
}

#[test]
fn preserves_projected_order() {
    let table = small_table();
    let projection = Projection::columns(vec![1, 0], table.source.column_count()).unwrap();
    let batch = table.read_window(0, 2, &projection).unwrap();

    assert_eq!(batch.table.schema().field(0).name(), "value");
    assert_eq!(batch.table.schema().field(1).name(), "id");
}

#[test]
fn reads_filtered_window_without_materializing_all_matches() {
    let table = small_table();
    let filter = FilterExpr::parse("id >= 2").unwrap();
    let projection = Projection::columns(vec![0], table.source.column_count()).unwrap();
    let batch = table.read_filtered_window(&filter, 1, 2, &projection);

    assert_eq!(ids(&batch.table), vec![3, 4]);
}

#[test]
fn filters_with_a_projected_column_before_its_filter_column() {
    let table = small_table();
    let filter = FilterExpr::parse("id >= 3").unwrap();
    let projection = Projection::columns(vec![1], table.source.column_count()).unwrap();
    let batch = table.read_filtered_window(&filter, 0, 2, &projection);

    assert_eq!(ids(&batch.table), vec![30, 40]);
}

#[test]
fn filtered_windows_join_their_pieces_in_order() {
    let table = small_table();
    let filter = FilterExpr::parse("id != 2").unwrap();
    let projection = Projection::columns(vec![1, 0], table.source.column_count()).unwrap();
    for first in 0..7_u64 {
        for count in 1..7_usize {
            let batch = table.read_filtered_window(&filter, first, count, &projection);
            let expected: Vec<i32> = [0, 10, 30, 40, 50]
                .into_iter()
                .skip(first as usize)
                .take(count)
                .collect();
            assert_eq!(ids(&batch.table), expected);
        }
    }
}

#[test]
fn reads_fixed_pages() {
    let mut table = small_table();
    let projection = Projection::all(table.source.column_count());
    let PageRead::Missing(key, window) = table.source.read_page(0, &projection) else {
        panic!("nothing is cached yet");
    };
    let batches = table
        .read_window_batches(window.first_row, window.row_count, &projection)
        .unwrap();
    let page = table.source.store_page(key, window, batches);

    assert_eq!(page.window.first_row, 0);
    assert_eq!(page.window.row_count, 6);
    assert_eq!(
        page.batches
            .iter()
            .map(|batch| batch.table.num_rows())
            .sum::<usize>(),
        6
    );
    let PageRead::Cached(again) = table.source.read_page(0, &projection) else {
        panic!("the page is cached");
    };
    assert_eq!(again.batches[0].table, page.batches[0].table);
    let stats = table.source.cache_stats();
    assert_eq!((stats.hits, stats.misses, stats.entries), (1, 1, 1));
    assert_eq!(stats.bytes, page.byte_size);
}

#[test]
fn rejects_windows_starting_past_end() {
    let table = small_table();
    let projection = Projection::all(table.source.column_count());

    assert!(table.read_window(7, 1, &projection).is_err());
    assert_eq!(
        table
            .read_window(6, 1, &projection)
            .unwrap()
            .table
            .num_rows(),
        0
    );
}

#[test]
fn opens_and_reads_a_wide_schema() {
    let mut table = table(
        (0..64)
            .map(|number| {
                column(
                    &format!("column_{number}"),
                    arrow_schema::DataType::Int32,
                    false,
                )
            })
            .collect(),
        (0..64)
            .map(|number| Arc::new(Int32Array::from(vec![number])) as ArrayRef)
            .collect(),
        1_000,
    );
    let projection = Projection::all(table.source.column_count());
    let PageRead::Missing(key, window) = table.source.read_page(0, &projection) else {
        panic!("nothing is cached yet");
    };
    let batches = table
        .read_window_batches(window.first_row, window.row_count, &projection)
        .unwrap();
    let page = table.source.store_page(key, window, batches);
    assert_eq!(table.source.column_count(), 64);
    assert_eq!(page.batches[0].table.num_columns(), 64);
}

#[test]
fn sorts_rows_with_explicit_null_order_and_a_budget() {
    let table = table(
        vec![column("id", arrow_schema::DataType::Int32, true)],
        vec![Arc::new(Int32Array::from(vec![
            Some(3),
            None,
            Some(1),
            Some(2),
        ]))],
        1_000,
    );
    let projection = Projection::all(table.source.column_count());
    let sorted = |direction, nulls, rows| {
        table.read_sorted(
            None,
            &projection,
            SortSpec::new(0, direction, nulls),
            SortBudget::new(rows, 1_000_000).unwrap(),
        )
    };
    let ascending = sorted(SortDirection::Ascending, NullOrder::First, 10).unwrap();
    assert_eq!(
        ints(ascending[0].table.column(0))
            .iter()
            .collect::<Vec<_>>(),
        vec![None, Some(1), Some(2), Some(3)]
    );

    let descending = sorted(SortDirection::Descending, NullOrder::Last, 10).unwrap();
    assert_eq!(
        ints(descending[0].table.column(0))
            .iter()
            .collect::<Vec<_>>(),
        vec![Some(3), Some(2), Some(1), None]
    );

    let error = sorted(SortDirection::Ascending, NullOrder::Last, 3).unwrap_err();
    assert!(error.contains("external sorting is unavailable"));
    assert_eq!(
        error,
        "sort input has 4 rows, exceeding the in-memory sort budget of 3 rows; external sorting is unavailable"
    );
}

#[test]
fn reads_are_refused_for_the_first_reason() {
    let table = grid_table(8);
    let metadata = table.source.metadata();
    let all = Projection::all(2);
    let bad = FilterExpr::parse("missing == 1").unwrap();
    let good = FilterExpr::parse("id >= 2").unwrap();
    let sort = |column| SortSpec::new(column, SortDirection::Ascending, NullOrder::Last);
    let small = SortBudget::new(7, 1_000_000).unwrap();

    let refused = metadata.plan_sorted(Some(&bad), &all, sort(9), small);
    assert!(matches!(
        refused.err(),
        Some(ReadError::Validation(ValidationError::SortOutOfRange(9)))
    ));
    let refused = metadata.plan_sorted(Some(&bad), &all, sort(0), small);
    let Some(ReadError::Filter(error)) = refused.err() else {
        panic!("the filter was accepted");
    };
    assert_eq!(error.message(), "unknown filter column 'missing'");
    let refused = metadata.plan_sorted(Some(&good), &all, sort(0), small);
    assert!(matches!(refused.err(), Some(ReadError::TooManyRows(8, 7))));
    let sums = AggregateSpec::new(vec![AggregateExpr::sum(1)]).unwrap();
    let refused = metadata.plan_aggregated(Some(&bad), &sums, GroupBudget::default());
    assert!(matches!(refused.err(), Some(ReadError::Validation(_))));
    assert!(matches!(
        metadata.plan_filtered(&bad, 0, 0, &all),
        Ok(None)
    ));
    assert!(matches!(
        metadata.plan_filtered(&bad, 0, 1, &all).err(),
        Some(ReadError::Filter(_))
    ));

    let budget = SortBudget::default();
    let mut read = metadata
        .plan_sorted(Some(&good), &all, sort(0), budget)
        .unwrap();
    let batch = table.scan(&read.columns.projection).remove(0);
    assert!(matches!(read.take(batch, None), Err(ReadError::Rows)));
    let narrow = table.decode(0, 3, &Projection::columns(vec![0], 2).unwrap());
    let mut read = metadata.plan_sorted(None, &all, sort(0), budget).unwrap();
    for batch in narrow {
        assert!(matches!(read.take(batch, None), Err(ReadError::Rows)));
    }
    assert!(read.join().unwrap().is_none());
    let ids = AggregateSpec::new(vec![AggregateExpr::sum(0)]).unwrap();
    let mut read = metadata
        .plan_aggregated(None, &ids, GroupBudget::default())
        .unwrap();
    let column = Column::Int32(vec![Some(1), Some(2)]);
    assert!(matches!(
        read.take(&vec![column], 3, &plus),
        Err(ReadError::Rows)
    ));
    assert_eq!(
        table.message(ReadError::Rows),
        "decoded rows do not fit the columns that were read"
    );
}

/// Three rows: an integer, and a list whose elements have another name than the
/// schema gives them.
fn renamed_lists() -> Batch {
    let lists = ListArray::from_iter_primitive::<Int32Type, _, _>(vec![
        Some(vec![Some(1)]),
        Some(vec![Some(2)]),
        Some(vec![Some(3)]),
    ]);
    let element = arrow_schema::Field::new("value", arrow_schema::DataType::Int32, true);
    let schema = ArrowSchema::new(vec![
        column("id", arrow_schema::DataType::Int32, false),
        column(
            "list",
            arrow_schema::DataType::List(Arc::new(element)),
            true,
        ),
    ]);
    let arrays: Vec<ArrayRef> = vec![Arc::new(Int32Array::from(vec![7, 8, 9])), Arc::new(lists)];
    let options = RecordBatchOptions::new().with_match_field_names(false);
    Batch {
        table: RecordBatch::try_new_with_options(Arc::new(schema), arrays, &options).unwrap(),
    }
}

#[test]
fn windows_take_what_makes_a_batch() {
    let batch = renamed_lists();
    let all = vec![true, true, true];

    let mut window = FilteredWindow::new(4, 2, vec![0]);
    assert!(window.offer(&batch, &vec![false, true, true]).is_ok());
    assert!(window.offer(&batch, &all).is_ok());
    assert!(!window.is_full());
    assert!(window.take_passed(&batch).is_ok());
    assert!(window.is_full());
    let found = window.finish().unwrap().unwrap();
    assert_eq!(ids(&found.table), vec![9, 7]);

    for columns in [vec![], vec![1], vec![0, 1]] {
        let mut window = FilteredWindow::new(2, 5, columns);
        assert!(window.offer(&batch, &vec![false, false, false]).is_ok());
        assert!(window.offer(&batch, &vec![true, false, true]).is_ok());
        assert!(window.offer(&batch, &vec![false, true, false]).is_err());
        assert!(window.offer(&batch, &all).is_err());
        assert!(window.take_passed(&batch).is_err());
        assert!(window.finish().unwrap().is_none());
    }
}

#[test]
fn sorts_fail_where_the_columns_make_no_batch() {
    let batch = renamed_lists();
    let keys = SortKeys::Integers(vec![Some(2), None, Some(1)]);
    let sort = SortSpec::new(0, SortDirection::Ascending, NullOrder::First);
    let pages = sorted_batches(&batch, &keys, sort, &vec![0]).unwrap();
    assert_eq!(pages.len(), 1);
    assert_eq!(ids(&pages[0].table), vec![8, 9, 7]);
    for columns in [vec![], vec![1], vec![0, 1]] {
        assert!(sorted_batches(&batch, &keys, sort, &columns).is_err());
    }

    let none = Batch {
        table: batch.table.slice(3, 0),
    };
    let keys = SortKeys::Integers(Vec::new());
    let pages = sorted_batches(&none, &keys, sort, &vec![0]).unwrap();
    assert!(pages.is_empty());
}

#[test]
fn sorts_dates_and_timestamps() {
    let table = table(
        vec![
            column("id", arrow_schema::DataType::Int32, false),
            column("date", arrow_schema::DataType::Date32, false),
            column(
                "timestamp",
                arrow_schema::DataType::Timestamp(arrow_schema::TimeUnit::Millisecond, None),
                false,
            ),
        ],
        vec![
            Arc::new(Int32Array::from(vec![0, 1, 2])),
            Arc::new(Date32Array::from(vec![3, 1, 2])),
            Arc::new(TimestampMillisecondArray::from(vec![20, 10, 30])),
        ],
        1_000,
    );
    let projection = Projection::all(table.source.column_count());
    for (column, direction, expected) in [
        (1, SortDirection::Ascending, vec![1, 2, 0]),
        (2, SortDirection::Descending, vec![2, 0, 1]),
    ] {
        let sorted = table
            .read_sorted(
                None,
                &projection,
                SortSpec::new(column, direction, NullOrder::Last),
                SortBudget::new(10, 1_000_000).unwrap(),
            )
            .unwrap();
        assert_eq!(ids(&sorted[0].table), expected);
    }
}

#[test]
fn sorts_stay_within_their_bytes_and_come_in_pages() {
    let rows = PAGE_ROWS as i32 + 5;
    let table = table(
        vec![column("id", arrow_schema::DataType::Int32, false)],
        vec![Arc::new(Int32Array::from_iter_values(0..rows))],
        1_000,
    );
    let projection = Projection::all(1);
    let spec = SortSpec::new(0, SortDirection::Descending, NullOrder::Last);
    let pages = table
        .read_sorted(None, &projection, spec, SortBudget::default())
        .unwrap();
    assert_eq!(pages.len(), 2);
    assert_eq!(pages[0].table.num_rows(), PAGE_ROWS as usize);
    assert_eq!(ids(&pages[0].table)[0], rows - 1);
    assert_eq!(ids(&pages[1].table), vec![4, 3, 2, 1, 0]);
    let error = table
        .read_sorted(
            None,
            &projection,
            spec,
            SortBudget::new(100_000, 64).unwrap(),
        )
        .unwrap_err();
    assert_eq!(
        error,
        "sort input exceeds the in-memory sort budget of 100000 rows / 64 bytes; external sorting is unavailable"
    );
}

// ---------------------------------------------------------------------------
// Running plans
// ---------------------------------------------------------------------------

fn wide_table() -> Table {
    table(
        vec![
            column("id", arrow_schema::DataType::Int32, false),
            column("value", arrow_schema::DataType::Int32, false),
            column("enabled", arrow_schema::DataType::Boolean, false),
        ],
        vec![
            Arc::new(Int32Array::from_iter_values(0..ROWS)),
            Arc::new(Int32Array::from_iter_values((0..ROWS).map(|row| row * 10))),
            Arc::new(BooleanArray::from_iter(
                (0..ROWS).map(|row| Some(row % 2 == 0)),
            )),
        ],
        1_000,
    )
}

fn sort_table() -> Table {
    table(
        vec![
            column("id", arrow_schema::DataType::Int32, true),
            column("name", arrow_schema::DataType::Utf8, true),
        ],
        vec![
            Arc::new(Int32Array::from(vec![Some(3), None, Some(1), Some(2)])),
            Arc::new(StringArray::from(vec![
                Some("z"),
                Some("a"),
                None,
                Some("a"),
            ])),
        ],
        2,
    )
}

fn aggregate_table() -> Table {
    table(
        vec![
            column("category", arrow_schema::DataType::Utf8, true),
            column("price", arrow_schema::DataType::Int64, true),
        ],
        vec![
            Arc::new(StringArray::from(vec![
                Some("alpha"),
                Some("beta"),
                Some("alpha"),
                None,
                Some("beta"),
            ])),
            Arc::new(Int64Array::from(vec![
                Some(10),
                None,
                Some(20),
                Some(5),
                Some(-3),
            ])),
        ],
        2,
    )
}

#[test]
fn scans_pages_without_blocking_execute() {
    let mut table = wide_table();
    let plan = LogicalPlan::scan(table.metadata());
    let mut execution = run(&mut table, &plan, 1);

    assert_eq!(execution.execution.scheduled_reads(), 1);
    let batch = execution.next_batch().unwrap().unwrap().batch.table;
    assert_eq!(batch.num_rows(), PAGE_ROWS as usize);
    assert_eq!(batch.num_columns(), 3);
}

#[test]
fn projects_requested_columns_and_plans_pushdown() {
    let mut table = wide_table();
    let logical = LogicalPlan::scan(table.metadata()).project(vec![1, 0]);
    let physical = Planner::plan(&logical).unwrap();
    assert_eq!(physical.projected_columns(), &[1, 0]);

    let batch = run(&mut table, &logical, 1).next_table().unwrap();
    assert_eq!(batch.schema().field(0).name(), "value");
    assert_eq!(batch.schema().field(1).name(), "id");
}

#[test]
fn filters_with_source_pushdown() {
    let mut table = wide_table();
    let filter = Filter::parse("id >= 4100").unwrap();
    let logical = LogicalPlan::scan(table.metadata()).filter(filter);
    let physical = Planner::plan(&logical).unwrap();
    assert!(physical.filter().is_some());

    let batch = run(&mut table, &logical, 1).next_table().unwrap();
    assert_eq!(ids(&batch), (4100..ROWS).collect::<Vec<_>>());
}

#[test]
fn limit_stops_after_one_bounded_read() {
    let mut table = wide_table();
    let plan = LogicalPlan::scan(table.metadata()).limit(2);
    let mut execution = run(&mut table, &plan, 1);

    assert_eq!(ids(&execution.next_table().unwrap()), vec![0, 1]);
    assert!(execution.next_batch().unwrap().is_none());
    assert_eq!(execution.execution.scheduled_reads(), 1);
}

#[test]
fn finished_queries_stay_finished_and_batches_are_bounded() {
    for sorted in [false, true] {
        let mut table = wide_table();
        let mut plan = LogicalPlan::scan(table.metadata());
        if sorted {
            plan = plan.sort(0, SortDirection::Ascending, NullOrder::Last);
        }
        let mut execution = run(&mut table, &plan, 3);
        let mut found = Vec::new();
        while let Some(batch) = execution.next_batch().unwrap() {
            let rows = batch.batch.table.num_rows();
            assert!((1..=PAGE_ROWS as usize).contains(&rows));
            assert_eq!(batch.generation_id, GenerationId(3));
            found.extend(ids(&batch.batch.table));
        }
        assert_eq!(found, (0..ROWS).collect::<Vec<_>>());
        let reads = execution.execution.scheduled_reads();
        for _ in 0..3 {
            assert!(execution.next_batch().unwrap().is_none());
        }
        assert_eq!(execution.execution.scheduled_reads(), reads);
    }

    let mut table = wide_table();
    let plan = LogicalPlan::scan(table.metadata()).limit(0);
    let mut execution = run(&mut table, &plan, 1);
    assert!(execution.next_batch().unwrap().is_none());
    assert_eq!(execution.execution.scheduled_reads(), 0);
}

#[test]
fn executes_scan_filter_projection_limit_through_runtime() {
    let mut table = wide_table();
    let logical = LogicalPlan::scan(table.metadata())
        .filter(Filter::parse("id >= 1000").unwrap())
        .project(vec![1])
        .limit(3);
    let mut execution = run(&mut table, &logical, 9);
    let batch = execution.next_batch().unwrap().unwrap();

    assert_eq!(batch.generation_id, GenerationId(9));
    assert_eq!(ids(&batch.batch.table), &[10_000, 10_010, 10_020]);
    assert!(execution.next_batch().unwrap().is_none());
}

#[test]
fn rejects_invalid_columns_and_filter_types_before_execution() {
    let table = wide_table();
    assert!(Planner::plan(&LogicalPlan::scan(table.metadata()).project(vec![3])).is_err());
    assert!(
        Planner::plan(
            &LogicalPlan::scan(table.metadata()).filter(Filter::parse("enabled > true").unwrap())
        )
        .is_err()
    );
}

#[test]
fn returns_empty_results_without_reading_more_pages() {
    let mut table = wide_table();
    let plan =
        LogicalPlan::scan(table.metadata()).filter(Filter::parse("id > 999999").unwrap());
    let mut execution = run(&mut table, &plan, 1);

    assert!(execution.next_batch().unwrap().is_none());
    assert_eq!(execution.execution.scheduled_reads(), 1);
}

#[test]
fn streams_multiple_pages_and_row_groups_without_collecting_them() {
    let mut table = wide_table();
    let plan = LogicalPlan::scan(table.metadata());
    let mut execution = run(&mut table, &plan, 1);
    let mut rows = 0;
    while let Some(batch) = execution.next_batch().unwrap() {
        assert!(batch.batch.table.num_rows() <= PAGE_ROWS as usize);
        rows += batch.batch.table.num_rows();
    }
    assert_eq!(rows, ROWS as usize);
    assert_eq!(execution.execution.scheduled_reads(), 2);
}

#[test]
fn keeps_only_one_page_of_unconsumed_results() {
    let mut table = wide_table();
    let plan = LogicalPlan::scan(table.metadata());
    let mut execution = run(&mut table, &plan, 1);
    let first = execution.next_batch().unwrap().unwrap();

    assert_eq!(execution.execution.scheduled_reads(), 1);
    assert!(execution.execution.pending_task().is_none());
    assert!(first.batch.table.num_rows() <= PAGE_ROWS as usize);
    assert!(matches!(
        execution.execution.next_step(),
        Ok(QueryStep::Submit(ReadRequest::Page { page_index: 1 }))
    ));
}

#[test]
fn propagates_runtime_errors_and_cancellation() {
    let mut failing = wide_table();
    failing.broken = true;
    let plan = LogicalPlan::scan(failing.metadata()).limit(1);
    let mut failed = run(&mut failing, &plan, 1);
    assert!(
        failed
            .next_batch()
            .unwrap_err()
            .message()
            .contains("query task")
    );

    let mut table = wide_table();
    let plan = LogicalPlan::scan(table.metadata());
    let mut cancelled = run(&mut table, &plan, 2);
    cancelled.execution.cancel();
    assert!(
        cancelled
            .next_batch()
            .unwrap_err()
            .message()
            .contains("cancelled")
    );
}

#[test]
fn preserves_generation_for_stale_results() {
    let mut table = wide_table();
    let plan = LogicalPlan::scan(table.metadata()).limit(1);
    let batch = run(&mut table, &plan, 7).next_batch().unwrap().unwrap();
    assert!(batch.is_stale_for(GenerationId(8)));
    assert!(!batch.is_stale_for(GenerationId(7)));
}

#[test]
fn executes_all_aggregates_with_sql_null_semantics() {
    let mut table = aggregate_table();
    let logical = LogicalPlan::scan(table.metadata())
        .aggregate(vec![
            AggregateExpr::count_all(),
            AggregateExpr::count(1),
            AggregateExpr::sum(1),
            AggregateExpr::avg(1),
            AggregateExpr::min(1),
            AggregateExpr::max(1),
            AggregateExpr::min(0),
            AggregateExpr::max(0),
        ])
        .unwrap();
    let mut execution = run(&mut table, &logical, 20);
    let batch = execution.next_table().unwrap();
    assert_eq!(batch.num_rows(), 1);
    assert_eq!(counts(batch.column(0)).value(0), 5);
    assert_eq!(counts(batch.column(1)).value(0), 4);
    assert_eq!(longs(batch.column(2)).value(0), 32);
    assert_eq!(
        batch
            .column(3)
            .as_any()
            .downcast_ref::<Float64Array>()
            .unwrap()
            .value(0),
        8.0
    );
    assert_eq!(longs(batch.column(4)).value(0), -3);
    assert_eq!(longs(batch.column(5)).value(0), 20);
    assert_eq!(texts(batch.column(6)).value(0), "alpha");
    assert_eq!(texts(batch.column(7)).value(0), "beta");
    assert!(execution.next_batch().unwrap().is_none());
}

#[test]
fn groups_incrementally_in_first_seen_order_and_obeys_its_budget() {
    let mut table = aggregate_table();
    let logical = LogicalPlan::scan(table.metadata())
        .aggregate_grouped(
            0,
            vec![
                AggregateExpr::count_all(),
                AggregateExpr::count(1),
                AggregateExpr::sum(1),
            ],
        )
        .unwrap();
    let batch = run(&mut table, &logical, 21).next_table().unwrap();
    assert_eq!(batch.num_rows(), 3);
    assert_eq!(
        texts(batch.column(0)).iter().collect::<Vec<_>>(),
        vec![Some("alpha"), Some("beta"), None]
    );
    assert_eq!(counts(batch.column(1)).values(), &[2, 2, 1]);
    assert_eq!(counts(batch.column(2)).values(), &[2, 1, 1]);
    assert_eq!(
        longs(batch.column(3)).iter().collect::<Vec<_>>(),
        vec![Some(30), Some(-3), Some(5)]
    );

    let mut limited = Run::start(
        &mut table,
        QueryEngine::with_group_budget(
            GroupBudget::new(2, GroupBudget::DEFAULT_MAX_BYTES).unwrap(),
        ),
        &logical,
        GenerationId(22),
    );
    assert!(
        limited
            .next_batch()
            .unwrap_err()
            .message()
            .contains("group budget of 2 groups")
    );

    let mut byte_limited = Run::start(
        &mut table,
        QueryEngine::with_group_budget(GroupBudget::new(10, 1).unwrap()),
        &logical,
        GenerationId(23),
    );
    assert!(
        byte_limited
            .next_batch()
            .unwrap_err()
            .message()
            .contains("group budget of 1 bytes")
    );
}

#[test]
fn counting_at_once_counts_each_row() {
    let schema = Schema { fields: Vec::new() };
    let counts =
        AggregateSpec::new(vec![AggregateExpr::count_all(), AggregateExpr::count_all()]).unwrap();
    let budget = GroupBudget::default();
    let mut at_once = GroupCollector::new(&counts, &schema, budget).unwrap();
    let mut one_by_one = GroupCollector::new(&counts, &schema, budget).unwrap();
    at_once.update_count_all(7).unwrap();
    for rows in [3, 4] {
        one_by_one
            .update_batch(&Vec::new(), rows, None, &vec![None, None], &plus)
            .unwrap();
    }
    for fields in [at_once.finish(&divide), one_by_one.finish(&divide)] {
        for field in fields.unwrap() {
            assert!(matches!(
                field.column,
                OutputColumn::UInt64(values) if values == [Some(7)]
            ));
        }
    }

    let mut full = GroupCollector::new(&counts, &schema, budget).unwrap();
    full.update_count_all(u64::MAX).unwrap();
    assert!(full.update_count_all(1).is_err());
}

#[test]
fn sorting_keeps_every_row_once() {
    let table = table(
        vec![
            column("key", arrow_schema::DataType::Int32, true),
            column("id", arrow_schema::DataType::Int32, false),
        ],
        vec![
            Arc::new(Int32Array::from(vec![
                Some(2),
                None,
                Some(2),
                Some(1),
                None,
                Some(2),
            ])),
            Arc::new(Int32Array::from(vec![0, 1, 2, 3, 4, 5])),
        ],
        4,
    );
    let sorted = table
        .read_sorted(
            None,
            &Projection::columns(vec![1], 2).unwrap(),
            SortSpec::new(0, SortDirection::Descending, NullOrder::Last),
            SortBudget::default(),
        )
        .unwrap();
    let mut ids: Vec<i32> = sorted
        .iter()
        .flat_map(|batch| ints(batch.table.column(0)).iter().flatten().collect::<Vec<_>>())
        .collect();
    assert_eq!(ids, vec![0, 2, 5, 3, 1, 4]);
    ids.sort_unstable();
    assert_eq!(ids, vec![0, 1, 2, 3, 4, 5]);
}

#[test]
fn aggregates_multi_page_input_and_preserves_generation_and_cancellation() {
    let mut table = wide_table();
    let logical = LogicalPlan::scan(table.metadata())
        .aggregate(vec![
            AggregateExpr::count_all(),
            AggregateExpr::sum(0),
            AggregateExpr::avg(0),
        ])
        .unwrap();
    let mut execution = run(&mut table, &logical, 23);
    let batch = execution.next_batch().unwrap().unwrap();
    assert_eq!(batch.generation_id, GenerationId(23));
    assert!(batch.is_stale_for(GenerationId(24)));
    assert_eq!(
        longs(batch.batch.table.column(1)).value(0),
        i64::from(ROWS - 1) * i64::from(ROWS) / 2
    );
    assert_eq!(execution.execution.scheduled_reads(), 1);

    let single = LogicalPlan::scan(table.metadata())
        .filter(Filter::parse("id == 1").unwrap())
        .aggregate(vec![AggregateExpr::count_all(), AggregateExpr::sum(0)])
        .unwrap();
    let batch = run(&mut table, &single, 24).next_table().unwrap();
    assert_eq!(counts(batch.column(0)).value(0), 1);
    assert_eq!(longs(batch.column(1)).value(0), 1);

    let mut cancelled = run(&mut table, &logical, 24);
    cancelled.execution.cancel();
    assert!(
        cancelled
            .next_batch()
            .unwrap_err()
            .message()
            .contains("cancelled")
    );
}

#[test]
fn rejects_aggregate_overflow_and_incompatible_types() {
    let mut table = table(
        vec![column("value", arrow_schema::DataType::Int64, false)],
        vec![Arc::new(Int64Array::from(vec![i64::MAX, 1]))],
        1_000,
    );
    let plan = LogicalPlan::scan(table.metadata())
        .aggregate(vec![AggregateExpr::sum(0)])
        .unwrap();
    let mut overflow = run(&mut table, &plan, 25);
    assert!(
        overflow
            .next_batch()
            .unwrap_err()
            .message()
            .contains("overflow")
    );
    assert!(
        QueryEngine::new()
            .execute(
                &LogicalPlan::scan(table.metadata())
                    .aggregate(vec![AggregateExpr::sum(9)])
                    .unwrap(),
                GenerationId(26),
            )
            .is_err()
    );
}

#[test]
fn executes_direct_sort_with_deterministic_null_and_string_ordering() {
    let mut table = sort_table();
    let plan = LogicalPlan::scan(table.metadata()).sort(
        0,
        SortDirection::Ascending,
        NullOrder::Last,
    );
    let batch = run(&mut table, &plan, 5).next_table().unwrap();
    assert_eq!(
        ints(batch.column(0)).iter().collect::<Vec<_>>(),
        vec![Some(1), Some(2), Some(3), None]
    );

    let plan = LogicalPlan::scan(table.metadata()).sort(
        1,
        SortDirection::Descending,
        NullOrder::First,
    );
    let batch = run(&mut table, &plan, 6).next_table().unwrap();
    assert_eq!(
        texts(batch.column(1)).iter().collect::<Vec<_>>(),
        vec![None, Some("z"), Some("a"), Some("a")]
    );
    assert_eq!(
        ints(batch.column(0)).iter().collect::<Vec<_>>(),
        vec![Some(1), Some(3), None, Some(2)]
    );
}

#[test]
fn sorts_multiple_pages_and_applies_limit_after_ordering() {
    let mut table = wide_table();
    let plan = LogicalPlan::scan(table.metadata())
        .sort(0, SortDirection::Descending, NullOrder::Last)
        .limit(3);
    let mut execution = run(&mut table, &plan, 12);
    let batch = execution.next_table().unwrap();
    assert_eq!(ids(&batch), vec![ROWS - 1, ROWS - 2, ROWS - 3]);
    assert!(execution.next_batch().unwrap().is_none());
    assert_eq!(execution.execution.scheduled_reads(), 1);
}

#[test]
fn rejects_sort_inputs_over_the_configured_budget_without_temp_files() {
    let mut table = wide_table();
    let plan = LogicalPlan::scan(table.metadata()).sort(
        0,
        SortDirection::Ascending,
        NullOrder::Last,
    );
    let mut execution = Run::start(
        &mut table,
        QueryEngine::with_sort_budget(SortBudget::new(10, SortBudget::DEFAULT_MAX_BYTES).unwrap()),
        &plan,
        GenerationId(13),
    );
    let error = execution.next_batch().unwrap_err();
    assert!(error.message().contains("external sorting is unavailable"));
}

#[test]
fn queries_run_within_the_bounds_of_their_engine() {
    let table = wide_table();
    let scan = || LogicalPlan::scan(table.metadata());
    let sorts = SortBudget::new(10, 20).unwrap();
    let sorted = scan().sort(0, SortDirection::Ascending, NullOrder::Last);
    let engine = QueryEngine::with_sort_budget(sorts);
    let mut execution = engine.execute(&sorted, GenerationId(1)).unwrap();
    assert_eq!(execution.sort_budget(), sorts);
    assert_eq!(execution.group_budget(), GroupBudget::default());
    assert_eq!(
        execution.schedule_next(),
        Some(ReadRequest::Sorted { budget: sorts })
    );
    let groups = GroupBudget::new(3, 40).unwrap();
    let grouped = scan()
        .aggregate_grouped(0, vec![AggregateExpr::count_all()])
        .unwrap();
    let engine = QueryEngine::with_group_budget(groups);
    let mut execution = engine.execute(&grouped, GenerationId(1)).unwrap();
    assert_eq!(execution.sort_budget(), SortBudget::default());
    assert_eq!(
        execution.schedule_next(),
        Some(ReadRequest::Aggregated { budget: groups })
    );

    let mut app = App::new(grid_table(8));
    app.engine = QueryEngine::with_sort_budget(SortBudget::new(7, 1 << 20).unwrap());
    app.toggle_sort(0);
    app.poll_until_idle();
    assert_eq!(app.view.grid.rows, 0);
    assert!(app.view.status.contains("external sorting is unavailable"));
    app.engine = QueryEngine::new();
    app.toggle_sort(0);
    app.poll_until_idle();
    assert_eq!(app.view.grid.rows, 8);
}

#[test]
fn sorting_preserves_cancellation_and_generation_handling() {
    let mut table = wide_table();
    let plan = LogicalPlan::scan(table.metadata()).sort(
        0,
        SortDirection::Ascending,
        NullOrder::Last,
    );
    let mut execution = run(&mut table, &plan, 14);
    execution.execution.cancel();
    assert!(
        execution
            .next_batch()
            .unwrap_err()
            .message()
            .contains("cancelled")
    );
}

#[test]
fn sorts_empty_and_single_row_inputs() {
    let mut table = wide_table();
    let plan = LogicalPlan::scan(table.metadata())
        .filter(Filter::parse("id > 999999").unwrap())
        .sort(0, SortDirection::Ascending, NullOrder::Last);
    assert!(run(&mut table, &plan, 15).next_batch().unwrap().is_none());

    let plan = LogicalPlan::scan(table.metadata())
        .filter(Filter::parse("id == 1").unwrap())
        .sort(0, SortDirection::Ascending, NullOrder::Last);
    let mut single = run(&mut table, &plan, 16);
    assert_eq!(ids(&single.next_table().unwrap()), vec![1]);
    assert!(single.next_batch().unwrap().is_none());
}

#[test]
fn polls_without_waiting_for_a_runtime_response() {
    let mut table = wide_table();
    let plan = LogicalPlan::scan(table.metadata()).limit(1);
    let mut execution = run(&mut table, &plan, 3);
    for _ in 0..3 {
        assert!(matches!(
            execution.execution.next_step(),
            Ok(QueryStep::Receive)
        ));
    }
    assert_eq!(execution.next_table().unwrap().num_rows(), 1);
}

#[test]
fn limits_hold_for_every_kind_of_plan() {
    let mut table = wide_table();
    for limit in [0, 1, 7, 4_096, 4_097, 6_000] {
        let all = || LogicalPlan::scan(table.source.dataset_metadata.clone());
        let plans = vec![
            (all().limit(limit), ROWS as usize),
            (
                all()
                    .filter(Filter::parse("id >= 500").unwrap())
                    .limit(limit),
                4_500,
            ),
            (
                all()
                    .sort(0, SortDirection::Descending, NullOrder::First)
                    .limit(limit),
                ROWS as usize,
            ),
        ];
        for (plan, available) in plans {
            let mut execution = run(&mut table, &plan, 1);
            let mut rows = 0;
            while let Some(batch) = execution.next_table() {
                rows += batch.num_rows();
            }
            assert_eq!(rows, limit.min(available));
        }
    }
}

#[test]
fn answers_that_do_not_fit_are_refused() {
    let table = wide_table();
    let engine = QueryEngine::new();
    let response = |outcome| PageResponse {
        task_id: TaskId(3),
        generation_id: GenerationId(1),
        outcome,
    };
    let batch = || Batch {
        table: table.data.slice(0, 1),
    };
    let plan = LogicalPlan::scan(table.metadata());
    let mut execution = engine.execute(&plan, GenerationId(1)).unwrap();
    assert!(matches!(
        execution.deliver(response(PageOutcome::Cancelled)),
        Err(ExecutionError::NoPending)
    ));
    let mut refused = |outcome, request| {
        execution.submitted(request, TaskId(3));
        execution.deliver(response(outcome)).unwrap_err().message()
    };
    let page = ReadRequest::Page { page_index: 0 };
    assert_eq!(
        refused(PageOutcome::Batch(batch()), page),
        "runtime returned a batch for a page query read"
    );
    assert_eq!(
        refused(PageOutcome::Batches(vec![batch()]), page),
        "runtime returned sorted batches for a non-sort query read"
    );
    assert_eq!(
        refused(
            PageOutcome::Batch(batch()),
            ReadRequest::Sorted {
                budget: SortBudget::default()
            }
        ),
        "runtime returned one batch for a sorted query read"
    );
    assert_eq!(
        refused(PageOutcome::Cancelled, page),
        "query task 3 was cancelled"
    );
    assert_eq!(
        refused(PageOutcome::ReadFailed("disk".to_string()), page),
        "query task 3 failed: disk"
    );
    execution.submitted(page, TaskId(4));
    assert_eq!(
        execution.disconnected().message(),
        "query runtime response channel disconnected"
    );
    assert!(execution.pending_task().is_none());
    assert!(is_queue_full(&ExecutionError::Submit(
        SubmitError::QueueFull
    )));
    assert!(!is_queue_full(&ExecutionError::Submit(
        SubmitError::Shutdown
    )));
    assert_eq!(
        ExecutionError::Submit(SubmitError::QueueFull).message(),
        "submit query source read: runtime request queue is full"
    );
}

// ---------------------------------------------------------------------------
// SQL
// ---------------------------------------------------------------------------

fn sql_table() -> Table {
    table(
        vec![
            column("id", arrow_schema::DataType::Int32, false),
            column("name", arrow_schema::DataType::Utf8, false),
            column("enabled", arrow_schema::DataType::Boolean, false),
        ],
        vec![
            Arc::new(Int32Array::from_iter_values(0..ROWS)),
            Arc::new(StringArray::from_iter_values(
                (0..ROWS).map(|row| if row % 2 == 0 { "alpha" } else { "beta" }),
            )),
            Arc::new(BooleanArray::from_iter(
                (0..ROWS).map(|row| Some(row % 2 == 0)),
            )),
        ],
        1_000,
    )
}

fn execute(sql: &str, table: &mut Table) -> Vec<RecordBatch> {
    let plan = SqlAst::parse(sql)
        .unwrap()
        .to_logical_plan(table.metadata())
        .unwrap();
    let mut execution = run(table, &plan, 4);
    let mut batches = Vec::new();
    while let Some(batch) = execution.next_batch().unwrap() {
        assert_eq!(batch.generation_id, GenerationId(4));
        batches.push(batch.batch.table);
    }
    batches
}

#[test]
fn translates_select_star_and_projection() {
    let mut table = sql_table();
    let all = SqlAst::parse("SELECT * FROM dataset").unwrap();
    assert_eq!(all.projection(), &SqlProjection::All);
    assert_eq!(
        SqlAst::parse("SELECT name, id FROM dataset")
            .unwrap()
            .projection(),
        &SqlProjection::Columns(vec!["name".to_string(), "id".to_string()])
    );

    let batches = execute("SELECT name FROM dataset LIMIT 2", &mut table);
    assert_eq!(batches[0].schema().field(0).name(), "name");
    assert_eq!(batches[0].num_rows(), 2);
}

#[test]
fn translates_every_supported_predicate() {
    let mut table = sql_table();
    for sql in [
        "SELECT id FROM dataset WHERE id = 2",
        "SELECT id FROM dataset WHERE id == 2",
        "SELECT id FROM dataset WHERE id != 2",
        "SELECT id FROM dataset WHERE id > 2",
        "SELECT id FROM dataset WHERE id >= 2",
        "SELECT id FROM dataset WHERE id < 2",
        "SELECT id FROM dataset WHERE id <= 2",
        "SELECT name FROM dataset WHERE name LIKE '%ph%' LIMIT 1",
        "SELECT enabled FROM dataset WHERE enabled = true LIMIT 1",
    ] {
        assert!(!execute(sql, &mut table).is_empty(), "{sql}");
    }
}

#[test]
fn combines_filter_projection_limit_and_matches_direct_plan() {
    let mut table = sql_table();
    let sql = "SELECT name FROM dataset WHERE id >= 1000 LIMIT 3";
    let sql_batches = execute(sql, &mut table);
    let direct = LogicalPlan::scan(table.metadata())
        .filter(Filter::parse("id >= 1000").unwrap())
        .project(vec![1])
        .limit(3);
    let direct_batch = run(&mut table, &direct, 4).next_table().unwrap();
    assert_eq!(sql_batches[0], direct_batch);
}

#[test]
fn translates_single_column_order_by_through_the_runtime_path() {
    let mut table = sql_table();
    let sql = "SELECT id FROM dataset ORDER BY id DESC NULLS LAST LIMIT 3";
    let ast = SqlAst::parse(sql).unwrap();
    assert_eq!(
        ast.sort(),
        Some(&SqlSort {
            column: "id".to_string(),
            direction: SortDirection::Descending,
            nulls: NullOrder::Last,
        })
    );
    let batches = execute(sql, &mut table);
    assert_eq!(ids(&batches[0]), &[ROWS - 1, ROWS - 2, ROWS - 3]);

    let projected = execute(
        "SELECT id FROM dataset ORDER BY name ASC LIMIT 3",
        &mut table,
    );
    assert_eq!(ids(&projected[0]), &[0, 2, 4]);
}

#[test]
fn translates_aggregates_and_group_by_through_the_runtime_path() {
    let mut table = sql_table();
    let sql = "SELECT COUNT(*), COUNT(id), SUM(id), AVG(id), MIN(name), MAX(name) FROM dataset";
    let ast = SqlAst::parse(sql).unwrap();
    assert!(matches!(ast.projection(), SqlProjection::Aggregates(_)));
    let batch = execute(sql, &mut table).pop().unwrap();
    assert_eq!(batch.num_rows(), 1);
    assert_eq!(counts(batch.column(0)).value(0), ROWS as u64);
    assert_eq!(counts(batch.column(1)).value(0), ROWS as u64);
    assert_eq!(
        longs(batch.column(2)).value(0),
        i64::from(ROWS - 1) * i64::from(ROWS) / 2
    );
    assert_eq!(
        batch
            .column(3)
            .as_any()
            .downcast_ref::<Float64Array>()
            .unwrap()
            .value(0),
        f64::from(ROWS - 1) / 2.0
    );
    assert_eq!(texts(batch.column(4)).value(0), "alpha");
    assert_eq!(texts(batch.column(5)).value(0), "beta");

    let grouped_sql = "SELECT name, COUNT(*), AVG(id) FROM dataset GROUP BY name";
    let grouped = execute(grouped_sql, &mut table);
    let direct = LogicalPlan::scan(table.metadata())
        .aggregate_grouped(1, vec![AggregateExpr::count_all(), AggregateExpr::avg(0)])
        .unwrap();
    let direct_batch = run(&mut table, &direct, 30).next_table().unwrap();
    assert_eq!(grouped, vec![direct_batch]);
}

#[test]
fn aggregates_empty_input_and_rejects_unsupported_forms() {
    let mut table = sql_table();
    let empty = execute(
        "SELECT COUNT(*), SUM(id) FROM dataset WHERE id > 999999",
        &mut table,
    );
    assert_eq!(empty.len(), 1);
    assert_eq!(counts(empty[0].column(0)).value(0), 0);
    assert!(empty[0].column(1).is_null(0));

    for sql in [
        "SELECT id, COUNT(*) FROM dataset",
        "SELECT name, COUNT(*) FROM dataset GROUP BY id",
        "SELECT COUNT(DISTINCT id) FROM dataset",
        "SELECT SUM(name) FROM dataset",
        "SELECT COUNT(*) FROM dataset GROUP BY id, name",
    ] {
        assert!(
            SqlAst::parse(sql)
                .and_then(|parsed| parsed.to_logical_plan(table.metadata()))
                .is_err(),
            "{sql}"
        );
    }
    assert!(
        SqlAst::parse("SELECT COUNT(*) FROM dataset ORDER BY id")
            .unwrap()
            .to_logical_plan(table.metadata())
            .is_err()
    );
}

#[test]
fn rejects_invalid_unsupported_and_invalid_source_queries() {
    for sql in [
        "SELECT FROM dataset",
        "SELECT id FROM other",
        "SELECT id FROM dataset WHERE id = 1 AND enabled = true",
        "SELECT id FROM dataset ORDER BY id, enabled",
        "SELECT id FROM dataset LIMIT 1 OFFSET 1",
    ] {
        assert!(SqlAst::parse(sql).is_err(), "{sql}");
    }

    let table = sql_table();
    assert!(
        SqlAst::parse("SELECT missing FROM dataset")
            .unwrap()
            .to_logical_plan(table.metadata())
            .is_err()
    );
    assert!(
        SqlAst::parse("SELECT * FROM dataset WHERE id LIKE '%2%'")
            .unwrap()
            .to_logical_plan(table.metadata())
            .is_err()
    );
}

#[test]
fn handles_empty_results_and_streams_bounded_batches() {
    let mut table = sql_table();
    assert!(execute("SELECT * FROM dataset WHERE id > 999999", &mut table).is_empty());

    let batches = execute("SELECT * FROM dataset", &mut table);
    assert!(batches.len() > 1);
    assert!(
        batches
            .iter()
            .all(|batch| batch.num_rows() <= PAGE_ROWS as usize)
    );
}

#[test]
fn preserves_runtime_cancellation_and_generation() {
    let mut table = sql_table();
    let plan = SqlAst::parse("SELECT * FROM dataset")
        .unwrap()
        .to_logical_plan(table.metadata())
        .unwrap();
    let mut execution = run(&mut table, &plan, 11);
    execution.execution.cancel();
    assert!(
        execution
            .next_batch()
            .unwrap_err()
            .message()
            .contains("cancelled")
    );
}

// ---------------------------------------------------------------------------
// The grid of a query
// ---------------------------------------------------------------------------

fn grid_table(rows: usize) -> Table {
    table(
        vec![
            column("id", arrow_schema::DataType::Int32, false),
            column("name", arrow_schema::DataType::Utf8, false),
        ],
        vec![
            Arc::new(Int32Array::from_iter_values(0..rows as i32)),
            Arc::new(StringArray::from_iter_values((0..rows).map(|row| {
                if row % 2 == 0 {
                    "alpha"
                } else {
                    "beta"
                }
            }))),
        ],
        1_000,
    )
}

/// A window on a dataset, and the work that goes on behind it.
struct App {
    table: Table,
    view: Explorer,
    engine: QueryEngine,
    ids: TaskIds,
    waiting: Option<(TaskId, ReadRequest)>,
    /// The reads whose answers are not wanted any more.
    cancelled: Vec<TaskId>,
    chart_waiting: Option<(TaskId, ReadRequest)>,
    pending_pages: Vec<(u64, Projection)>,
}

const CLOCK: Clock = Clock {
    now_unix_secs: 1,
    elapsed_ms: 5,
};

fn width_bits(kept: Option<u16>) -> u32 {
    kept.map_or(110.0, f32::from).to_bits()
}

fn poll(
    table: &mut Table,
    ids: &mut TaskIds,
    waiting: &mut Option<(TaskId, ReadRequest)>,
    execution: &mut QueryExecution,
) -> Result<QueryPoll, ExecutionError> {
    loop {
        match execution.next_step()? {
            QueryStep::Batch(batch) => return Ok(QueryPoll::Batch(batch)),
            QueryStep::Finished => return Ok(QueryPoll::Finished),
            QueryStep::Submit(request) => *waiting = Some(submit(execution, ids, request)),
            QueryStep::Receive => match waiting.take() {
                Some(read) => answer(table, execution, read)?,
                None => return Ok(QueryPoll::Pending),
            },
        }
    }
}

impl App {
    fn without_dataset(session: SessionState) -> Self {
        App {
            table: grid_table(0),
            view: Explorer::new(session, None, width_bits(None)),
            engine: QueryEngine::new(),
            ids: TaskIds::new(),
            waiting: None,
            cancelled: Vec::new(),
            chart_waiting: None,
            pending_pages: Vec::new(),
        }
    }

    fn with_session(table: Table, session: SessionState) -> Self {
        let mut app = App::without_dataset(session);
        app.begin_open("data.parquet", table);
        app.poll_open();
        app
    }

    fn new(table: Table) -> Self {
        App::with_session(table, SessionState::default())
    }

    fn begin_open(&mut self, path: &str, table: Table) {
        self.table = table;
        self.pending_pages.clear();
        self.view.begin_open(path, CLOCK);
    }

    fn poll_open(&mut self) {
        let generation = self.view.grid.generation;
        let metadata = self.table.metadata();
        let source = Arc::new(ParquetSource::new("data.parquet".to_string(), metadata));
        self.view
            .opened(generation, OpenOutcome::Opened(source), &width_bits);
    }

    fn start(&mut self, start: QueryStart) {
        let Some(mut pending) = start.pending else {
            return;
        };
        self.pending_pages.clear();
        assert!(self.view.filtered.is_none());
        self.cancelled.extend(self.waiting.take().map(|(task, _)| task));
        self.waiting = pending
            .execution
            .schedule_next()
            .map(|request| submit(&mut pending.execution, &mut self.ids, request));
        self.view.query_started(pending);
    }

    fn apply_filter(&mut self, filter: &str) {
        self.view.filter_input = filter.to_string();
        let start = self.view.apply_filter(true, &self.engine, CLOCK);
        self.start(start);
    }

    fn run_sql(&mut self, sql: &str) {
        self.view.sql_input = sql.to_string();
        let start = self.view.run_sql(true, &self.engine, CLOCK);
        self.start(start);
    }

    fn toggle_sort(&mut self, column: usize) {
        let start = self.view.toggle_sort(column, true, &self.engine, CLOCK);
        self.start(start);
    }

    fn poll_until_idle(&mut self) {
        while let Some(filtered) = &mut self.view.filtered {
            if !filtered.needs_more() {
                return;
            }
            let Some(execution) = &mut filtered.execution else {
                return;
            };
            let polled = poll(
                &mut self.table,
                &mut self.ids,
                &mut self.waiting,
                execution,
            );
            if !self.view.query_polled(polled, CLOCK).more {
                return;
            }
        }
    }

    fn request_more(&mut self) {
        self.view.filtered.as_mut().unwrap().request_more();
    }

    fn awaited(&self) -> TaskId {
        let execution = self.shown().execution.as_ref().unwrap();
        execution.pending_task().unwrap()
    }

    fn shown(&self) -> &FilteredGrid {
        self.view.filtered.as_ref().unwrap()
    }

    fn filtered_text(&self, row: u64, column: usize) -> Option<String> {
        let (batch, offset) = self.shown().locate(row as usize)?;
        Some(format_cell_with_limit(
            &cell_of(&self.shown().batches[batch], offset, column),
            256,
        ))
    }

    fn filtered_ids(&self) -> Vec<String> {
        (0..self.view.grid.rows)
            .map(|row| self.filtered_text(row, 0).unwrap())
            .collect()
    }

    fn request_page(&mut self, index: u64) {
        if let Some(projection) = self.view.request_page(index, true) {
            self.pending_pages.push((index, projection));
        }
    }

    fn poll_pages(&mut self) {
        for (index, projection) in std::mem::take(&mut self.pending_pages) {
            let window = pavi::page::RowWindow::for_page(index, self.table.source.row_count());
            let batches = self
                .table
                .read_window_batches(window.first_row, window.row_count, &projection)
                .unwrap();
            let key = pavi::page::PageKey::new(index, projection);
            let response = PageResponse {
                task_id: TaskId(1),
                generation_id: self.view.grid.generation,
                outcome: PageOutcome::Loaded(pavi::page::DataPage::new(key, window, batches)),
            };
            self.view.page_answered(index, Some(response));
        }
    }

    fn load_page(&mut self, index: u64) {
        self.request_page(index);
        self.poll_pages();
    }

    fn batch_row(&self, place: RowPlace) -> (&Batch, usize) {
        (self.view.batch_at(place).unwrap(), place.offset())
    }

    fn cell_text(&self, row: u64, column: usize) -> Option<String> {
        let (batch, offset) = self.batch_row(self.view.place_of_row(row)?);
        Some(format_cell(&cell_of(batch, offset, column)))
    }

    fn copied(&self, row: bool) -> Result<String, CopyError> {
        let read = |place: RowPlace, column: usize| {
            let (batch, offset) = self.batch_row(place);
            let known = column < batch.table.num_columns();
            known.then(|| format_cell_with_limit(&cell_of(batch, offset, column), 256))
        };
        self.view.selected_text(row, &read)
    }

    fn details(&self) -> Option<CellDetails> {
        let (row, shown) = self.view.grid.selection?;
        let (batch, offset) = self.batch_row(self.view.place_of_row(row)?);
        let columns =
            visible_batch_columns(self.view.filtered.as_ref(), &self.view.column_layout);
        let position = columns[shown];
        let field = &schema_of(&batch.table.schema()).fields[position];
        Some(inspect_cell(
            row,
            shown,
            &field.name,
            field.data_type,
            &field.type_text,
            &cell_of(batch, offset, position),
            false,
            false,
        ))
    }

    fn run_chart(&mut self) {
        match self.view.begin_chart(true, &self.engine) {
            ChartStart::Refused => {}
            ChartStart::Window(accumulator) => {
                let kind = self.view.chart.config.kind;
                let inputs = self
                    .shown()
                    .batches
                    .iter()
                    .map(|batch| chart_input(&accumulator, kind, batch))
                    .collect();
                self.view.chart_window(accumulator, &inputs, locate, edge);
            }
            ChartStart::Query(accumulator, mut execution) => {
                self.chart_waiting = execution
                    .schedule_next()
                    .map(|request| submit(&mut execution, &mut self.ids, request));
                self.view.chart_started(accumulator, execution);
            }
        }
    }

    fn poll_chart(&mut self) {
        while self.view.chart.loading() {
            let kind = self.view.chart.config.kind;
            let execution = self.view.chart.execution.as_mut().unwrap();
            let polled = poll(
                &mut self.table,
                &mut self.ids,
                &mut self.chart_waiting,
                execution,
            );
            let chart_poll = match polled {
                Ok(QueryPoll::Batch(rows)) => {
                    let accumulator = self.view.chart.accumulator.as_ref().unwrap();
                    let (fields, input) = chart_input(accumulator, kind, &rows.batch);
                    ChartPoll::Rows {
                        generation_id: rows.generation_id,
                        fields,
                        input,
                    }
                }
                Ok(QueryPoll::Pending) => ChartPoll::Pending,
                Ok(QueryPoll::Finished) => ChartPoll::Finished,
                Err(error) => ChartPoll::Failed(error),
            };
            self.view.chart.apply_poll(chart_poll, locate, edge);
        }
    }

    fn run_profile(&mut self, column: usize) -> GenerationId {
        let generation = self.view.begin_profile(true).unwrap();
        self.view.profile.started(column);
        generation
    }
}

#[test]
fn applies_every_supported_operator_through_the_query_path() {
    let mut app = App::new(grid_table(8));

    for filter in [
        "id == 2",
        "id != 2",
        "id > 2",
        "id >= 2",
        "id < 2",
        "id <= 2",
        "name contains alpha",
    ] {
        app.apply_filter(filter);
        app.poll_until_idle();
        assert!(app.view.filter_error.is_none(), "{filter}");
        assert!(app.view.grid.rows > 0, "{filter}");
    }
}

#[test]
fn workspace_shortcuts_route_between_grid_and_sql() {
    let mut app = App::new(grid_table(2));

    app.view.press(Shortcut::Sql, false);
    assert_eq!(app.view.workspace, Workspace::Sql);
    app.view.press(Shortcut::Grid, false);
    assert_eq!(app.view.workspace, Workspace::Grid);
    app.view.press(Shortcut::Filter, false);
    assert_eq!(app.view.workspace, Workspace::Grid);
    assert!(app.view.show_filter_controls);

    app.view.press(Shortcut::Sql, true);
    assert_eq!(app.view.workspace, Workspace::Grid);
    assert!(app.view.show_inspector);
    assert_eq!(
        app.view.press(Shortcut::Inspector, false),
        Saving::Reported
    );
    assert!(!app.view.show_inspector);
    assert!(!app.view.session.preferences.inspector_visible);
}

#[test]
fn reports_invalid_and_incompatible_filters_without_replacing_the_grid() {
    let mut app = App::new(grid_table(8));
    let rows = app.view.grid.rows;

    for (filter, message) in [
        ("id", "Invalid filter: unsupported filter expression: id"),
        (
            "missing == 1",
            "Invalid filter: validate query filter: unknown filter column 'missing'",
        ),
        (
            "id contains two",
            "Invalid filter: validate query filter: contains is only supported for UTF-8 columns",
        ),
    ] {
        app.apply_filter(filter);
        assert!(app.view.filtered.is_none());
        assert_eq!(app.view.filter_error.as_deref(), Some(message));
        assert_eq!(app.view.grid.rows, rows);
    }
}

#[test]
fn applies_and_clears_a_filter() {
    let mut app = App::new(grid_table(8));
    app.apply_filter(" id == 2 ");
    assert_eq!(app.view.status, "Filtering: id == 2");
    app.poll_until_idle();
    assert_eq!(app.filtered_ids(), vec!["2"]);
    assert_eq!(app.view.status, "Filter results: 1 rows loaded");

    app.view.clear_filter(CLOCK);
    assert!(app.view.filtered.is_none());
    assert!(app.view.filter_input.is_empty());
    assert_eq!(app.view.grid.rows, 8);
    assert_eq!(app.view.status, "Filter cleared");
}

#[test]
fn distinguishes_zero_matches_and_execution_errors() {
    let mut app = App::new(grid_table(8));
    app.apply_filter("id > 100");
    app.poll_until_idle();
    assert_eq!(app.view.grid.rows, 0);
    assert!(app.view.status.contains("No rows match"));

    let mut failing = App::new(grid_table(8));
    failing.table.broken = true;
    failing.apply_filter("id == 1");
    failing.poll_until_idle();
    assert!(failing.shown().error.is_some());
    assert_eq!(
        failing.view.status,
        "Filter execution: query task 1 failed: open data.parquet"
    );
}

#[test]
fn streams_multiple_pages_with_a_bounded_result_window() {
    let rows = (PAGE_ROWS * 9 + 1) as usize;
    let mut app = App::new(grid_table(rows));
    app.apply_filter("id >= 0");
    for _ in 0..9 {
        app.poll_until_idle();
        app.request_more();
    }
    app.poll_until_idle();

    let filtered = app.shown();
    assert!(filtered.first_result > 0);
    assert!(filtered.batches.len() <= MAX_FILTERED_BATCHES);
    assert!(filtered.rows <= PAGE_ROWS * MAX_FILTERED_BATCHES as u64);
    assert_eq!(app.view.grid.selection, None);
    let last = filtered.received_rows() - 1;
    assert_eq!(app.cell_text(last, 0), Some(last.to_string()));
    assert_eq!(app.view.place_of_row(0), None);
}

#[test]
fn a_selection_that_leaves_the_window_ends() {
    let rows = (PAGE_ROWS * 10) as usize;
    let mut app = App::new(grid_table(rows));
    app.apply_filter("id >= 0");
    app.poll_until_idle();
    assert!(app.view.grid.select_filtered(0, 5, 1));
    for _ in 0..7 {
        app.request_more();
        app.poll_until_idle();
        assert_eq!(app.view.grid.selection, Some((5, 1)));
    }
    app.request_more();
    app.poll_until_idle();
    assert_eq!(app.view.grid.selection, None);
    assert_eq!(app.view.grid.selection_range, None);
}

#[test]
fn replaces_and_cancels_obsolete_filters() {
    let mut app = App::new(grid_table(8));
    app.apply_filter("id >= 0");
    let task = app.awaited();
    app.apply_filter("id >= 0");
    assert_eq!(app.cancelled, vec![task]);
    let mut obsolete = app.view.filtered.take().unwrap();
    obsolete.cancel();
    assert!(matches!(
        obsolete.execution.unwrap().next_step(),
        Err(ExecutionError::Cancelled)
    ));

    app.apply_filter("id == 1");
    app.poll_until_idle();
    assert_eq!(app.filtered_ids(), vec!["1"]);
    assert!(app.view.grid.generation.0 >= 2);
}

#[test]
fn drops_stale_filtered_batches() {
    let mut app = App::new(grid_table(8));
    app.apply_filter("id == 1");
    app.view.grid.generation.0 = app.view.grid.generation.0.saturating_add(1);
    app.poll_until_idle();

    assert_eq!(app.view.grid.rows, 0);
}

#[test]
fn runs_sql_through_the_existing_bounded_result_grid() {
    let mut app = App::new(grid_table(8));
    app.run_sql("SELECT name FROM dataset WHERE id >= 2 LIMIT 2");
    assert_eq!(app.view.status, "SQL: running");
    app.poll_until_idle();

    assert!(app.view.sql_error.is_none());
    assert_eq!(app.view.grid.columns, 1);
    assert_eq!(app.view.grid.rows, 2);
    assert_eq!(app.filtered_ids(), vec!["alpha", "beta"]);
    assert_eq!(app.shown().kind, QueryKind::Sql);

    app.run_sql("SELECT id FROM dataset ORDER BY id DESC LIMIT 2");
    app.poll_until_idle();
    assert_eq!(app.filtered_ids(), vec!["7", "6"]);
    assert_eq!(
        app.shown().sort,
        Some(SortSpec::new(0, SortDirection::Descending, NullOrder::Last))
    );

    app.run_sql("SELECT COUNT(*), SUM(id) FROM dataset");
    app.poll_until_idle();
    assert!(app.view.sql_error.is_none());
    assert_eq!(app.view.grid.columns, 2);
    assert_eq!(app.view.grid.rows, 1);
    assert_eq!(app.filtered_ids(), vec!["8"]);
    assert_eq!(app.filtered_text(0, 1).as_deref(), Some("28"));
    assert!(app.shown().aggregate);
    let fields = app.shown().batches[0]
        .table
        .schema()
        .fields()
        .iter()
        .map(|field| field.name().to_owned())
        .collect::<Vec<_>>();
    assert_eq!(fields, vec!["COUNT(*)", "SUM(id)"]);
    let newest = &app.view.session.query_history[0];
    assert_eq!(newest.sql, "SELECT COUNT(*), SUM(id) FROM dataset");
    assert_eq!((newest.timestamp_unix_secs, newest.duration_ms), (1, 5));
    assert_eq!((newest.success, newest.row_count), (true, Some(1)));
    assert_eq!(app.view.session.query_history.len(), 3);
}

#[test]
fn reports_sql_parse_and_type_errors_without_replacing_results() {
    let mut app = App::new(grid_table(8));
    let rows = app.view.grid.rows;

    for sql in [
        "SELECT FROM dataset",
        "SELECT missing FROM dataset",
        "SELECT * FROM dataset WHERE id LIKE '%2%'",
    ] {
        app.run_sql(sql);
        assert!(app.view.filtered.is_none(), "{sql}");
        assert!(
            app.view
                .sql_error
                .as_deref()
                .is_some_and(|error| error.starts_with("SQL error: ")),
            "{sql}"
        );
        assert_eq!(app.view.grid.rows, rows, "{sql}");
    }
    assert_eq!(app.view.session.query_history.len(), 3);
    assert!(
        app.view
            .session
            .query_history
            .iter()
            .all(|entry| !entry.success)
    );
}

#[test]
fn replaces_and_cancels_obsolete_sql_queries() {
    let mut app = App::new(grid_table(8));
    let first_sql = "SELECT id FROM dataset";
    app.run_sql(first_sql);
    let task = app.awaited();

    app.run_sql("SELECT id FROM dataset WHERE id = 1");
    assert_eq!(app.cancelled, vec![task]);
    assert_ne!(app.awaited(), task);
    app.poll_until_idle();
    assert_eq!(app.filtered_ids(), vec!["1"]);
    assert_eq!(app.shown().kind, QueryKind::Sql);
    let history = &app.view.session.query_history;
    assert_eq!(history.len(), 2);
    assert_eq!(history[1].sql, first_sql);
    assert!(!history[1].success);
    assert_eq!(history[0].sql, "SELECT id FROM dataset WHERE id = 1");
    assert!(history[0].success);
}

#[test]
fn restores_session_without_restoring_transient_work() {
    let mut session = SessionState::default();
    session.record_recent_file("data.parquet".to_string());
    session.sql_input = "SELECT id FROM dataset LIMIT 1".to_string();
    session.record_query("SELECT id FROM dataset LIMIT 1", 1, 5, true, Some(1));
    session.preferences.inspector_visible = false;
    session.preferences.chart_visible = true;

    let path = session.last_opened_file.clone();
    let mut view = Explorer::new(session, path, width_bits(None));
    assert_eq!(view.path_input, "data.parquet");
    assert_eq!(view.sql_input, "SELECT id FROM dataset LIMIT 1");
    assert!(!view.show_inspector);
    assert!(view.chart.visible);
    assert_eq!(view.session.query_history.len(), 1);
    assert_eq!(
        view.session.query_history[0].sql,
        "SELECT id FROM dataset LIMIT 1"
    );
    assert_eq!(view.pages.len(), 0);
    assert!(view.filtered.is_none());
    assert!(view.running_sql.is_none());
    assert!(view.grid.selection.is_none());

    assert_eq!(view.begin_open("data.parquet", CLOCK), Saving::No);
    assert_eq!(view.status, "Opening data.parquet…");
    assert!(matches!(view.grid.loading, LoadState::Opening));
}

#[test]
fn rejects_stale_sql_results_and_keeps_sql_batches_bounded() {
    let rows = (PAGE_ROWS * 9 + 1) as usize;
    let mut app = App::new(grid_table(rows));
    app.run_sql("SELECT id FROM dataset");
    app.view.grid.generation.0 = app.view.grid.generation.0.saturating_add(1);
    app.poll_until_idle();
    assert_eq!(app.view.grid.rows, 0);

    app.run_sql("SELECT id FROM dataset");
    for _ in 0..9 {
        app.poll_until_idle();
        app.request_more();
    }
    app.poll_until_idle();
    let sql = app.shown();
    assert_eq!(sql.kind, QueryKind::Sql);
    assert!(sql.batches.len() <= MAX_FILTERED_BATCHES);
    assert!(sql.rows <= PAGE_ROWS * MAX_FILTERED_BATCHES as u64);
}

#[test]
fn cancels_sql_and_returns_to_the_source_grid() {
    let mut app = App::new(grid_table(8));
    app.run_sql("SELECT id FROM dataset");

    assert_eq!(app.view.cancel_sql(CLOCK), Saving::Silent);

    assert!(app.view.filtered.is_none());
    assert_eq!(app.view.grid.rows, 8);
    assert_eq!(app.view.grid.columns, 2);
    assert!(app.view.status.contains("cancelled"));
    assert!(!app.view.session.query_history[0].success);
    assert_eq!(app.view.cancel_sql(CLOCK), Saving::No);
}

#[test]
fn queries_need_text_a_dataset_and_a_runtime() {
    let mut app = App::without_dataset(SessionState::default());
    app.apply_filter("id");
    assert_eq!(
        app.view.filter_error.as_deref(),
        Some("Invalid filter: unsupported filter expression: id")
    );
    app.apply_filter("id == 1");
    assert_eq!(
        app.view.filter_error.as_deref(),
        Some("Open a dataset before applying a filter")
    );
    app.run_sql("  ");
    assert_eq!(
        app.view.sql_error.as_deref(),
        Some("Enter a SELECT query before running it")
    );
    assert!(app.view.session.query_history.is_empty());
    app.run_sql("SELECT * FROM dataset");
    assert_eq!(
        app.view.sql_error.as_deref(),
        Some("Open a dataset before running SQL")
    );
    assert_eq!(app.view.session.query_history.len(), 1);
    app.toggle_sort(0);
    assert_eq!(app.view.status, "Open a dataset before sorting");
    app.run_chart();
    assert_eq!(
        app.view.chart.error.as_deref(),
        Some("Chart setup: choose an X/value column")
    );
    app.view.chart.config.x_column = "id".to_string();
    app.view.chart.config.y_column = "id".to_string();
    app.run_chart();
    assert_eq!(
        app.view.chart.error.as_deref(),
        Some("Open a dataset before running a chart")
    );
    assert!(app.view.begin_profile(true).is_none());
    assert_eq!(
        app.view.profile.error.as_deref(),
        Some("Open a dataset before profiling")
    );
    assert!(app.view.export_plan().is_none());

    let mut app = App::new(grid_table(8));
    app.view.filter_input = "id == 1".to_string();
    assert!(
        app.view
            .apply_filter(false, &app.engine, CLOCK)
            .pending
            .is_none()
    );
    let unavailable = Some("Background runtime is unavailable");
    assert_eq!(app.view.filter_error.as_deref(), unavailable);
    app.view.sql_input = "SELECT * FROM dataset".to_string();
    assert!(app.view.run_sql(false, &app.engine, CLOCK).pending.is_none());
    assert_eq!(app.view.sql_error.as_deref(), unavailable);
    assert!(app.view.begin_profile(false).is_none());
    assert_eq!(app.view.profile.error.as_deref(), unavailable);
    assert!(matches!(
        app.view.begin_chart(false, &app.engine),
        ChartStart::Refused
    ));
    assert_eq!(app.view.chart.error.as_deref(), unavailable);
    let start = app.view.toggle_sort(0, false, &app.engine, CLOCK);
    assert!(start.pending.is_none());
    assert_eq!(app.view.status, "Background runtime is unavailable");
}

#[test]
fn queries_that_cannot_be_queued_are_refused() {
    let mut app = App::new(grid_table(8));
    app.view.filter_input = "id == 1".to_string();
    let pending = app
        .view
        .apply_filter(true, &app.engine, CLOCK)
        .pending
        .unwrap();
    app.view.query_refused(pending.purpose, "shut down", CLOCK);
    assert_eq!(
        app.view.filter_error.as_deref(),
        Some("Start filter: shut down")
    );
    assert_eq!(app.view.status, "Unable to start filter");

    app.view.sql_input = "SELECT * FROM dataset".to_string();
    let pending = app.view.run_sql(true, &app.engine, CLOCK).pending.unwrap();
    let saving = app.view.query_refused(pending.purpose, "shut down", CLOCK);
    assert_eq!(saving, Saving::Reported);
    assert_eq!(
        app.view.sql_error.as_deref(),
        Some("Start SQL query: shut down")
    );
    assert_eq!(app.view.status, "Unable to start SQL query");
    assert_eq!(app.view.session.query_history.len(), 1);

    let start = app.view.toggle_sort(1, true, &app.engine, CLOCK);
    app.view
        .query_refused(start.pending.unwrap().purpose, "shut down", CLOCK);
    assert_eq!(app.view.status, "Start sort: shut down");

    app.request_page(0);
    app.view.page_refused(0, "queue is full");
    assert_eq!(app.view.status, "queue page 0: queue is full");
    assert!(!app.view.grid.requested.contains(&0));
    app.view.chart_refused("queue is full");
    assert_eq!(
        app.view.chart.error.as_deref(),
        Some("Start chart query: queue is full")
    );
}

#[test]
fn sorts_grid_headers_and_toggles_direction_without_a_second_renderer() {
    let mut app = App::new(grid_table(8));

    app.toggle_sort(0);
    assert_eq!(app.view.status, "Sorting id ↑ (nulls last)");
    app.poll_until_idle();
    assert_eq!(app.shown().kind, QueryKind::Sort);
    assert_eq!(sort_heading(app.shown().sort, 0, "id"), "id ↑");
    assert_eq!(
        app.filtered_ids(),
        (0..8).map(|id| id.to_string()).collect::<Vec<_>>()
    );

    app.toggle_sort(0);
    app.poll_until_idle();
    assert_eq!(sort_heading(app.shown().sort, 0, "id"), "id ↓");
    assert_eq!(
        app.filtered_ids(),
        (0..8).rev().map(|id| id.to_string()).collect::<Vec<_>>()
    );
    app.toggle_sort(9);
    assert_eq!(app.view.status, "Sort column 9 is out of range");
}

#[test]
fn sorts_an_active_filter_and_rejects_stale_sorted_results() {
    let mut app = App::new(grid_table(8));
    app.apply_filter("id >= 2");
    let task = app.awaited();

    app.toggle_sort(0);
    assert_eq!(app.cancelled, vec![task]);
    app.poll_until_idle();
    assert_eq!(app.shown().kind, QueryKind::Filter);
    assert_eq!(app.filtered_ids(), vec!["2", "3", "4", "5", "6", "7"]);

    app.view.grid.generation.0 = app.view.grid.generation.0.saturating_add(1);
    app.toggle_sort(0);
    app.view.grid.generation.0 = app.view.grid.generation.0.saturating_add(1);
    app.poll_until_idle();
    assert_eq!(app.view.grid.rows, 0);
}

#[test]
fn opens_empty_and_replaces_active_document_work() {
    let mut app = App::without_dataset(SessionState::default());

    app.begin_open("first.parquet", grid_table(3));
    app.poll_open();
    assert_eq!(app.view.grid.rows, 3);
    assert_eq!(app.view.status, "Ready: 3 rows × 2 columns");
    app.load_page(0);
    assert_eq!(app.view.pages.len(), 1);
    app.view.workspace = Workspace::Sql;
    app.view.show_filter_controls = true;

    app.begin_open("second.parquet", grid_table(0));
    assert_eq!(app.view.pages.len(), 0);
    assert!(app.pending_pages.is_empty());
    assert_eq!(app.view.workspace, Workspace::Grid);
    assert!(!app.view.show_filter_controls);
    app.poll_open();
    assert_eq!(app.view.grid.rows, 0);
    assert!(matches!(app.view.grid.loading, LoadState::Ready));
    assert_eq!(app.view.status, "Opened empty dataset");

    app.begin_open("first.parquet", grid_table(3));
    app.poll_open();
    assert_eq!(app.view.grid.rows, 3);
    assert_eq!(
        app.view.session.recent_files,
        vec!["first.parquet", "second.parquet"]
    );
    assert_eq!(app.view.chart.config.x_column, "id");
    assert_eq!(app.view.chart.config.y_column, "name");
}

#[test]
fn reports_malformed_open_and_releases_its_task() {
    let mut app = App::new(grid_table(3));
    app.begin_open("malformed.parquet", grid_table(0));
    let generation = app.view.grid.generation;

    let stale = GenerationId(generation.0 - 1);
    app.view
        .opened(stale, OpenOutcome::Cancelled, &width_bits);
    assert_eq!(app.view.status, "Opening malformed.parquet…");
    let failed = OpenOutcome::OpenFailed("not parquet".to_string());
    let saving = app.view.opened(generation, failed, &width_bits);

    assert_eq!(saving, Saving::Silent);
    assert!(app.view.dataset.is_none());
    assert!(matches!(app.view.grid.loading, LoadState::Error(_)));
    assert!(app.view.status.contains("open file"));
    assert_eq!(app.view.status, "open file: not parquet");

    app.view
        .opened(generation, OpenOutcome::Cancelled, &width_bits);
    assert_eq!(app.view.status, "File open cancelled");
}

#[test]
fn inspector_selection_uses_cached_values_and_document_replacement_clears_it() {
    let mut app = App::new(grid_table(3));
    app.load_page(0);
    assert!(app.view.grid.select(1, 0));
    let detail = app.details().unwrap();
    assert_eq!(detail.name, "id");
    assert_eq!(detail.value, "1");

    app.begin_open("second.parquet", grid_table(0));
    assert!(app.view.grid.selection.is_none());
    assert!(app.details().is_none());
}

#[test]
fn inspector_handles_empty_datasets_without_a_selection() {
    let app = App::new(grid_table(0));

    assert_eq!(app.view.dataset.as_ref().unwrap().metadata.row_count, 0);
    assert!(app.details().is_none());
    assert!(
        selected_source_column(
            app.view.grid.selection,
            app.view.filtered.as_ref(),
            &app.view.column_layout
        )
        .is_none()
    );
}

#[test]
fn layout_changes_project_only_visible_columns_and_clear_page_state() {
    let mut app = App::new(grid_table(8));
    app.load_page(0);
    let columns =
        |app: &App| app.view.pages.get(0).unwrap().batches[0].table.num_columns();
    assert_eq!(columns(&app), 2);

    app.view.column_layout.set_hidden(0, true);
    app.view.layout_changed();
    assert_eq!(app.view.grid.columns, 1);
    assert_eq!(app.view.pages.len(), 0);
    assert!(app.view.grid.selection.is_none());

    app.load_page(0);
    assert_eq!(columns(&app), 1);
    assert_eq!(app.cell_text(0, 0).as_deref(), Some("alpha"));
}

#[test]
fn layout_persists_by_schema_without_retaining_grid_pages() {
    let mut app = App::new(grid_table(8));
    app.view.column_layout.move_source(1, -1);
    app.view.column_layout.set_hidden(0, true);
    app.view.column_layout.set_width(1, 260.0_f32.to_bits());
    let saving = app.view.save_column_layout(&vec![110, 260]);
    assert_eq!(saving, Saving::Reported);

    let reopened = App::with_session(grid_table(8), app.view.session);
    assert_eq!(reopened.view.column_layout.visible(), &[1]);
    assert_eq!(
        f32::from_bits(reopened.view.column_layout.width(1, 0.0_f32.to_bits())),
        260.0
    );
    assert_eq!(reopened.view.pages.len(), 0);
    assert!(reopened.pending_pages.is_empty());
}

#[test]
fn filtered_layout_maps_display_columns_without_reordering_batches() {
    let mut app = App::new(grid_table(8));
    app.apply_filter("id >= 0");
    app.poll_until_idle();
    app.view.column_layout.set_hidden(0, true);
    app.view.layout_changed();

    let filtered = app.shown();
    assert_eq!(filtered.display_columns, vec![(1, 1)]);
    assert_eq!(filtered.batches[0].table.num_columns(), 2);
    assert_eq!(app.filtered_text(0, 1).as_deref(), Some("alpha"));
    assert_eq!(
        visible_batch_columns(app.view.filtered.as_ref(), &app.view.column_layout),
        vec![1]
    );
}

#[test]
fn pages_leave_the_grid_oldest_first() {
    let mut app = App::new(grid_table(PAGE_ROWS as usize * 10));
    for index in 0..10 {
        app.load_page(index);
    }
    assert_eq!(app.view.pages.len(), 8);
    assert!(app.view.pages.get(1).is_none());
    assert!(!app.view.grid.loaded.contains(&1));
    assert_eq!(app.cell_text(PAGE_ROWS * 2 + 3, 0).unwrap(), "8195");
    assert!(app.cell_text(0, 0).is_none());
    assert_eq!(app.view.pages_for_row(PAGE_ROWS), vec![1, 2]);
    assert_eq!(app.view.pages_for_row(PAGE_ROWS + 1), vec![1]);
    assert_eq!(app.view.pages_for_row(PAGE_ROWS * 9), vec![9]);
    assert!(app.view.pages_for_row(PAGE_ROWS * 10).is_empty());
    let before = app.view.status.clone();
    let stale = PageResponse {
        task_id: TaskId(1),
        generation_id: GenerationId(99),
        outcome: PageOutcome::Cancelled,
    };
    app.view.page_answered(0, Some(stale));
    assert_eq!(app.view.status, before);
    assert!(app.view.request_page(0, true).is_some());
    assert!(app.view.request_page(0, true).is_none());
    let failed = PageResponse {
        task_id: TaskId(1),
        generation_id: app.view.grid.generation,
        outcome: PageOutcome::ReadFailed("disk".to_string()),
    };
    app.view.page_answered(0, Some(failed));
    assert_eq!(app.view.status, "load page 0: disk");
    assert!(!app.view.grid.requested.contains(&0));
    assert!(app.view.request_page(0, false).is_none());
    assert!(!app.view.grid.requested.contains(&0));
    app.view.page_answered(0, None);
    assert_eq!(app.view.status, "background page worker stopped");
}

#[test]
fn copies_the_selected_row_or_cells() {
    let mut app = App::new(grid_table(8));
    assert_eq!(app.copied(false), Err(CopyError::NoRow));
    assert!(app.view.grid.select(1, 0));
    assert_eq!(app.copied(true), Err(CopyError::NoRow));
    assert_eq!(
        CopyError::NoRow.message(true),
        "Selected row is no longer in the bounded grid window"
    );
    app.load_page(0);
    assert_eq!(app.copied(true).unwrap(), "1\tbeta");
    assert_eq!(app.copied(false).unwrap(), "1");
    assert!(app.view.grid.extend_selection(2, 1));
    assert_eq!(app.copied(false).unwrap(), "1\tbeta\n2\talpha");
    assert_eq!(app.copied(true).unwrap(), "2\talpha");

    app.view.grid.selection_range = Some(SelectionRange {
        anchor: (1, 0),
        focus: (1, 2),
    });
    assert_eq!(app.copied(false), Err(CopyError::NoColumn));
    app.view.grid.selection_range = Some(SelectionRange {
        anchor: (7, 1),
        focus: (9, 1),
    });
    assert_eq!(app.copied(false), Err(CopyError::Outside));

    let mut long = App::new(grid_table(PAGE_ROWS as usize * 4));
    for page in 0..4 {
        long.load_page(page);
    }
    assert!(long.view.grid.select(0, 1));
    assert!(long.view.grid.extend_selection(PAGE_ROWS * 4 - 1, 1));
    assert_eq!(long.copied(false), Err(CopyError::TooLong));
    assert_eq!(
        CopyError::TooLong.message(false),
        "Selection exceeds the 65536-byte clipboard limit"
    );
    assert_eq!(
        CopyError::TooLong.message(true),
        "Selected row exceeds the 65536-byte clipboard limit"
    );
}

#[test]
fn exports_are_numbered_and_reported() {
    let mut app = App::new(grid_table(8));
    let plan = app.view.export_plan().unwrap();
    assert_eq!(
        Planner::plan(&plan).unwrap().projected_columns(),
        &[0, 1]
    );
    let first = app.view.begin_export();
    app.view.export_started(ExportFormat::Csv);
    assert_eq!(app.view.status, "Exporting CSV…");
    let progress = ExportEvent::Progress {
        generation: first,
        rows: 3,
    };
    assert!(!app.view.export_polled(&progress, "out.csv"));
    assert_eq!(app.view.status, "Exporting: 3 rows written");

    let second = app.view.begin_export();
    assert_eq!(app.view.status, "Export cancelled");
    assert!(second.0 > first.0);
    app.view.export_started(ExportFormat::Parquet);
    let stale = ExportEvent::Finished {
        generation: first,
        rows: 8,
    };
    assert!(!app.view.export_polled(&stale, "out.csv"));
    assert!(app.view.exporting);
    let finished = ExportEvent::Finished {
        generation: second,
        rows: 8,
    };
    assert!(app.view.export_polled(&finished, "out.parquet"));
    assert!(!app.view.exporting);
    assert_eq!(
        app.view.status,
        "Export complete: 8 rows written to out.parquet"
    );
}

// ---------------------------------------------------------------------------
// Charts, profiles and exports of a query
// ---------------------------------------------------------------------------

fn locate(value: u64, min: u64, max: u64, bins: usize) -> usize {
    let (value, min, max) = (
        f64::from_bits(value),
        f64::from_bits(min),
        f64::from_bits(max),
    );
    ((value - min) / ((max - min) / bins as f64)) as usize
}

fn edge(min: u64, max: u64, bins: usize, index: usize) -> u64 {
    let (min, max) = (f64::from_bits(min), f64::from_bits(max));
    (min + (max - min) / bins as f64 * index as f64).to_bits()
}

fn chart_numbers(array: &ArrayRef) -> Vec<Option<u64>> {
    match data_type_of(array.data_type()) {
        DataType::Int32 => ints(array)
            .iter()
            .map(|value| value.map(|value| f64::from(value).to_bits()))
            .collect(),
        _ => vec![None; array.len()],
    }
}

fn chart_input(
    accumulator: &ChartAccumulator,
    kind: ChartKind,
    batch: &Batch,
) -> (Vec<Field>, ChartInput) {
    let fields = schema_of(&batch.table.schema()).fields;
    let column = |index: usize| batch.table.column(index);
    let (x, y) = match accumulator.columns(&fields) {
        Ok((x, y)) => (Some(column(x)), y.map(column)),
        Err(_) => (None, None),
    };
    let numbers = |array: Option<&ArrayRef>| array.map(chart_numbers).unwrap_or_default();
    let input = match kind {
        ChartKind::Line | ChartKind::Scatter => ChartInput::Points {
            x: numbers(x),
            y: numbers(y),
        },
        ChartKind::Bar => ChartInput::Bars {
            labels: x.map_or(Vec::new(), |array| texts(array).iter().map(owned).collect()),
            values: numbers(y),
        },
        ChartKind::Histogram => ChartInput::Values(numbers(x)),
    };
    (fields, input)
}

fn chart_config(kind: ChartKind, x: &str, y: &str, point_limit: usize, bins: usize) -> ChartConfig {
    ChartConfig {
        kind,
        x_column: x.to_string(),
        y_column: y.to_string(),
        point_limit,
        bins,
        title: String::new(),
    }
}

fn charting(table: Table, config: ChartConfig) -> App {
    let mut app = App::new(table);
    app.view.chart.config = config;
    app.view.chart.sql_input = "SELECT id FROM dataset".to_string();
    app
}

#[test]
fn charts_execute_sql_through_the_existing_runtime_and_reduce_results() {
    let mut app = charting(
        grid_table(32),
        chart_config(ChartKind::Line, "id", "id", 4, 4),
    );
    app.run_chart();
    assert_eq!(app.view.chart.status, "Chart query running…");
    app.poll_chart();

    let model = app.view.chart.model.as_ref().unwrap();
    assert_eq!(model.kind, ChartKind::Line);
    assert_eq!(model.input_rows, 32);
    assert!(model.reduced);
    assert_eq!(model.output_len(), 4);
    assert!(app.view.chart.error.is_none());
    assert!(app.view.chart.status.contains("query result"));
}

#[test]
fn charts_support_bar_scatter_and_histogram_query_results() {
    let mut app = App::new(grid_table(8));
    for (kind, sql, x, y) in [
        (ChartKind::Bar, "SELECT name, id FROM dataset", "name", "id"),
        (ChartKind::Scatter, "SELECT id FROM dataset", "id", "id"),
        (ChartKind::Histogram, "SELECT id FROM dataset", "id", ""),
    ] {
        app.view.chart.config = chart_config(kind, x, y, 8, 4);
        app.view.chart.sql_input = sql.to_string();
        app.run_chart();
        app.poll_chart();
        assert!(app.view.chart.error.is_none(), "{kind:?}");
        assert!(
            app.view
                .chart
                .model
                .as_ref()
                .is_some_and(|model| !model.is_empty())
        );
    }
}

#[test]
fn chart_current_result_and_errors_are_bounded_and_clear() {
    let mut app = charting(
        grid_table(8),
        chart_config(ChartKind::Scatter, "id", "id", 2, 2),
    );
    app.view.chart.source = ChartSource::CurrentResult;
    app.run_chart();
    assert_eq!(
        app.view.chart.error.as_deref(),
        Some("Chart data: run a filter, SQL query, or sort first")
    );
    app.run_sql("SELECT id FROM dataset LIMIT 3");
    app.poll_until_idle();

    app.run_chart();
    assert_eq!(app.view.chart.model.as_ref().unwrap().input_rows, 3);
    assert!(app.view.chart.model.as_ref().unwrap().reduced);
    assert!(
        app.view
            .chart
            .status
            .contains("3 values from current bounded result window")
    );

    app.view.chart.source = ChartSource::Sql;
    app.view.chart.config.x_column = "missing".to_string();
    app.run_chart();
    app.poll_chart();
    assert!(app.view.chart.model.is_none());
    assert!(
        app.view
            .chart
            .error
            .as_deref()
            .is_some_and(|error| error.contains("missing"))
    );
    app.view.chart.source = ChartSource::CurrentResult;
    app.run_chart();
    assert!(
        app.view
            .chart
            .error
            .as_deref()
            .is_some_and(|error| error.starts_with("Chart data: ") && error.contains("missing"))
    );
    app.view.chart.source = ChartSource::Sql;
    app.view.chart.sql_input = "SELECT".to_string();
    app.run_chart();
    assert!(
        app.view
            .chart
            .error
            .as_deref()
            .is_some_and(|error| error.starts_with("Chart SQL: "))
    );
}

#[test]
fn chart_replacement_cancellation_and_stale_results_are_safe() {
    let mut app = charting(
        grid_table(8),
        chart_config(ChartKind::Line, "id", "id", 8, 2),
    );
    app.run_chart();

    app.view.chart.sql_input = "SELECT id FROM dataset WHERE id = 1".to_string();
    app.run_chart();
    app.poll_chart();
    assert_eq!(app.view.chart.model.as_ref().unwrap().input_rows, 1);

    app.view.chart.sql_input = "SELECT id FROM dataset".to_string();
    app.run_chart();
    app.view.chart.generation.0 = app.view.chart.generation.0.saturating_add(1);
    app.poll_chart();
    assert!(app.view.chart.model.is_none());
    assert!(app.view.chart.status.contains("stale"));

    app.run_chart();
    app.view.chart.stop();
    assert_eq!(app.view.chart.status, "Chart query cancelled");
    assert!(!app.view.chart.loading());
}

#[test]
fn chart_surfaces_runtime_read_failures() {
    let mut app = charting(
        grid_table(8),
        chart_config(ChartKind::Line, "id", "id", 8, 2),
    );
    app.table.broken = true;
    app.run_chart();
    app.poll_chart();

    assert!(app.view.chart.model.is_none());
    assert!(
        app.view
            .chart
            .error
            .as_deref()
            .is_some_and(|error| error.contains("Chart query"))
    );
}

#[test]
fn chart_sampling_stops_at_the_configured_bounded_input_window() {
    let rows = MAX_INPUT_ROWS + PAGE_ROWS as usize;
    let mut app = charting(
        grid_table(rows),
        chart_config(ChartKind::Line, "id", "id", DEFAULT_POINT_LIMIT, 2),
    );
    app.run_chart();
    app.poll_chart();

    let model = app.view.chart.model.as_ref().unwrap();
    assert_eq!(model.input_rows, MAX_INPUT_ROWS);
    assert!(model.input_capped);
    assert!(model.output_len() <= DEFAULT_POINT_LIMIT);
}

fn sum_of(sum: u64, number: u64) -> u64 {
    (f64::from_bits(sum) + f64::from_bits(number)).to_bits()
}

fn ratio(sum: u64, count: u64) -> u64 {
    (sum as f64 / count as f64).to_bits()
}

fn profile_column(table: &mut Table, number: usize) -> Result<ColumnProfile, String> {
    let field = &table.source.schema().fields[number];
    let (name, data_type) = (field.name.clone(), field.data_type);
    let mut accumulator = ProfileAccumulator::new(number, name, data_type, None)
        .map_err(|error| error.message("Int32"))?;
    let plan = LogicalPlan::scan(table.metadata()).project(vec![number]);
    let mut execution = run(table, &plan, 1);
    while let Some(batch) = execution.next_batch().map_err(|error| error.message())? {
        let values: Vec<ProfileValue> = ints(batch.batch.table.column(0))
            .iter()
            .map(|value| match value {
                Some(value) => ProfileValue::Number {
                    bits: f64::from(value).to_bits(),
                    text: value.to_string(),
                },
                None => ProfileValue::Null,
            })
            .collect();
        accumulator
            .push_batch(data_type, &values, sum_of)
            .map_err(|error| error.message("Int32"))?;
    }
    Ok(accumulator.finish(divide, ratio, locate, edge))
}

#[test]
fn profiles_selected_columns_through_the_query_runtime_path() {
    let mut app = App::new(grid_table(8));
    let generation = app.run_profile(0);
    assert_eq!(app.view.profile.status, "Profiling column…");
    let profile = profile_column(&mut app.table, 0);
    app.view
        .profile
        .apply_event(profile_event(profile, false, generation));

    let profile = app.view.profile.result.as_ref().unwrap();
    assert_eq!(profile.column, 0);
    assert_eq!(profile.row_count, 8);
    assert_eq!(profile.null_count, 0);
    assert_eq!(profile.distinct_count, 8);
    assert!(profile.distribution.is_some());
}

#[test]
fn stale_profile_results_are_ignored_after_replacement() {
    let mut app = App::new(grid_table(8));
    let generation = app.run_profile(0);
    app.view.profile.generation = GenerationId(app.view.profile.generation.0.saturating_add(1));
    let profile = profile_column(&mut app.table, 0);
    app.view
        .profile
        .apply_event(profile_event(profile, false, generation));

    assert!(app.view.profile.result.is_none());
    assert!(app.view.profile.status.contains("stale"));
}

#[test]
fn cancellation_returns_a_typed_cancelled_event() {
    let mut table = grid_table(8);
    let profile = profile_column(&mut table, 0);
    assert!(matches!(
        profile_event(profile, true, GenerationId(9)),
        ProfileEvent::Cancelled {
            generation: GenerationId(9)
        }
    ));
}

fn export_table(values: Vec<Option<&str>>) -> Table {
    table(
        vec![
            column("id", arrow_schema::DataType::Int32, false),
            column("text", arrow_schema::DataType::Utf8, true),
        ],
        vec![
            Arc::new(Int32Array::from_iter_values(0..values.len() as i32)),
            Arc::new(StringArray::from(values)),
        ],
        2,
    )
}

fn csv_of(batch: &Batch) -> String {
    let columns = batch.table.num_columns();
    let rows: Vec<Vec<CellValue>> = (0..batch.table.num_rows())
        .map(|row| {
            (0..columns)
                .map(|column| cell_of(batch, row, column))
                .collect()
        })
        .collect();
    csv_rows(&rows).unwrap()
}

fn export_csv(table: &mut Table, plan: &LogicalPlan) -> (String, u64) {
    let physical = Planner::plan(plan).unwrap();
    let fields: Vec<Field> = physical
        .projected_columns()
        .iter()
        .map(|column| {
            let field = &physical.source.schema.fields[*column];
            Field {
                name: field.name.clone(),
                data_type: field.data_type,
                type_text: field.type_text.clone(),
                nullable: field.nullable,
                children: Vec::new(),
            }
        })
        .collect();
    let mut output = csv_header(&fields).unwrap();
    let mut rows = 0;
    let mut execution = run(table, plan, 3);
    while let Some(batch) = execution.next_batch().unwrap() {
        rows = rows_written(rows, batch.batch.table.num_rows());
        output.push_str(&csv_of(&batch.batch));
    }
    (output, rows)
}

#[test]
fn writes_empty_query_headers_and_filtered_results() {
    let mut table = export_table(vec![Some("a"), Some("b"), Some("c")]);
    let plan = LogicalPlan::scan(table.metadata()).filter(Filter::parse("id > 9").unwrap());
    let (output, rows) = export_csv(&mut table, &plan);
    assert!(matches!(
        export_event(Ok(rows), false, GenerationId(3)),
        ExportEvent::Finished { rows: 0, .. }
    ));
    assert_eq!(output, "id,text\n");
}

#[test]
fn exports_sql_plans_and_reports_bounded_progress() {
    let mut table = export_table(vec![Some("a"), Some("b"), Some("c")]);
    let plan = SqlAst::parse("SELECT text FROM dataset WHERE id >= 1")
        .unwrap()
        .to_logical_plan(table.metadata())
        .unwrap();
    let (output, rows) = export_csv(&mut table, &plan);
    assert!(matches!(
        export_event(Ok(rows), false, GenerationId(7)),
        ExportEvent::Finished { rows: 2, .. }
    ));
    assert_eq!(output, "text\nb\nc\n");
}

#[test]
fn exports_a_selected_batch_without_replaying_the_dataset() {
    let table = table(
        vec![column("text", arrow_schema::DataType::Utf8, true)],
        vec![Arc::new(StringArray::from(vec![Some("picked")]))],
        2,
    );
    let mut output = csv_header(&table.source.schema().fields).unwrap();
    output.push_str(&csv_of(&Batch { table: table.data }));
    assert_eq!(output, "text\npicked\n");
}

#[test]
fn the_selected_row_is_exported_as_it_is_shown() {
    let mut app = App::new(grid_table(8));
    assert!(app.view.selected_row().is_none());
    app.view.grid.selection = Some((3, 0));
    assert!(app.view.selected_row().is_none());
    app.load_page(0);
    let row = app.view.selected_row().unwrap().unwrap();
    assert_eq!(csv_of(&row), "3,beta\n");

    app.view.column_layout.move_source(1, -1);
    app.view.column_layout.set_hidden(0, true);
    let place = app.view.place_of_row(3).unwrap();
    assert_eq!((place, place.offset()), (RowPlace::Page(0, 0, 3), 3));
    let row = app.view.selected_row().unwrap().unwrap();
    assert_eq!(row.table.num_columns(), 1);
    assert_eq!(csv_of(&row), "3\n");

    let mut app = App::new(grid_table(8));
    app.run_sql("SELECT name, id FROM dataset WHERE id >= 5");
    app.poll_until_idle();
    app.view.grid.selection = Some((1, 0));
    assert_eq!(app.view.place_of_row(1), Some(RowPlace::Result(0, 1)));
    let row = app.view.selected_row().unwrap().unwrap();
    let shown = app.shown().display_columns.clone();
    let expected: Vec<&str> =
        shown.iter().map(|(source, _)| if *source == 0 { "6" } else { "alpha" }).collect();
    assert_eq!(csv_of(&row), format!("{}\n", expected.join(",")));
    assert!(app.view.batch_at(RowPlace::Result(9, 0)).is_none());
    app.view.filtered.as_mut().unwrap().display_columns = vec![(0, 7)];
    assert!(matches!(
        app.view.selected_row(),
        Some(Err(BatchError::Refused(_)))
    ));
    app.view.filtered.as_mut().unwrap().display_columns = vec![(1, 4), (0, 2), (1, 5)];
    let grid = app.view.filtered.as_ref();
    assert_eq!(batch_column_of(grid, &app.view.column_layout, 1), Some(4));
    assert_eq!(batch_column_of(grid, &app.view.column_layout, 0), Some(2));
    assert_eq!(batch_column_of(grid, &app.view.column_layout, 3), None);
    app.view.column_layout.set_hidden(0, true);
    assert_eq!(batch_column_of(None, &app.view.column_layout, 1), Some(0));
    assert_eq!(batch_column_of(None, &app.view.column_layout, 0), None);
}

#[test]
fn decoded_columns_are_put_into_the_order_that_was_asked_for() {
    let table = export_table(vec![Some("a"), None]);
    let stored = Batch {
        table: table.data.clone(),
    };
    let swapped = Projection::columns(vec![1, 0], 2).unwrap();
    let batch = swapped.reorder(&stored).unwrap();
    assert_eq!(batch.table.schema().field(0).name(), "text");
    assert_eq!(csv_of(&batch), "a,0\n,1\n");
    assert_eq!(csv_of(&swapped.reorder_rows(&stored).unwrap().unwrap()), "a,0\n,1\n");
    let none = Batch {
        table: table.data.slice(0, 0),
    };
    assert!(swapped.reorder_rows(&none).unwrap().is_none());
    let one = Projection::columns(vec![1], 2).unwrap();
    assert!(matches!(one.reorder(&stored), Err(ReadError::Rows)));
    assert!(matches!(one.reorder_rows(&stored), Err(ReadError::Rows)));
    let wrong = ArrowSchema::new(vec![
        column("id", arrow_schema::DataType::Int32, false),
        column("text", arrow_schema::DataType::Utf8, false),
    ]);
    let columns = table.data.columns().to_vec();
    assert!(RecordBatch::try_new(Arc::new(wrong), columns).is_err());
}

#[test]
fn aggregates_know_their_columns() {
    let table = export_table(vec![Some("a"), Some("b")]);
    let spec = AggregateSpec::grouped(1, vec![AggregateExpr::count_all(), AggregateExpr::sum(0)]);
    let read = table
        .metadata()
        .plan_aggregated(None, &spec.unwrap(), GroupBudget::default())
        .unwrap();
    assert_eq!(read.groups.input_types, vec![None, Some(DataType::Int32)]);
    assert_eq!(read.groups.input_names, vec![None, Some("id".to_string())]);
    let divide = |sum: u64, _count: u64| sum;
    let fields = read.groups.finish(&divide).unwrap();
    let names: Vec<_> = fields.iter().map(|field| field.name.as_str()).collect();
    assert_eq!(names, vec!["text", "COUNT(*)", "SUM(id)"]);
    assert_eq!(fields[0].data_type, DataType::Utf8);
    assert_eq!(written(&fields).table.num_rows(), 0);
    let spec = AggregateSpec::new(vec![AggregateExpr::count_all(), AggregateExpr::sum(0)]);
    let ids = Filter::parse("id > 9").unwrap();
    let read = table
        .metadata()
        .plan_aggregated(Some(&ids.expression), &spec.unwrap(), GroupBudget::default())
        .unwrap();
    let fields = read.groups.finish(&divide).unwrap();
    assert!(matches!(&fields[0].column, OutputColumn::UInt64(values) if *values == vec![Some(0)]));
    assert!(matches!(&fields[1].column, OutputColumn::Int64(values) if *values == vec![None]));
}

// ---------------------------------------------------------------------------
// Background reads
// ---------------------------------------------------------------------------

#[test]
fn executes_page_reads_and_delivers_projected_pages() {
    let mut table = small_table();
    let plan = LogicalPlan::scan(table.metadata()).project(vec![1]);
    let mut execution = run(&mut table, &plan, 1);
    let batch = execution.next_batch().unwrap().unwrap();
    assert_eq!(batch.task_id, TaskId(1));
    assert_eq!(batch.generation_id, GenerationId(1));
    assert_eq!(ids(&batch.batch.table), &[0, 10, 20, 30, 40, 50]);
}

#[test]
fn preserves_generations_for_stale_result_handling() {
    let response = PageResponse {
        task_id: TaskId(1),
        generation_id: GenerationId(2),
        outcome: PageOutcome::Cancelled,
    };
    assert!(response.is_stale_for(GenerationId(3)));
    assert!(!response.is_stale_for(GenerationId(2)));
    let opened = OpenResponse {
        task_id: TaskId(1),
        generation_id: GenerationId(2),
        outcome: OpenOutcome::Cancelled,
    };
    assert!(opened.is_stale_for(GenerationId(3)));
    assert!(!opened.is_stale_for(GenerationId(2)));
}

#[test]
fn opens_sources_on_the_worker_pool() {
    let table = small_table();
    let source = Arc::new(ParquetSource::new(
        "data.parquet".to_string(),
        table.metadata(),
    ));
    let outcome = open_outcome(Ok(Arc::clone(&source)), false);
    let OpenOutcome::Opened(opened) = outcome else {
        panic!("source open did not succeed");
    };
    assert_eq!(opened.row_count(), 6);
    assert!(matches!(
        open_outcome(Ok(source), true),
        OpenOutcome::Cancelled
    ));
    assert!(matches!(
        open_outcome(Err("bad".to_string()), true),
        OpenOutcome::OpenFailed(_)
    ));
}

#[test]
fn reads_that_come_too_late_are_dropped() {
    assert!(still_wanted(false, false));
    assert!(!still_wanted(true, false));
    assert!(!still_wanted(false, true));
    assert!(matches!(
        page_outcome(Ok(PageOutcome::Batches(Vec::new())), true),
        PageOutcome::Cancelled
    ));
    assert!(matches!(
        page_outcome(Err("x".to_string()), true),
        PageOutcome::ReadFailed(_)
    ));
}

#[test]
fn requests_are_numbered_one_after_the_other() {
    let mut ids = TaskIds::new();
    assert_eq!(ids.reserve(true), Ok(TaskId(1)));
    assert_eq!(ids.reserve(false), Err(SubmitError::Shutdown));
    assert_eq!(ids.reserve(true), Ok(TaskId(2)));
    assert_eq!(
        SubmitError::Shutdown.message(),
        "runtime has shut down"
    );
    assert_eq!(
        SubmitError::TaskIdExhausted.message(),
        "runtime task IDs are exhausted"
    );
    let config = |worker_count, queue_capacity| RuntimeConfig {
        worker_count,
        queue_capacity,
    };
    assert!(config(1, 1).validate().is_ok());
    assert!(matches!(
        config(0, 1).validate(),
        Err(RuntimeConfigError::ZeroWorkers)
    ));
    assert!(matches!(
        config(1, 0).validate(),
        Err(RuntimeConfigError::ZeroQueueCapacity)
    ));
    assert_eq!(RuntimeConfig::for_cores(Some(4)), config(4, 32));
    assert_eq!(RuntimeConfig::for_cores(None), config(1, 32));
}

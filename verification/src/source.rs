//! A dataset as the query layer sees it: its metadata, its page cache, and the
//! checks and plans of its reads.

use std::sync::Arc;

use crate::aggregate::{AggregateExpr, AggregateFunction, AggregateSpec};
use crate::batch::Batch;
use crate::cache::{
    counted, evicted, holds_key, total_bytes, without_key, PageCache, PageCacheLimits,
    PageCacheStats, DEFAULT_MAX_BYTES, DEFAULT_MAX_PAGES,
};
use crate::filter::{
    group_can_match, named_column, type_fault, FilterErrorModel, FilterExpr, FilterError,
    FilterModel, Statistics,
};
use crate::metadata::{DatasetMetadata, RowGroupInfo};
use crate::page::{page_len, page_start, same_page, size_sum, DataPage, PageKey, RowWindow};
use crate::projection::Projection;
use crate::schema::{DataType, Field, Schema};
use crate::sort::SortSpec;
use crate::sorted::saturated;
use crate::text::{cat, cat3, decimal, decimal_text};
use crate::window::{
    add_missing, law_only_needed_columns_are_added, lemma_with_missing, with_missing,
};
use vstd::prelude::*;

verus! {

/// How many rows are decoded at a time.
pub const BATCH_SIZE: usize = 4096;

/// A window of one projection of a dataset.
#[derive(Debug, PartialEq, Eq)]
pub struct FetchRequest {
    pub first_row: u64,
    pub row_count: usize,
    pub projection: Projection,
}

/// Why an aggregate or a sort cannot be computed over a dataset. Columns are
/// given by their index.
#[derive(Clone, Copy, Debug, PartialEq, Eq, Structural)]
pub enum ValidationError {
    GroupOutOfRange(usize),
    GroupType(usize),
    AggregateOutOfRange(usize),
    AggregateType(AggregateFunction, usize),
    OnlyCountAll,
    SortOutOfRange(usize),
    SortType(usize),
}

/// The name of a function in a message.
pub open spec fn function_label(function: AggregateFunction) -> Seq<char> {
    match function {
        AggregateFunction::Count => "Count"@,
        AggregateFunction::Sum => "Sum"@,
        AggregateFunction::Avg => "Avg"@,
        AggregateFunction::Min => "Min"@,
        AggregateFunction::Max => "Max"@,
    }
}

/// The name of the type of a column in a message.
pub open spec fn type_text_of(fields: Seq<Field>, column: int) -> Seq<char> {
    if 0 <= column < fields.len() {
        fields[column].type_text@
    } else {
        ""@
    }
}

fn type_text<'a>(schema: &'a Schema, column: usize) -> (text: &'a str)
    ensures
        text@ == type_text_of(schema.fields@, column as int),
{
    if column < schema.fields.len() {
        schema.fields[column].type_text.as_str()
    } else {
        ""
    }
}

fn label_of(function: AggregateFunction) -> (label: &'static str)
    ensures
        label@ == function_label(function),
{
    match function {
        AggregateFunction::Count => "Count",
        AggregateFunction::Sum => "Sum",
        AggregateFunction::Avg => "Avg",
        AggregateFunction::Min => "Min",
        AggregateFunction::Max => "Max",
    }
}

impl ValidationError {
    /// The message that the user sees.
    pub open spec fn message_text(self, fields: Seq<Field>) -> Seq<char> {
        match self {
            ValidationError::GroupOutOfRange(column) => "group column "@ + decimal(column as nat)
                + " out of range"@,
            ValidationError::GroupType(column) => "GROUP BY is not supported for "@ + type_text_of(
                fields,
                column as int,
            ) + " columns"@,
            ValidationError::AggregateOutOfRange(column) => "aggregate column "@ + decimal(
                column as nat,
            ) + " out of range"@,
            ValidationError::AggregateType(function, column) => function_label(function)
                + " is not supported for "@ + type_text_of(fields, column as int) + " columns"@,
            ValidationError::OnlyCountAll => "only COUNT may use *"@,
            ValidationError::SortOutOfRange(column) => "sort column "@ + decimal(column as nat)
                + " out of range"@,
            ValidationError::SortType(column) => "sorting is not supported for "@ + type_text_of(
                fields,
                column as int,
            ) + " columns"@,
        }
    }

    /// The message that the user sees.
    pub fn message(&self, schema: &Schema) -> (text: String)
        ensures
            text@ == self.message_text(schema.fields@),
    {
        match self {
            ValidationError::GroupOutOfRange(column) => cat3(
                "group column ",
                decimal_text(*column as u64).as_str(),
                " out of range",
            ),
            ValidationError::GroupType(column) => cat3(
                "GROUP BY is not supported for ",
                type_text(schema, *column),
                " columns",
            ),
            ValidationError::AggregateOutOfRange(column) => cat3(
                "aggregate column ",
                decimal_text(*column as u64).as_str(),
                " out of range",
            ),
            ValidationError::AggregateType(function, column) => {
                let refusal = cat(label_of(*function), " is not supported for ");
                cat3(refusal.as_str(), type_text(schema, *column), " columns")
            },
            ValidationError::OnlyCountAll => "only COUNT may use *".to_owned(),
            ValidationError::SortOutOfRange(column) => cat3(
                "sort column ",
                decimal_text(*column as u64).as_str(),
                " out of range",
            ),
            ValidationError::SortType(column) => cat3(
                "sorting is not supported for ",
                type_text(schema, *column),
                " columns",
            ),
        }
    }
}

/// What is wrong with one expression over these columns.
pub open spec fn expression_fault(expression: AggregateExpr, fields: Seq<Field>) -> Option<
    ValidationError,
> {
    match expression.input() {
        None => if expression.operation() == AggregateFunction::Count {
            None
        } else {
            Some(ValidationError::OnlyCountAll)
        },
        Some(column) => if column >= fields.len() {
            Some(ValidationError::AggregateOutOfRange(column))
        } else {
            match expression.operation() {
                AggregateFunction::Count => None,
                AggregateFunction::Sum | AggregateFunction::Avg => if fields[column as int].data_type.numeric() {
                    None
                } else {
                    Some(ValidationError::AggregateType(expression.operation(), column))
                },
                AggregateFunction::Min | AggregateFunction::Max => if fields[column as int].data_type.comparable() {
                    None
                } else {
                    Some(ValidationError::AggregateType(expression.operation(), column))
                },
            }
        },
    }
}

/// The first thing wrong with these expressions.
pub open spec fn expressions_fault(expressions: Seq<AggregateExpr>, fields: Seq<Field>) -> Option<
    ValidationError,
>
    decreases expressions.len(),
{
    if expressions.len() == 0 {
        None
    } else if let Some(error) = expressions_fault(expressions.drop_last(), fields) {
        Some(error)
    } else {
        expression_fault(expressions.last(), fields)
    }
}

/// The first thing wrong with an aggregate over these columns.
pub open spec fn aggregate_fault(aggregate: AggregateSpec, fields: Seq<Field>) -> Option<
    ValidationError,
> {
    match aggregate.grouping() {
        Some(column) => if column >= fields.len() {
            Some(ValidationError::GroupOutOfRange(column))
        } else if !fields[column as int].data_type.comparable() {
            Some(ValidationError::GroupType(column))
        } else {
            expressions_fault(aggregate.listed(), fields)
        },
        None => expressions_fault(aggregate.listed(), fields),
    }
}

/// What is wrong with a sort over these columns.
pub open spec fn sort_fault(sort: SortSpec, fields: Seq<Field>) -> Option<ValidationError> {
    if sort.column >= fields.len() {
        Some(ValidationError::SortOutOfRange(sort.column))
    } else if !fields[sort.column as int].data_type.sortable() {
        Some(ValidationError::SortType(sort.column))
    } else {
        None
    }
}

/// What is wrong with a filter over these columns.
pub open spec fn filter_fault(filter: FilterModel, schema: Schema) -> Option<FilterErrorModel> {
    match named_column(filter.column, schema.names()) {
        Ok(index) => type_fault(
            filter.op,
            filter.value,
            schema.fields@[index].data_type,
            schema.fields@[index].type_text@,
        ),
        Err(error) => Some(error),
    }
}

proof fn lemma_expressions_fault_prefix(
    expressions: Seq<AggregateExpr>,
    fields: Seq<Field>,
    k: int,
)
    requires
        0 <= k <= expressions.len(),
        expressions_fault(expressions.take(k), fields) is Some,
    ensures
        expressions_fault(expressions, fields) == expressions_fault(expressions.take(k), fields),
    decreases expressions.len() - k,
{
    if k < expressions.len() {
        assert(expressions.take(k + 1).drop_last() =~= expressions.take(k));
        lemma_expressions_fault_prefix(expressions, fields, k + 1);
    } else {
        assert(expressions.take(k) =~= expressions);
    }
}

/// The columns that an aggregate reads: the grouping column, the inputs of the
/// expressions, and the column of the filter.
pub open spec fn aggregate_columns(
    aggregate: AggregateSpec,
    filter_column: Option<usize>,
) -> Seq<usize> {
    let group = match aggregate.grouping() {
        Some(column) => seq![column],
        None => Seq::empty(),
    };
    let inputs = with_missing(group, input_columns(aggregate.listed()));
    match filter_column {
        Some(column) => with_missing(inputs, seq![column]),
        None => inputs,
    }
}

/// The columns that the expressions read.
pub open spec fn input_columns(expressions: Seq<AggregateExpr>) -> Seq<usize>
    decreases expressions.len(),
{
    if expressions.len() == 0 {
        Seq::empty()
    } else {
        match expressions.last().input() {
            Some(column) => input_columns(expressions.drop_last()).push(column),
            None => input_columns(expressions.drop_last()),
        }
    }
}

impl DatasetMetadata {
    /// Whether the filter can be applied to this dataset.
    pub fn validate_filter(&self, filter: &FilterExpr) -> (result: Result<(), FilterError>)
        ensures
            match result {
                Ok(_) => filter_fault(filter@, self.schema) is None,
                Err(error) => filter_fault(filter@, self.schema) == Some(error@),
            },
    {
        filter.validate_schema(&self.schema)
    }

    /// Whether the aggregate can be computed over this dataset.
    pub fn validate_aggregate(&self, aggregate: &AggregateSpec) -> (result: Result<
        (),
        ValidationError,
    >)
        ensures
            match result {
                Ok(_) => aggregate_fault(*aggregate, self.schema.fields@) is None,
                Err(error) => aggregate_fault(*aggregate, self.schema.fields@) == Some(error),
            },
    {
        let fields = &self.schema.fields;
        if let Some(column) = aggregate.group_by() {
            if column >= fields.len() {
                return Err(ValidationError::GroupOutOfRange(column));
            }
            if !fields[column].data_type.supports_grouping() {
                return Err(ValidationError::GroupType(column));
            }
        }
        let expressions = aggregate.expressions();
        let ghost listed = aggregate.listed();
        let mut i: usize = 0;
        assert(listed.take(0) =~= Seq::<AggregateExpr>::empty());
        while i < expressions.len()
            invariant
                listed == expressions@,
                listed == aggregate.listed(),
                fields@ == self.schema.fields@,
                i <= listed.len(),
                aggregate_fault(*aggregate, self.schema.fields@) == expressions_fault(
                    listed,
                    self.schema.fields@,
                ),
                expressions_fault(listed.take(i as int), self.schema.fields@) is None,
            decreases listed.len() - i,
        {
            let expression: AggregateExpr = expressions[i];
            assert(listed.take(i + 1).drop_last() =~= listed.take(i as int));
            assert(listed.take(i + 1).last() == expression);
            match check_expression(expression, fields) {
                Ok(_) => {},
                Err(error) => {
                    proof {
                        lemma_expressions_fault_prefix(listed, self.schema.fields@, i + 1);
                    }
                    return Err(error);
                },
            }
            i = i + 1;
        }
        assert(listed.take(i as int) =~= listed);
        Ok(())
    }

    /// Whether the dataset can be sorted this way.
    pub fn validate_sort(&self, sort: SortSpec) -> (result: Result<(), ValidationError>)
        ensures
            match result {
                Ok(_) => sort_fault(sort, self.schema.fields@) is None,
                Err(error) => sort_fault(sort, self.schema.fields@) == Some(error),
            },
    {
        let fields = &self.schema.fields;
        if sort.column >= fields.len() {
            Err(ValidationError::SortOutOfRange(sort.column))
        } else if !fields[sort.column].data_type.supports_sorting() {
            Err(ValidationError::SortType(sort.column))
        } else {
            Ok(())
        }
    }
}

/// A page that is cached, or what to read for it.
#[derive(Debug)]
pub enum PageRead {
    Cached(DataPage),
    Missing(PageKey, RowWindow),
}

/// An opened dataset.
#[derive(Debug)]
pub struct ParquetSource {
    pub path: String,
    pub dataset_metadata: Arc<DatasetMetadata>,
    pub cache: PageCache,
}

/// What becomes of the cached pages when a page is read: it takes the place of the one
/// with its key, and the pages used longest ago make room for it. One that is too large
/// is not kept, and nothing changes where the bytes can no longer be counted.
pub open spec fn keeps_page(before: PageCache, after: PageCache, page: DataPage) -> bool {
    &&& after.bounds() == before.bounds()
    &&& after.hit_count() == before.hit_count()
    &&& after.miss_count() == before.miss_count()
    &&& if page.byte_size > before.bounds().max_bytes {
        after.pages() == without_key(before.pages(), page.key@)
    } else if total_bytes(before.pages()) + page.byte_size <= usize::MAX {
        exists|stored: DataPage|
            same_page(page, stored) && after.pages() == evicted(
                #[trigger] without_key(before.pages(), page.key@).push(stored),
                before.bounds(),
            )
    } else {
        after.pages() == before.pages()
    }
}

impl ParquetSource {
    /// The metadata and the cache are sound.
    pub open spec fn wf(&self) -> bool {
        self.dataset_metadata.wf() && self.cache.wf()
    }

    /// The columns.
    pub open spec fn fields(&self) -> Seq<Field> {
        self.dataset_metadata.schema.fields@
    }

    /// A dataset whose metadata was read, with an empty cache.
    pub fn new(path: String, dataset_metadata: Arc<DatasetMetadata>) -> (source: Self)
        requires
            dataset_metadata.wf(),
        ensures
            source.wf(),
            source.path == path,
            source.dataset_metadata == dataset_metadata,
            source.cache.pages().len() == 0,
            source.cache.hit_count() == 0,
            source.cache.miss_count() == 0,
            source.cache.bounds().max_pages == DEFAULT_MAX_PAGES,
            source.cache.bounds().max_bytes == DEFAULT_MAX_BYTES,
    {
        ParquetSource { path, dataset_metadata, cache: PageCache::default() }
    }

    pub fn metadata(&self) -> (metadata: &DatasetMetadata)
        ensures
            *metadata == *self.dataset_metadata,
    {
        &self.dataset_metadata
    }

    pub fn schema(&self) -> (schema: &Schema)
        ensures
            *schema == self.dataset_metadata.schema,
    {
        &self.dataset_metadata.schema
    }

    pub fn row_count(&self) -> (rows: u64)
        ensures
            rows == self.dataset_metadata.row_count,
    {
        self.dataset_metadata.row_count
    }

    pub fn column_count(&self) -> (columns: usize)
        ensures
            columns == self.dataset_metadata.column_count,
    {
        self.dataset_metadata.column_count
    }

    pub fn row_groups(&self) -> (groups: &[RowGroupInfo])
        ensures
            groups@ == self.dataset_metadata.row_groups@,
    {
        self.dataset_metadata.row_groups.as_slice()
    }

    /// Replaces the cache by an empty one with these limits.
    pub fn set_cache_limits(&mut self, limits: PageCacheLimits)
        requires
            old(self).wf(),
        ensures
            final(self).wf(),
            final(self).path == old(self).path,
            final(self).dataset_metadata == old(self).dataset_metadata,
            final(self).cache.pages().len() == 0,
            final(self).cache.hit_count() == 0,
            final(self).cache.miss_count() == 0,
            final(self).cache.bounds().max_bytes == limits.max_bytes,
            final(self).cache.bounds().max_pages == if limits.max_pages == 0 {
                1
            } else {
                limits.max_pages
            },
    {
        self.cache = PageCache::new(limits);
    }

    pub fn cache_stats(&self) -> (stats: PageCacheStats)
        requires
            self.wf(),
        ensures
            stats.hits == self.cache.hit_count(),
            stats.misses == self.cache.miss_count(),
            stats.entries == self.cache.pages().len(),
            stats.bytes == total_bytes(self.cache.pages()),
    {
        self.cache.stats()
    }

    /// Whether the filter can be applied to this dataset.
    pub fn validate_filter(&self, filter: &FilterExpr) -> (result: Result<(), FilterError>)
        ensures
            match result {
                Ok(_) => filter_fault(filter@, self.dataset_metadata.schema) is None,
                Err(error) => filter_fault(filter@, self.dataset_metadata.schema) == Some(error@),
            },
    {
        self.dataset_metadata.validate_filter(filter)
    }

    /// Whether the aggregate can be computed over this dataset.
    pub fn validate_aggregate(&self, aggregate: &AggregateSpec) -> (result: Result<
        (),
        ValidationError,
    >)
        ensures
            match result {
                Ok(_) => aggregate_fault(*aggregate, self.fields()) is None,
                Err(error) => aggregate_fault(*aggregate, self.fields()) == Some(error),
            },
    {
        self.dataset_metadata.validate_aggregate(aggregate)
    }

    /// Whether the dataset can be sorted this way.
    pub fn validate_sort(&self, sort: SortSpec) -> (result: Result<(), ValidationError>)
        ensures
            match result {
                Ok(_) => sort_fault(sort, self.fields()) is None,
                Err(error) => sort_fault(sort, self.fields()) == Some(error),
            },
    {
        self.dataset_metadata.validate_sort(sort)
    }

    /// Whether a row group can hold rows that pass. Statistics count only where
    /// the file stores one leaf column per top-level column.
    pub fn row_group_might_match(
        &self,
        filter: &FilterExpr,
        leaf_columns: usize,
        statistics: Option<&Statistics>,
    ) -> (possible: bool)
        ensures
            possible == (self.dataset_metadata.column_count != leaf_columns || group_can_match(
                filter@,
                if statistics is Some {
                    Some(*statistics->0)
                } else {
                    None
                },
            )),
    {
        self.column_count() != leaf_columns || filter.might_match_statistics(statistics)
    }

    /// Looks a page up in the cache; where it is missing, says what to read.
    pub fn read_page(&mut self, page_index: u64, projection: &Projection) -> (read: PageRead)
        requires
            old(self).wf(),
        ensures
            final(self).wf(),
            final(self).path == old(self).path,
            final(self).dataset_metadata == old(self).dataset_metadata,
            final(self).cache.bounds() == old(self).cache.bounds(),
            final(self).cache.hit_count() == if read is Cached {
                counted(old(self).cache.hit_count())
            } else {
                old(self).cache.hit_count()
            },
            final(self).cache.miss_count() == if read is Cached {
                old(self).cache.miss_count()
            } else {
                counted(old(self).cache.miss_count())
            },
            match read {
                PageRead::Cached(page) => page.key@ == (page_index, projection@) && holds_key(
                    old(self).cache.pages(),
                    (page_index, projection@),
                ) && exists|i: int|
                    0 <= i < old(self).cache.pages().len() && same_page(
                        page,
                        #[trigger] old(self).cache.pages()[i],
                    ) && final(self).cache.pages() == old(self).cache.pages().remove(i).push(
                        old(self).cache.pages()[i],
                    ),
                PageRead::Missing(key, window) => key@ == (page_index, projection@) && !holds_key(
                    old(self).cache.pages(),
                    (page_index, projection@),
                ) && window.first_row == page_start(page_index) && window.row_count == page_len(
                    page_index,
                    old(self).dataset_metadata.row_count,
                ) && final(self).cache.pages() == old(self).cache.pages(),
            },
    {
        let key = PageKey::new(page_index, projection.copy());
        match self.cache.get(&key) {
            Some(page) => PageRead::Cached(page),
            None => PageRead::Missing(key, RowWindow::for_page(page_index, self.row_count())),
        }
    }

    /// Makes a page of the batches read for it, and caches it.
    pub fn store_page(&mut self, key: PageKey, window: RowWindow, batches: Vec<Batch>) -> (page:
        DataPage)
        requires
            old(self).wf(),
        ensures
            final(self).wf(),
            final(self).path == old(self).path,
            final(self).dataset_metadata == old(self).dataset_metadata,
            page.key@ == key@,
            page.window == window,
            crate::page::same_batches(page.batches@, batches@),
            exists|sizes: Seq<usize>|
                sizes.len() == batches@.len() && page.byte_size == saturated(
                    #[trigger] size_sum(sizes) as int,
                ),
            keeps_page(old(self).cache, final(self).cache, page),
    {
        self.keep_page(DataPage::new(key, window, batches))
    }

    /// Caches a page where it fits in.
    pub fn keep_page(&mut self, page: DataPage) -> (copy: DataPage)
        requires
            old(self).wf(),
        ensures
            final(self).wf(),
            final(self).path == old(self).path,
            final(self).dataset_metadata == old(self).dataset_metadata,
            same_page(copy, page),
            keeps_page(old(self).cache, final(self).cache, copy),
    {
        let copy = page.copy();
        if self.cache.has_room(&page) {
            self.cache.insert(page);
        }
        copy
    }
}

fn check_expression(expression: AggregateExpr, fields: &Vec<Field>) -> (result: Result<
    (),
    ValidationError,
>)
    ensures
        match result {
            Ok(_) => expression_fault(expression, fields@) is None,
            Err(error) => expression_fault(expression, fields@) == Some(error),
        },
{
    let function = expression.function();
    match expression.column() {
        None => if function == AggregateFunction::Count {
            Ok(())
        } else {
            Err(ValidationError::OnlyCountAll)
        },
        Some(column) => {
            if column >= fields.len() {
                return Err(ValidationError::AggregateOutOfRange(column));
            }
            let data_type: DataType = fields[column].data_type;
            let supported: bool = match function {
                AggregateFunction::Count => true,
                AggregateFunction::Sum | AggregateFunction::Avg => data_type.supports_numeric(),
                AggregateFunction::Min | AggregateFunction::Max => data_type.supports_min_max(),
            };
            if supported {
                Ok(())
            } else {
                Err(ValidationError::AggregateType(function, column))
            }
        },
    }
}

/// The columns that an aggregate reads.
pub fn aggregate_read_columns(aggregate: &AggregateSpec, filter_column: Option<usize>) -> (columns:
    Vec<usize>)
    ensures
        columns@ == aggregate_columns(*aggregate, filter_column),
{
    let mut group: Vec<usize> = Vec::new();
    if let Some(column) = aggregate.group_by() {
        group.push(column);
    }
    assert(group@ =~= match aggregate.grouping() {
        Some(column) => seq![column],
        None => Seq::empty(),
    });
    let expressions = aggregate.expressions();
    let mut inputs: Vec<usize> = Vec::new();
    let mut i: usize = 0;
    assert(expressions@.take(0) =~= Seq::<AggregateExpr>::empty());
    while i < expressions.len()
        invariant
            i <= expressions@.len(),
            inputs@ == input_columns(expressions@.take(i as int)),
        decreases expressions@.len() - i,
    {
        assert(expressions@.take(i + 1).drop_last() =~= expressions@.take(i as int));
        assert(expressions@.take(i + 1).last() == expressions@[i as int]);
        if let Some(column) = expressions[i].column() {
            inputs.push(column);
        }
        i = i + 1;
    }
    assert(expressions@.take(i as int) =~= expressions@);
    let columns = add_missing(group, &inputs);
    match filter_column {
        Some(column) => {
            let mut extra: Vec<usize> = Vec::new();
            extra.push(column);
            assert(extra@ =~= seq![column]);
            add_missing(columns, &extra)
        },
        None => columns,
    }
}

/// An aggregate without a fault can be collected: its expressions read columns
/// that are there and apply to their types.
pub proof fn law_validated_aggregates_are_typed(aggregate: AggregateSpec, fields: Seq<Field>)
    requires
        aggregate_fault(aggregate, fields) is None,
    ensures
        crate::groups::input_fault(aggregate.listed(), fields) is None,
        crate::groups::result_fault(aggregate.listed(), fields) is None,
        aggregate.grouping() is Some ==> aggregate.grouping()->0 < fields.len(),
{
    lemma_validated_expressions(aggregate.listed(), fields);
}

proof fn lemma_validated_expressions(expressions: Seq<AggregateExpr>, fields: Seq<Field>)
    requires
        expressions_fault(expressions, fields) is None,
    ensures
        crate::groups::input_fault(expressions, fields) is None,
        crate::groups::result_fault(expressions, fields) is None,
    decreases expressions.len(),
{
    if expressions.len() > 0 {
        lemma_validated_expressions(expressions.drop_last(), fields);
    }
}

/// An aggregate reads the column it groups by, the columns of its expressions and the column
/// of its filter, each once, and no others.
pub proof fn law_aggregate_reads_its_columns(
    aggregate: AggregateSpec,
    filter_column: Option<usize>,
    column: usize,
)
    ensures
        aggregate_columns(aggregate, filter_column).no_duplicates(),
        aggregate_columns(aggregate, filter_column).contains(column) <==> {
            ||| aggregate.grouping() == Some(column)
            ||| filter_column == Some(column)
            ||| exists|i: int|
                0 <= i < aggregate.listed().len() && (#[trigger] aggregate.listed()[i]).input()
                    == Some(column)
        },
{
    let group = match aggregate.grouping() {
        Some(column) => seq![column],
        None => Seq::<usize>::empty(),
    };
    let listed = input_columns(aggregate.listed());
    let inputs = with_missing(group, listed);
    lemma_added(group, listed, column);
    lemma_inputs_listed(aggregate.listed(), column);
    if group.contains(column) {
        assert(aggregate.grouping() == Some(column));
    }
    if aggregate.grouping() == Some(column) {
        assert(group[0] == column);
    }
    if let Some(filtered) = filter_column {
        lemma_added(inputs, seq![filtered], column);
        if filtered == column {
            assert(seq![filtered][0] == column);
        }
    }
}

proof fn lemma_added(base: Seq<usize>, extra: Seq<usize>, column: usize)
    requires
        base.no_duplicates(),
    ensures
        with_missing(base, extra).no_duplicates(),
        with_missing(base, extra).contains(column) <==> base.contains(column) || extra.contains(
            column,
        ),
{
    law_only_needed_columns_are_added(base, extra);
    lemma_with_missing(base, extra);
    let all = with_missing(base, extra);
    if base.contains(column) {
        let i = choose|i: int| 0 <= i < base.len() && base[i] == column;
        assert(all.take(base.len() as int)[i] == column);
        assert(all[i] == column);
    }
    if extra.contains(column) {
        let i = choose|i: int| 0 <= i < extra.len() && extra[i] == column;
        assert(all.contains(extra[i]));
    }
    if all.contains(column) {
        let i = choose|i: int| 0 <= i < all.len() && all[i] == column;
        if i < base.len() {
            assert(all.take(base.len() as int)[i] == column);
            assert(base[i] == column);
        } else {
            assert(extra.contains(all[i]));
        }
    }
}

proof fn lemma_inputs_listed(expressions: Seq<AggregateExpr>, column: usize)
    ensures
        input_columns(expressions).contains(column) <==> exists|i: int|
            0 <= i < expressions.len() && (#[trigger] expressions[i]).input() == Some(column),
    decreases expressions.len(),
{
    let all = input_columns(expressions);
    if expressions.len() > 0 {
        let init = expressions.drop_last();
        let before = input_columns(init);
        lemma_inputs_listed(init, column);
        if all.contains(column) {
            let k = choose|k: int| 0 <= k < all.len() && all[k] == column;
            if k < before.len() {
                assert(before[k] == column);
                assert(before.contains(column));
                let i = choose|i: int|
                    0 <= i < init.len() && (#[trigger] init[i]).input() == Some(column);
                assert(expressions[i].input() == Some(column));
            } else {
                assert(expressions[expressions.len() - 1].input() == Some(column));
            }
        }
        if exists|i: int|
            0 <= i < expressions.len() && (#[trigger] expressions[i]).input() == Some(column) {
            let i = choose|i: int|
                0 <= i < expressions.len() && (#[trigger] expressions[i]).input() == Some(column);
            if i < init.len() {
                assert(init[i].input() == Some(column));
                let k = choose|k: int| 0 <= k < before.len() && before[k] == column;
                assert(all[k] == column);
            } else {
                assert(all[before.len() as int] == column);
            }
        }
    }
}

/// An aggregate over a column is accepted where the column is there and its values can be
/// aggregated so: anything can be counted, numbers can be added up, and what can be compared
/// has a least and a greatest value and can be grouped by. Rows themselves can only be
/// counted.
pub proof fn law_aggregates_accept_what_they_can_do(
    function: AggregateFunction,
    column: usize,
    fields: Seq<Field>,
)
    ensures
        expression_fault(AggregateExpr::of(function, None), fields) is None <==> function is Count,
        column >= fields.len() ==> expression_fault(
            AggregateExpr::of(function, Some(column)),
            fields,
        ) is Some,
        column < fields.len() ==> {
            let data_type = fields[column as int].data_type;
            let accepted = expression_fault(AggregateExpr::of(function, Some(column)), fields) is None;
            &&& function is Count ==> accepted
            &&& function is Sum || function is Avg ==> (accepted <==> data_type.signed()
                || data_type.unsigned() || data_type.floating())
            &&& function is Min || function is Max ==> (accepted <==> data_type.comparable())
        },
{
    AggregateExpr::law_expression_has_its_parts(function, None);
    AggregateExpr::law_expression_has_its_parts(function, Some(column));
}

/// Rows can be sorted by a column that is there and whose values can be put in order.
pub proof fn law_sorts_accept_what_they_can_order(sort: SortSpec, fields: Seq<Field>)
    ensures
        sort_fault(sort, fields) is None <==> sort.column < fields.len()
            && fields[sort.column as int].data_type.sortable(),
{
}

/// Aggregates are accepted where each of them is, and where the column that they are grouped
/// by is there and can be compared.
pub proof fn law_aggregates_are_accepted_together(aggregate: AggregateSpec, fields: Seq<Field>)
    ensures
        aggregate_fault(aggregate, fields) is None <==> {
            &&& aggregate.grouping() matches Some(column) ==> column < fields.len()
                && fields[column as int].data_type.comparable()
            &&& forall|i: int|
                0 <= i < aggregate.listed().len() ==> expression_fault(
                    #[trigger] aggregate.listed()[i],
                    fields,
                ) is None
        },
{
    lemma_expressions_accepted(aggregate.listed(), fields);
}

proof fn lemma_expressions_accepted(expressions: Seq<AggregateExpr>, fields: Seq<Field>)
    ensures
        expressions_fault(expressions, fields) is None <==> forall|i: int|
            0 <= i < expressions.len() ==> expression_fault(#[trigger] expressions[i], fields) is None,
    decreases expressions.len(),
{
    if expressions.len() > 0 {
        let init = expressions.drop_last();
        let last = expressions.len() - 1;
        lemma_expressions_accepted(init, fields);
        assert(expressions[last] == expressions.last());
        if expressions_fault(expressions, fields) is None {
            assert forall|i: int| 0 <= i < expressions.len() implies expression_fault(
                #[trigger] expressions[i],
                fields,
            ) is None by {
                if i < last {
                    assert(init[i] == expressions[i]);
                }
            }
        } else if expressions_fault(init, fields) is Some {
            let i = choose|i: int|
                0 <= i < init.len() && !(expression_fault(#[trigger] init[i], fields) is None);
            assert(expressions[i] == init[i]);
        }
    }
}

} // verus!

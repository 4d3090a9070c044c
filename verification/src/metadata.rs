//! What is known of a dataset without reading its rows.

use crate::page::smaller;
use crate::projection::strictly_increasing;
use crate::schema::{DataType, Field, Schema};
use vstd::prelude::*;

verus! {

/// What a row group records of one column.
#[derive(Debug, PartialEq, Eq)]
pub struct ColumnStatistics {
    pub min: Option<String>,
    pub max: Option<String>,
    pub null_count: Option<u64>,
    pub distinct_count: Option<u64>,
}

/// One top-level column.
#[derive(Debug)]
pub struct ColumnInfo {
    pub index: usize,
    pub name: String,
    pub data_type: DataType,
    pub nullable: bool,
    /// One entry per row group; `None` means that the file has no usable statistics.
    pub row_group_statistics: Vec<Option<ColumnStatistics>>,
}

/// A run of rows that a file stores together.
#[derive(Clone, Copy, Debug, PartialEq, Eq, Structural)]
pub struct RowGroupInfo {
    pub index: usize,
    pub first_row: u64,
    pub row_count: u64,
}

/// The schema, the columns and the row groups of a dataset.
#[derive(Debug)]
pub struct DatasetMetadata {
    pub schema: Schema,
    pub row_count: u64,
    pub column_count: usize,
    pub row_groups: Vec<RowGroupInfo>,
    pub columns: Vec<ColumnInfo>,
}

/// The row counts of the groups do not fit in a row number.
#[derive(Clone, Copy, Debug, PartialEq, Eq, Structural)]
pub struct RowCountOverflow;

/// A window that starts behind the last row.
#[derive(Clone, Copy, Debug, PartialEq, Eq, Structural)]
pub struct WindowPastEnd {
    pub first_row: u64,
    pub row_count: u64,
}

/// The sum of the counts.
pub open spec fn total_rows(counts: Seq<u64>) -> nat
    decreases counts.len(),
{
    if counts.len() == 0 {
        0
    } else {
        total_rows(counts.drop_last()) + counts.last() as nat
    }
}

/// The groups with these row counts, one behind the other.
pub open spec fn consecutive_groups(groups: Seq<RowGroupInfo>, counts: Seq<u64>) -> bool {
    groups.len() == counts.len() && forall|i: int|
        #![trigger groups[i]]
        0 <= i < groups.len() ==> groups[i].index == i && groups[i].row_count == counts[i]
            && groups[i].first_row == total_rows(counts.take(i))
}

/// The row behind the last one of the group.
pub open spec fn group_end(group: RowGroupInfo) -> int {
    group.first_row + group.row_count
}

/// Whether the group reaches into the rows from `first` up to, not including, `end`.
pub open spec fn reaches_into(group: RowGroupInfo, first: int, end: int) -> bool {
    group_end(group) > first && group.first_row < end
}

proof fn lemma_total_prefix(counts: Seq<u64>, k: int)
    requires
        0 <= k <= counts.len(),
    ensures
        total_rows(counts.take(k)) <= total_rows(counts),
    decreases counts.len(),
{
    if k == counts.len() {
        assert(counts.take(k) =~= counts);
    } else {
        lemma_total_prefix(counts.drop_last(), k);
        assert(counts.drop_last().take(k) =~= counts.take(k));
    }
}

proof fn lemma_total_next(counts: Seq<u64>, k: int)
    requires
        0 <= k < counts.len(),
    ensures
        total_rows(counts.take(k + 1)) == total_rows(counts.take(k)) + counts[k],
{
    assert(counts.take(k + 1).drop_last() =~= counts.take(k));
}

impl DatasetMetadata {
    /// The row counts of the groups.
    pub open spec fn counts(&self) -> Seq<u64> {
        self.row_groups@.map_values(|group: RowGroupInfo| group.row_count)
    }

    /// The groups follow each other without gap, they hold all rows, and the
    /// columns are those of the schema.
    pub open spec fn wf(&self) -> bool {
        &&& consecutive_groups(self.row_groups@, self.counts())
        &&& self.row_count == total_rows(self.counts())
        &&& self.column_count == self.schema.fields@.len()
        &&& self.columns@.len() == self.schema.fields@.len()
        &&& forall|i: int|
            0 <= i < self.columns@.len() ==> {
                &&& (#[trigger] self.columns@[i]).index == i
                &&& self.columns@[i].name@ == self.schema.fields@[i].name@
                &&& self.columns@[i].data_type == self.schema.fields@[i].data_type
                &&& self.columns@[i].nullable == self.schema.fields@[i].nullable
                &&& self.columns@[i].row_group_statistics@.len() == self.row_groups@.len()
            }
    }

    /// Lays the row groups out one behind the other.
    pub fn new(schema: Schema, row_group_counts: Vec<u64>) -> (result: Result<
        Self,
        RowCountOverflow,
    >)
        ensures
            match result {
                Ok(metadata) => {
                    &&& metadata.wf()
                    &&& metadata.counts() == row_group_counts@
                    &&& metadata.schema == schema
                    &&& total_rows(row_group_counts@) <= u64::MAX
                    &&& forall|i: int, k: int|
                        #![trigger metadata.columns@[i].row_group_statistics@[k]]
                        0 <= i < metadata.columns@.len() && 0 <= k < row_group_counts@.len()
                            ==> metadata.columns@[i].row_group_statistics@[k] is None
                },
                Err(_) => total_rows(row_group_counts@) > u64::MAX,
            },
    {
        let ghost counts = row_group_counts@;
        let mut first_row: u64 = 0;
        let mut row_groups: Vec<RowGroupInfo> = Vec::new();
        let mut index: usize = 0;
        assert(counts.take(0) =~= Seq::<u64>::empty());
        while index < row_group_counts.len()
            invariant
                counts == row_group_counts@,
                index <= counts.len(),
                row_groups@.len() == index,
                first_row == total_rows(counts.take(index as int)),
                forall|i: int|
                    #![trigger row_groups@[i]]
                    0 <= i < index ==> row_groups@[i].index == i && row_groups@[i].row_count
                        == counts[i] && row_groups@[i].first_row == total_rows(counts.take(i)),
            decreases counts.len() - index,
        {
            let row_count: u64 = row_group_counts[index];
            row_groups.push(RowGroupInfo { index, first_row, row_count });
            proof {
                lemma_total_next(counts, index as int);
                lemma_total_prefix(counts, index + 1);
            }
            match first_row.checked_add(row_count) {
                Some(next) => {
                    first_row = next;
                },
                None => {
                    return Err(RowCountOverflow);
                },
            }
            index = index + 1;
        }
        assert(counts.take(index as int) =~= counts);
        let groups: usize = row_groups.len();
        let mut columns: Vec<ColumnInfo> = Vec::new();
        let mut column: usize = 0;
        while column < schema.fields.len()
            invariant
                column <= schema.fields@.len(),
                columns@.len() == column,
                groups == row_group_counts@.len(),
                forall|i: int|
                    0 <= i < column ==> {
                        &&& (#[trigger] columns@[i]).index == i
                        &&& columns@[i].name@ == schema.fields@[i].name@
                        &&& columns@[i].data_type == schema.fields@[i].data_type
                        &&& columns@[i].nullable == schema.fields@[i].nullable
                        &&& columns@[i].row_group_statistics@.len() == groups
                        &&& forall|k: int|
                            0 <= k < groups
                                ==> #[trigger] columns@[i].row_group_statistics@[k] is None
                    },
            decreases schema.fields@.len() - column,
        {
            let field: &Field = &schema.fields[column];
            columns.push(
                ColumnInfo {
                    index: column,
                    name: field.name.clone(),
                    data_type: field.data_type,
                    nullable: field.nullable,
                    row_group_statistics: no_statistics(groups),
                },
            );
            column = column + 1;
        }
        let metadata = DatasetMetadata {
            column_count: schema.fields.len(),
            schema,
            row_count: first_row,
            row_groups,
            columns,
        };
        assert(metadata.counts() =~= counts);
        Ok(metadata)
    }

    /// Replaces the statistics of each column for which there is one entry per
    /// row group.
    pub fn with_column_statistics(
        self,
        statistics: Vec<Vec<Option<ColumnStatistics>>>,
    ) -> (result: Self)
        requires
            self.wf(),
        ensures
            result.wf(),
            result.schema == self.schema,
            result.row_count == self.row_count,
            result.row_groups == self.row_groups,
            forall|i: int|
                0 <= i < self.columns@.len() ==> (#[trigger] result.columns@[i]).row_group_statistics
                    == if i < statistics@.len() && statistics@[i]@.len() == self.row_groups@.len() {
                    statistics@[i]
                } else {
                    self.columns@[i].row_group_statistics
                },
    {
        let ghost given = statistics@;
        let mut result = self;
        let mut rest = statistics;
        let mut index: usize = rest.len();
        while index > 0
            invariant
                index <= given.len(),
                rest@ == given.take(index as int),
                result.schema == self.schema,
                result.row_count == self.row_count,
                result.column_count == self.column_count,
                result.row_groups == self.row_groups,
                result.columns@.len() == self.columns@.len(),
                forall|i: int|
                    #![trigger result.columns@[i]]
                    0 <= i < self.columns@.len() ==> {
                        &&& result.columns@[i].index == self.columns@[i].index
                        &&& result.columns@[i].name == self.columns@[i].name
                        &&& result.columns@[i].data_type == self.columns@[i].data_type
                        &&& result.columns@[i].nullable == self.columns@[i].nullable
                        &&& result.columns@[i].row_group_statistics == if index <= i
                            && i < given.len() && given[i]@.len() == self.row_groups@.len() {
                            given[i]
                        } else {
                            self.columns@[i].row_group_statistics
                        }
                    },
            decreases index,
        {
            index = index - 1;
            match rest.pop() {
                Some(entries) => {
                    assert(entries == given[index as int]);
                    if index < result.columns.len() && entries.len() == result.row_groups.len() {
                        result.columns[index].row_group_statistics = entries;
                    }
                },
                None => {},
            }
            assert(rest@ =~= given.take(index as int));
        }
        assert(result.counts() =~= self.counts());
        result
    }

    pub fn columns(&self) -> (columns: &[ColumnInfo])
        ensures
            columns@ == self.columns@,
    {
        self.columns.as_slice()
    }

    /// How many groups end at or before `row`: they come first.
    fn groups_ending_by(&self, row: u64) -> (point: usize)
        requires
            self.wf(),
        ensures
            point <= self.row_groups@.len(),
            forall|i: int|
                0 <= i < self.row_groups@.len() ==> (i < point <==> group_end(
                    #[trigger] self.row_groups@[i],
                ) <= row),
    {
        let mut low: usize = 0;
        let mut high: usize = self.row_groups.len();
        while low < high
            invariant
                self.wf(),
                low <= high <= self.row_groups@.len(),
                forall|i: int|
                    0 <= i < low ==> group_end(#[trigger] self.row_groups@[i]) <= row,
                forall|i: int|
                    high <= i < self.row_groups@.len() ==> group_end(
                        #[trigger] self.row_groups@[i],
                    ) > row,
            decreases high - low,
        {
            let middle: usize = low + (high - low) / 2;
            let group: RowGroupInfo = self.row_groups[middle];
            proof {
                self.lemma_group_end(middle as int);
                assert forall|i: int| 0 <= i < self.row_groups@.len() implies (i <= middle
                    ==> group_end(#[trigger] self.row_groups@[i]) <= group_end(group)) && (i
                    >= middle ==> group_end(self.row_groups@[i]) >= group_end(group)) by {
                    if i <= middle {
                        self.lemma_ends_ordered(i, middle as int);
                    } else {
                        self.lemma_ends_ordered(middle as int, i);
                    }
                }
            }
            if group.first_row + group.row_count <= row {
                low = middle + 1;
            } else {
                high = middle;
            }
        }
        low
    }

    proof fn lemma_group_end(&self, i: int)
        requires
            self.wf(),
            0 <= i < self.row_groups@.len(),
        ensures
            group_end(self.row_groups@[i]) == total_rows(self.counts().take(i + 1)),
            group_end(self.row_groups@[i]) <= self.row_count,
    {
        lemma_total_next(self.counts(), i);
        lemma_total_prefix(self.counts(), i + 1);
    }

    proof fn lemma_ends_ordered(&self, i: int, j: int)
        requires
            self.wf(),
            0 <= i <= j < self.row_groups@.len(),
        ensures
            group_end(self.row_groups@[i]) <= group_end(self.row_groups@[j]),
            i < j ==> group_end(self.row_groups@[i]) <= self.row_groups@[j].first_row,
    {
        self.lemma_group_end(i);
        self.lemma_group_end(j);
        if i < j {
            lemma_total_prefix(self.counts().take(j), i + 1);
            assert(self.counts().take(j).take(i + 1) =~= self.counts().take(i + 1));
        }
    }

    proof fn lemma_starts_ordered(&self, i: int, j: int)
        requires
            self.wf(),
            0 <= i < j < self.row_groups@.len(),
        ensures
            self.row_groups@[i].first_row <= self.row_groups@[j].first_row,
    {
        self.lemma_ends_ordered(i, j);
    }

    proof fn lemma_last_end(&self)
        requires
            self.wf(),
            self.row_groups@.len() > 0,
        ensures
            group_end(self.row_groups@[self.row_groups@.len() - 1]) == self.row_count,
    {
        let last = self.row_groups@.len() - 1;
        self.lemma_group_end(last);
        assert(self.counts().take(last + 1) =~= self.counts());
    }

    /// The row group that holds `row`.
    pub fn row_group_for_row(&self, row: u64) -> (group: Option<&RowGroupInfo>)
        requires
            self.wf(),
        ensures
            group is Some <==> row < self.row_count,
            group matches Some(found) ==> self.row_groups@.contains(*found) && found.first_row
                <= row < group_end(*found),
    {
        if row >= self.row_count {
            return None;
        }
        let index = self.groups_ending_by(row);
        proof {
            if self.row_groups@.len() == 0 {
                assert(self.counts() =~= Seq::<u64>::empty());
            } else {
                self.lemma_last_end();
                if index == self.row_groups@.len() {
                    assert(group_end(self.row_groups@[index - 1]) <= row);
                }
            }
            if index > 0 {
                assert(group_end(self.row_groups@[index - 1]) <= row);
                self.lemma_group_end(index - 1);
            } else {
                assert(self.counts().take(0) =~= Seq::<u64>::empty());
            }
            assert(self.row_groups@[index as int].first_row <= row);
            assert(self.row_groups@.contains(self.row_groups@[index as int]));
            assert(group_end(self.row_groups@[index as int]) > row);
        }
        Some(&self.row_groups[index])
    }

    /// The row groups that reach into a window of rows, in order. A group
    /// without rows that lies inside the window counts.
    #[verifier::spinoff_prover]
    pub fn overlapping_row_group_indexes(&self, first_row: u64, row_count: usize) -> (indexes: Vec<
        usize,
    >)
        requires
            self.wf(),
        ensures
            strictly_increasing(indexes@),
            forall|k: usize|
                indexes@.contains(k) <==> row_count > 0 && first_row < self.row_count && k
                    < self.row_groups@.len() && reaches_into(
                    self.row_groups@[k as int],
                    first_row as int,
                    smaller(first_row + row_count, self.row_count as int),
                ),
            row_count > 0 && first_row < self.row_count ==> indexes@.len() > 0
                && self.row_groups@[indexes@[0] as int].first_row <= first_row,
    {
        let mut indexes: Vec<usize> = Vec::new();
        if row_count == 0 || first_row >= self.row_count {
            return indexes;
        }
        let end_row: u64 = if row_count as u64 > self.row_count - first_row {
            self.row_count
        } else {
            first_row + row_count as u64
        };
        let start = self.groups_ending_by(first_row);
        let ghost last = self.row_groups@.len() as int;
        proof {
            if self.row_groups@.len() == 0 {
                assert(self.counts() =~= Seq::<u64>::empty());
            } else {
                self.lemma_last_end();
                if start == self.row_groups@.len() {
                    assert(group_end(self.row_groups@[start - 1]) <= first_row);
                }
            }
            if start > 0 {
                assert(group_end(self.row_groups@[start - 1]) <= first_row);
                self.lemma_group_end(start - 1);
            } else {
                assert(self.counts().take(0) =~= Seq::<u64>::empty());
            }
            assert(self.row_groups@[start as int].first_row <= first_row);
        }
        let mut at: usize = start;
        while at < self.row_groups.len() && self.row_groups[at].first_row < end_row
            invariant
                start <= at <= self.row_groups@.len(),
                indexes@.len() == at - start,
                forall|i: int| 0 <= i < indexes@.len() ==> indexes@[i] == start + i,
                forall|i: int|
                    start <= i < at ==> (#[trigger] self.row_groups@[i]).first_row < end_row,
            decreases self.row_groups@.len() - at,
        {
            indexes.push(at);
            at = at + 1;
        }
        proof {
            assert forall|k: usize|
                indexes@.contains(k) <==> k < self.row_groups@.len() && reaches_into(
                    self.row_groups@[k as int],
                    first_row as int,
                    end_row as int,
                ) by {
                if indexes@.contains(k) {
                    let i = choose|i: int| 0 <= i < indexes@.len() && indexes@[i] == k;
                    assert(self.row_groups@[k as int].first_row < end_row);
                }
                if start <= k < at {
                    assert(indexes@[k - start] == k);
                }
                if at < k < self.row_groups@.len() {
                    self.lemma_starts_ordered(at as int, k as int);
                }
            }
            assert(self.row_groups@[start as int].first_row < end_row);
            assert(at > start);
        }
        indexes
    }

    /// How many rows a window really has; a window may start right behind the
    /// last row, and has no row then.
    pub fn validate_window(&self, first_row: u64, row_count: usize) -> (result: Result<
        usize,
        WindowPastEnd,
    >)
        ensures
            match result {
                Ok(rows) => first_row <= self.row_count && rows == smaller(
                    self.row_count - first_row,
                    row_count as int,
                ),
                Err(error) => first_row > self.row_count && error == (WindowPastEnd {
                    first_row,
                    row_count: self.row_count,
                }),
            },
    {
        if first_row > self.row_count {
            return Err(WindowPastEnd { first_row, row_count: self.row_count });
        }
        let left: u64 = self.row_count - first_row;
        if left < row_count as u64 {
            Ok(left as usize)
        } else {
            Ok(row_count)
        }
    }
}

fn no_statistics(count: usize) -> (statistics: Vec<Option<ColumnStatistics>>)
    ensures
        statistics@.len() == count,
        forall|k: int| 0 <= k < count ==> #[trigger] statistics@[k] is None,
{
    let mut statistics: Vec<Option<ColumnStatistics>> = Vec::new();
    while statistics.len() < count
        invariant
            statistics@.len() <= count,
            forall|k: int| 0 <= k < statistics@.len() ==> #[trigger] statistics@[k] is None,
        decreases count - statistics@.len(),
    {
        statistics.push(None);
    }
    statistics
}

/// No row of a dataset lies in two of its row groups, and none lies behind the last
/// row.
pub proof fn law_row_groups_tile_rows(metadata: &DatasetMetadata, row: u64, i: int, j: int)
    requires
        metadata.wf(),
        0 <= i < metadata.row_groups@.len(),
        0 <= j < metadata.row_groups@.len(),
        metadata.row_groups@[i].first_row <= row < group_end(metadata.row_groups@[i]),
        metadata.row_groups@[j].first_row <= row < group_end(metadata.row_groups@[j]),
    ensures
        i == j,
        row < metadata.row_count,
{
    metadata.lemma_group_end(i);
    if i < j {
        metadata.lemma_ends_ordered(i, j);
    } else if j < i {
        metadata.lemma_ends_ordered(j, i);
    }
}

proof fn lemma_group_of_row(metadata: &DatasetMetadata, row: u64, k: int) -> (i: int)
    requires
        metadata.wf(),
        0 <= k <= metadata.row_groups@.len(),
        row < total_rows(metadata.counts().take(k)),
    ensures
        0 <= i < k,
        metadata.row_groups@[i].first_row <= row < group_end(metadata.row_groups@[i]),
    decreases k,
{
    let counts = metadata.counts();
    if k == 0 {
        assert(counts.take(0) =~= Seq::<u64>::empty());
        assert(false);
        0
    } else {
        assert(counts.take(k).drop_last() =~= counts.take(k - 1));
        assert(metadata.row_groups@[k - 1].first_row == total_rows(counts.take(k - 1)));
        if row < total_rows(counts.take(k - 1)) {
            lemma_group_of_row(metadata, row, k - 1)
        } else {
            k - 1
        }
    }
}

/// Every row of a dataset lies in one of its row groups.
pub proof fn law_every_row_has_a_row_group(metadata: &DatasetMetadata, row: u64)
    requires
        metadata.wf(),
        row < metadata.row_count,
    ensures
        exists|i: int|
            0 <= i < metadata.row_groups@.len() && (#[trigger] metadata.row_groups@[i]).first_row
                <= row < group_end(metadata.row_groups@[i]),
{
    let counts = metadata.counts();
    assert(counts.take(counts.len() as int) =~= counts);
    let i = lemma_group_of_row(metadata, row, metadata.row_groups@.len() as int);
    assert(metadata.row_groups@[i].first_row <= row);
}

/// A row group is read for some rows exactly where it holds one of them.
pub proof fn law_needed_group_holds_a_row(group: RowGroupInfo, first: int, end: int, row: int)
    requires
        group.row_count > 0,
        first < end,
    ensures
        group.first_row <= row < group_end(group) && first <= row < end ==> reaches_into(
            group,
            first,
            end,
        ),
        reaches_into(group, first, end) ==> {
            let shared = if first < group.first_row {
                group.first_row as int
            } else {
                first
            };
            group.first_row <= shared < group.first_row + group.row_count && first <= shared < end
        },
{
}

/// The rows of the groups add up one by one.
pub proof fn law_group_rows_add_up(counts: Seq<u64>, count: u64)
    ensures
        total_rows(Seq::<u64>::empty()) == 0,
        total_rows(counts.push(count)) == total_rows(counts) + count,
{
    assert(counts.push(count).drop_last() =~= counts);
}

} // verus!

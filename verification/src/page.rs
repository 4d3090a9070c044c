//! Fixed-size pages of rows.

use crate::batch::{batch_rows, batch_width, memory_size, share, Batch};
use crate::projection::Projection;
use crate::sorted::saturated;
use vstd::prelude::*;

verus! {

/// How many rows a page has.
pub const PAGE_ROWS: u64 = 4096;

/// A run of consecutive rows.
#[derive(Clone, Copy, Debug, PartialEq, Eq, Structural)]
pub struct RowWindow {
    pub first_row: u64,
    pub row_count: usize,
}

/// A page of one projection of a dataset.
#[derive(Debug, PartialEq, Eq, Hash)]
pub struct PageKey {
    pub page_index: u64,
    pub projection: Projection,
}

/// A decoded page.
#[derive(Debug)]
pub struct DataPage {
    pub key: PageKey,
    pub window: RowWindow,
    pub batches: Vec<Batch>,
    pub byte_size: usize,
}

impl View for PageKey {
    type V = (u64, Seq<usize>);

    open spec fn view(&self) -> (u64, Seq<usize>) {
        (self.page_index, self.projection@)
    }
}

/// The smaller of two numbers.
pub open spec fn smaller(a: int, b: int) -> int {
    if a <= b {
        a
    } else {
        b
    }
}

/// The first row of a page, or the last row number there is.
pub open spec fn page_start(page_index: u64) -> int {
    smaller(page_index * PAGE_ROWS, u64::MAX as int)
}

/// How many of `total_rows` rows stand on a page.
pub open spec fn page_len(page_index: u64, total_rows: u64) -> int {
    if page_start(page_index) >= total_rows {
        0
    } else {
        smaller(total_rows - page_start(page_index), PAGE_ROWS as int)
    }
}

/// How many pages hold `total_rows` rows.
pub open spec fn pages_for(total_rows: u64) -> int {
    (total_rows + PAGE_ROWS - 1) / PAGE_ROWS as int
}

/// The number of the first row of a page.
pub fn first_row_of(page_index: u64) -> (first: u64)
    ensures
        first == page_start(page_index),
{
    if page_index > u64::MAX / PAGE_ROWS {
        u64::MAX
    } else {
        page_index * PAGE_ROWS
    }
}

/// How many pages hold `total_rows` rows.
pub fn page_count(total_rows: u64) -> (pages: u64)
    ensures
        pages == pages_for(total_rows),
{
    let full: u64 = total_rows / PAGE_ROWS;
    if total_rows % PAGE_ROWS == 0 {
        full
    } else {
        full + 1
    }
}

impl PageKey {
    pub fn new(page_index: u64, projection: Projection) -> (key: Self)
        ensures
            key.page_index == page_index,
            key.projection == projection,
    {
        PageKey { page_index, projection }
    }

    /// Whether both name the same page of the same projection.
    pub fn same_as(&self, other: &Self) -> (same: bool)
        ensures
            same == (self@ == other@),
    {
        self.page_index == other.page_index && self.projection.same_as(&other.projection)
    }
}

impl RowWindow {
    /// The rows of a page of a dataset with `total_rows` rows.
    pub fn for_page(page_index: u64, total_rows: u64) -> (window: Self)
        ensures
            window.first_row == page_start(page_index),
            window.row_count == page_len(page_index, total_rows),
    {
        let first_row = first_row_of(page_index);
        let remaining: u64 = if total_rows > first_row {
            total_rows - first_row
        } else {
            0
        };
        let row_count: u64 = if remaining < PAGE_ROWS {
            remaining
        } else {
            PAGE_ROWS
        };
        RowWindow { first_row, row_count: row_count as usize }
    }
}

/// The sum of some sizes.
pub open spec fn size_sum(sizes: Seq<usize>) -> nat
    decreases sizes.len(),
{
    if sizes.len() == 0 {
        0
    } else {
        size_sum(sizes.drop_last()) + sizes.last() as nat
    }
}

/// Whether the two lists hold batches with the same rows, one by one.
pub open spec fn same_batches(a: Seq<Batch>, b: Seq<Batch>) -> bool {
    a.len() == b.len() && forall|i: int|
        0 <= i < a.len() ==> batch_rows(#[trigger] a[i]) == batch_rows(b[i]) && batch_width(a[i])
            == batch_width(b[i])
}

/// Whether the two pages have the same key, window, size and rows.
pub open spec fn same_page(a: DataPage, b: DataPage) -> bool {
    a.key@ == b.key@ && a.window == b.window && a.byte_size == b.byte_size && same_batches(
        a.batches@,
        b.batches@,
    )
}

impl DataPage {
    /// A page whose size is the sum of the estimated sizes of its batches. These are
    /// Arrow's estimates: they count what was allocated, so nothing is said of them.
    pub fn new(key: PageKey, window: RowWindow, batches: Vec<Batch>) -> (page: Self)
        ensures
            page.key == key,
            page.window == window,
            page.batches == batches,
            exists|sizes: Seq<usize>|
                sizes.len() == batches@.len() && page.byte_size == saturated(
                    #[trigger] size_sum(sizes) as int,
                ),
    {
        let mut sizes: Vec<usize> = Vec::new();
        let mut i: usize = 0;
        while i < batches.len()
            invariant
                i <= batches@.len(),
                sizes@.len() == i,
            decreases batches@.len() - i,
        {
            sizes.push(memory_size(&batches[i]));
            i = i + 1;
        }
        DataPage::sized(key, window, batches, &sizes)
    }

    /// A page whose batches are of these sizes.
    pub fn sized(key: PageKey, window: RowWindow, batches: Vec<Batch>, sizes: &Vec<usize>) -> (page:
        Self)
        ensures
            page.key == key,
            page.window == window,
            page.batches == batches,
            page.byte_size == saturated(size_sum(sizes@) as int),
    {
        let mut byte_size: usize = 0;
        let mut i: usize = 0;
        assert(sizes@.take(0) =~= Seq::<usize>::empty());
        while i < sizes.len()
            invariant
                i <= sizes@.len(),
                byte_size == saturated(size_sum(sizes@.take(i as int)) as int),
            decreases sizes@.len() - i,
        {
            proof {
                let next = sizes@.take(i + 1);
                assert(next.drop_last() =~= sizes@.take(i as int));
                assert(next.last() == sizes@[i as int]);
            }
            byte_size = byte_size.saturating_add(sizes[i]);
            i = i + 1;
        }
        assert(sizes@.take(i as int) =~= sizes@);
        DataPage { key, window, batches, byte_size }
    }

    /// A page that shares the batches of this one.
    pub fn copy(&self) -> (copy: Self)
        ensures
            same_page(copy, *self),
    {
        let key = PageKey {
            page_index: self.key.page_index,
            projection: self.key.projection.copy(),
        };
        let mut batches: Vec<Batch> = Vec::new();
        let mut i: usize = 0;
        while i < self.batches.len()
            invariant
                i <= self.batches@.len(),
                batches@.len() == i,
                forall|k: int|
                    0 <= k < i ==> batch_rows(#[trigger] batches@[k]) == batch_rows(
                        self.batches@[k],
                    ) && batch_width(batches@[k]) == batch_width(self.batches@[k]),
            decreases self.batches@.len() - i,
        {
            batches.push(share(&self.batches[i]));
            i = i + 1;
        }
        DataPage { key, window: self.window, batches, byte_size: self.byte_size }
    }
}

/// The pages of a dataset cover its rows without gap or overlap: every row
/// stands in the window of exactly one page.
pub proof fn law_pages_tile_rows(total_rows: u64, row: u64)
    requires
        row < total_rows,
    ensures
        (row / PAGE_ROWS) < pages_for(total_rows),
        page_start(row / PAGE_ROWS) <= row < page_start(row / PAGE_ROWS) + page_len(
            row / PAGE_ROWS,
            total_rows,
        ),
        forall|page: u64|
            #![trigger page_start(page)]
            page_start(page) <= row < page_start(page) + page_len(page, total_rows) ==> page == row
                / PAGE_ROWS,
{
    assert forall|page: u64|
        #![trigger page_start(page)]
        page_start(page) <= row < page_start(page) + page_len(page, total_rows) implies page == row
        / PAGE_ROWS by {
        assert(page_start(page) < total_rows);
    }
}

/// A page that starts within the dataset holds at least one row, and ends
/// where the next page starts or where the dataset ends.
pub proof fn law_page_ends_where_next_starts(total_rows: u64, page: u64)
    requires
        page < pages_for(total_rows),
    ensures
        page_len(page, total_rows) >= 1,
        page_start(page) + page_len(page, total_rows) == smaller(
            (page + 1) * PAGE_ROWS,
            total_rows as int,
        ),
{
}

/// Sizes add up one by one.
pub proof fn law_sizes_add_up(sizes: Seq<usize>, size: usize)
    ensures
        size_sum(Seq::<usize>::empty()) == 0,
        size_sum(sizes.push(size)) == size_sum(sizes) + size,
{
    assert(sizes.push(size).drop_last() =~= sizes);
}

} // verus!

//! The pages that the grid holds, the oldest ones giving way to new ones.

use crate::page::DataPage;
use crate::results::{locate, located};
use crate::runtime::{PageOutcome, PageResponse};
use crate::state::GridState;
use crate::text::{cat, cat3, decimal, decimal_text};
use vstd::prelude::*;

verus! {

broadcast use vstd::std_specs::btree::group_btree_axioms;

/// How many pages the grid holds.
pub const MAX_UI_PAGES: usize = 8;

/// The pages of the grid with their numbers, the one that came first in front.
#[derive(Debug)]
pub struct GridPages {
    pages: Vec<(u64, DataPage)>,
}

impl View for GridPages {
    type V = Seq<(u64, DataPage)>;

    closed spec fn view(&self) -> Seq<(u64, DataPage)> {
        self.pages@
    }
}

/// The pages without the one of this number.
pub open spec fn other_pages(pages: Seq<(u64, DataPage)>, index: u64) -> Seq<(u64, DataPage)>
    decreases pages.len(),
{
    if pages.len() == 0 {
        Seq::empty()
    } else if pages.last().0 == index {
        other_pages(pages.drop_last(), index)
    } else {
        other_pages(pages.drop_last(), index).push(pages.last())
    }
}

/// Where the page of this number stands.
pub open spec fn page_place(pages: Seq<(u64, DataPage)>, index: u64, from: int) -> Option<int>
    decreases pages.len() - from,
{
    if from < 0 || from >= pages.len() {
        None
    } else if pages[from].0 == index {
        Some(from)
    } else {
        page_place(pages, index, from + 1)
    }
}

/// The pages once another one has come.
pub open spec fn with_page(
    pages: Seq<(u64, DataPage)>,
    index: u64,
    page: DataPage,
) -> Seq<(u64, DataPage)> {
    let all = other_pages(pages, index).push((index, page));
    if all.len() > MAX_UI_PAGES {
        all.drop_first()
    } else {
        all
    }
}

/// The number of the page that has to go when another one comes.
pub open spec fn page_leaving(pages: Seq<(u64, DataPage)>, index: u64) -> Option<u64> {
    let others = other_pages(pages, index);
    if others.len() >= MAX_UI_PAGES {
        Some(others[0].0)
    } else {
        None
    }
}

proof fn lemma_other_pages(pages: Seq<(u64, DataPage)>, index: u64)
    ensures
        other_pages(pages, index).len() <= pages.len(),
    decreases pages.len(),
{
    if pages.len() > 0 {
        lemma_other_pages(pages.drop_last(), index);
    }
}

/// What the answer to a page request, or that none will come, does to the pages
/// and to the grid, and what the user is told.
pub open spec fn answered(
    before: Seq<(u64, DataPage)>,
    after: Seq<(u64, DataPage)>,
    grid_before: GridState,
    grid_after: GridState,
    index: u64,
    response: Option<PageResponse>,
    status: Option<Seq<char>>,
) -> bool {
    &&& grid_after == (GridState {
        requested: grid_after.requested,
        loaded: grid_after.loaded,
        ..grid_before
    })
    &&& match response {
        Some(answer) => if answer.generation_id != grid_before.generation {
            status is None && after == before && grid_after == grid_before
        } else {
            &&& grid_after.requested@ == grid_before.requested@.remove(index)
            &&& match answer.outcome {
                PageOutcome::Loaded(page) => status is None && after == with_page(
                    before,
                    index,
                    page,
                ) && grid_after.loaded@ == match page_leaving(before, index) {
                    Some(oldest) => grid_before.loaded@.insert(index).remove(oldest),
                    None => grid_before.loaded@.insert(index),
                },
                outcome => after == before && grid_after.loaded@ == grid_before.loaded@ && status
                    == match outcome {
                    PageOutcome::Cancelled => None,
                    PageOutcome::ReadFailed(error) => Some(
                        "load page "@ + decimal(index as nat) + ": "@ + error@,
                    ),
                    _ => Some("unexpected response for page "@ + decimal(index as nat)),
                },
            }
        },
        None => after == before && grid_after.requested@ == grid_before.requested@.remove(index)
            && grid_after.loaded@ == grid_before.loaded@ && status == Some(
            "background page worker stopped"@,
        ),
    }
}

impl GridPages {
    /// No more pages are held than may be.
    pub open spec fn wf(&self) -> bool {
        self@.len() <= MAX_UI_PAGES
    }

    pub fn new() -> (pages: Self)
        ensures
            pages.wf(),
            pages@ == Seq::<(u64, DataPage)>::empty(),
    {
        GridPages { pages: Vec::new() }
    }

    pub fn len(&self) -> (len: usize)
        ensures
            len == self@.len(),
    {
        self.pages.len()
    }

    /// Drops all pages.
    pub fn clear(&mut self)
        ensures
            final(self).wf(),
            final(self)@ == Seq::<(u64, DataPage)>::empty(),
    {
        self.pages = Vec::new();
    }

    /// The page of this number.
    pub fn get(&self, index: u64) -> (page: Option<&DataPage>)
        ensures
            match page {
                Some(page) => page_place(self@, index, 0) matches Some(place) && *page
                    == self@[place].1,
                None => page_place(self@, index, 0) is None,
            },
    {
        let mut i: usize = 0;
        while i < self.pages.len()
            invariant
                i <= self.pages@.len(),
                page_place(self.pages@, index, 0) == page_place(self.pages@, index, i as int),
            decreases self.pages@.len() - i,
        {
            if self.pages[i].0 == index {
                return Some(&self.pages[i].1);
            }
            i = i + 1;
        }
        None
    }

    /// The pages at a place, for those that go through all of them.
    pub fn page_at(&self, place: usize) -> (page: &DataPage)
        requires
            place < self@.len(),
        ensures
            *page == self@[place as int].1,
    {
        &self.pages[place].1
    }

    /// Takes in a page. Where it displaces another one, that one is not loaded any
    /// more.
    pub fn insert_page(&mut self, index: u64, page: DataPage, grid: &mut GridState)
        requires
            old(self).wf(),
        ensures
            final(self).wf(),
            final(self)@ == with_page(old(self)@, index, page),
            final(grid).loaded@ == match page_leaving(old(self)@, index) {
                Some(oldest) => old(grid).loaded@.remove(oldest),
                None => old(grid).loaded@,
            },
            *final(grid) == (GridState { loaded: final(grid).loaded, ..*old(grid) }),
    {
        let ghost all = self.pages@;
        let ghost mut done: int = 0;
        let mut i: usize = 0;
        assert(all.skip(0) =~= all);
        assert(self.pages@.take(0) =~= other_pages(all.take(0), index));
        while i < self.pages.len()
            invariant
                i <= self.pages@.len(),
                0 <= done <= all.len(),
                all == old(self)@,
                *grid == *old(grid),
                self.pages@.take(i as int) == other_pages(all.take(done), index),
                self.pages@.skip(i as int) == all.skip(done),
            decreases self.pages@.len() - i,
        {
            let ghost before = self.pages@;
            proof {
                assert(before.skip(i as int).len() == all.skip(done).len());
                assert(done < all.len());
                assert(before.skip(i as int)[0] == all.skip(done)[0]);
                assert(all.take(done + 1).drop_last() =~= all.take(done));
                assert(all.take(done + 1).last() == before[i as int]);
                assert(all.skip(done).skip(1) =~= all.skip(done + 1));
            }
            if self.pages[i].0 == index {
                self.pages.remove(i);
                proof {
                    assert(self.pages@.take(i as int) =~= before.take(i as int));
                    assert(self.pages@.skip(i as int) =~= before.skip(i as int).skip(1));
                }
            } else {
                i = i + 1;
                proof {
                    assert(self.pages@.take(i as int) =~= before.take(i - 1).push(before[i - 1]));
                    assert(self.pages@.skip(i as int) =~= before.skip(i - 1).skip(1));
                }
            }
            proof {
                done = done + 1;
            }
        }
        proof {
            assert(self.pages@.skip(i as int).len() == 0);
            assert(all.take(done) =~= all);
            assert(self.pages@.take(i as int) =~= self.pages@);
            lemma_other_pages(all, index);
        }
        let ghost others = self.pages@;
        self.pages.push((index, page));
        if self.pages.len() > MAX_UI_PAGES {
            let oldest: u64 = self.pages[0].0;
            let ghost longer = self.pages@;
            self.pages.remove(0);
            assert(self.pages@ =~= longer.drop_first());
            grid.loaded.remove(&oldest);
        }
    }

    /// Where a row stands: its place in the batches of the page of this number.
    pub fn locate_row(&self, index: u64, row: u64) -> (place: Option<(usize, usize)>)
        ensures
            match (page_place(self@, index, 0), place) {
                (Some(at), Some((batch, offset))) => row >= self@[at].1.window.first_row && row
                    - self@[at].1.window.first_row <= usize::MAX && located(
                    self@[at].1.batches@,
                    0,
                    row - self@[at].1.window.first_row,
                ) == Some((batch as int, offset as int)),
                (Some(at), None) => row < self@[at].1.window.first_row || row
                    - self@[at].1.window.first_row > usize::MAX || located(
                    self@[at].1.batches@,
                    0,
                    row - self@[at].1.window.first_row,
                ) is None,
                (None, place) => place is None,
            },
    {
        let page = match self.get(index) {
            Some(page) => page,
            None => return None,
        };
        if row < page.window.first_row {
            return None;
        }
        let offset: u64 = row - page.window.first_row;
        if offset > usize::MAX as u64 {
            return None;
        }
        locate(&page.batches, offset as usize)
    }

    /// Takes in the answer to a page request, or that no answer will come, and says
    /// what the user is told. An answer for a dataset that has gone is dropped.
    pub fn apply_response(
        &mut self,
        grid: &mut GridState,
        index: u64,
        response: Option<PageResponse>,
    ) -> (status: Option<String>)
        requires
            old(self).wf(),
        ensures
            final(self).wf(),
            answered(
                old(self)@,
                final(self)@,
                *old(grid),
                *final(grid),
                index,
                response,
                match status {
                    Some(text) => Some(text@),
                    None => None,
                },
            ),
    {
        let answer = match response {
            Some(answer) => answer,
            None => {
                grid.requested.remove(&index);
                return Some("background page worker stopped".to_owned());
            },
        };
        if answer.is_stale_for(grid.generation) {
            return None;
        }
        match answer.outcome {
            PageOutcome::Loaded(page) => {
                grid.accept_page(answer.generation_id, index);
                self.insert_page(index, page, grid);
                None
            },
            PageOutcome::Cancelled => {
                grid.requested.remove(&index);
                None
            },
            PageOutcome::ReadFailed(error) => {
                grid.requested.remove(&index);
                let head = cat3("load page ", decimal_text(index).as_str(), ": ");
                Some(cat(head.as_str(), error.as_str()))
            },
            _ => {
                grid.requested.remove(&index);
                Some(cat("unexpected response for page ", decimal_text(index).as_str()))
            },
        }
    }
}

/// However many pages come, the grid holds no more than [`MAX_UI_PAGES`], the one
/// that came last among them.
pub proof fn law_grid_pages_are_bounded(
    pages: Seq<(u64, DataPage)>,
    index: u64,
    page: DataPage,
)
    requires
        pages.len() <= MAX_UI_PAGES,
    ensures
        with_page(pages, index, page).len() <= MAX_UI_PAGES,
        with_page(pages, index, page).last() == (index, page),
{
    lemma_other_pages(pages, index);
}

/// A page takes the place of the one of its own number only: all others stay, in their
/// order.
pub proof fn law_other_page_numbers_stay(pages: Seq<(u64, DataPage)>, index: u64)
    ensures
        other_pages(pages, index) == pages.filter(|held: (u64, DataPage)| held.0 != index),
    decreases pages.len(),
{
    reveal(Seq::filter);
    if pages.len() > 0 {
        law_other_page_numbers_stay(pages.drop_last(), index);
    } else {
        assert(other_pages(pages, index) =~= pages.filter(
            |held: (u64, DataPage)| held.0 != index,
        ));
    }
}

/// A page that is held is found under its number, and nothing is found under any other.
pub proof fn law_page_is_found_by_its_number(pages: Seq<(u64, DataPage)>, index: u64, from: int)
    requires
        0 <= from <= pages.len(),
    ensures
        match page_place(pages, index, from) {
            Some(place) => from <= place < pages.len() && pages[place].0 == index && forall|k: int|
                from <= k < place ==> (#[trigger] pages[k]).0 != index,
            None => forall|k: int|
                from <= k < pages.len() ==> (#[trigger] pages[k]).0 != index,
        },
    decreases pages.len() - from,
{
    if from < pages.len() && pages[from].0 != index {
        law_page_is_found_by_its_number(pages, index, from + 1);
    }
}

/// Where a page comes and there is no room, the page that came first leaves, and it is the
/// one that is said to leave; no other page does.
pub proof fn law_oldest_page_leaves(pages: Seq<(u64, DataPage)>, index: u64, page: DataPage)
    requires
        pages.len() <= MAX_UI_PAGES,
    ensures
        ({
            let held = pages.filter(|held: (u64, DataPage)| held.0 != index).push((index, page));
            match page_leaving(pages, index) {
                Some(oldest) => held.len() == MAX_UI_PAGES + 1 && held[0].0 == oldest
                    && held =~= seq![held[0]] + with_page(pages, index, page),
                None => held.len() <= MAX_UI_PAGES && held == with_page(pages, index, page),
            }
        }),
{
    law_other_page_numbers_stay(pages, index);
    lemma_other_pages(pages, index);
}

/// A page that comes is there afterwards and no longer on its way; one of an earlier dataset
/// changes nothing, and neither does an answer without a page, but that it is no longer on
/// its way.
pub proof fn law_answered_page_is_there(
    before: Seq<(u64, DataPage)>,
    after: Seq<(u64, DataPage)>,
    grid_before: GridState,
    grid_after: GridState,
    index: u64,
    response: PageResponse,
    status: Option<Seq<char>>,
)
    requires
        before.len() <= MAX_UI_PAGES,
        answered(before, after, grid_before, grid_after, index, Some(response), status),
    ensures
        response.generation_id != grid_before.generation ==> after == before && grid_after
            == grid_before,
        response.generation_id == grid_before.generation ==> {
            &&& !grid_after.requested@.contains(index)
            &&& forall|other: u64|
                other != index ==> (grid_after.requested@.contains(other)
                    <==> grid_before.requested@.contains(other))
            &&& response.outcome matches PageOutcome::Loaded(page) ==> after.last() == (index, page)
                && after.len() <= MAX_UI_PAGES && status is None
            &&& !(response.outcome is Loaded) ==> after == before && grid_after.loaded@
                == grid_before.loaded@
        },
{
    if let PageOutcome::Loaded(page) = response.outcome {
        law_grid_pages_are_bounded(before, index, page);
    }
}

} // verus!

//! A cache of decoded pages that forgets the page used longest ago.

use std::collections::VecDeque;

use crate::page::{same_page, DataPage, PageKey};
use vstd::prelude::*;

verus! {

pub const DEFAULT_MAX_PAGES: usize = 8;

pub const DEFAULT_MAX_BYTES: usize = 134_217_728;

/// How many pages and bytes a cache may hold.
#[derive(Clone, Copy, Debug, PartialEq, Eq, Structural)]
pub struct PageCacheLimits {
    pub max_pages: usize,
    pub max_bytes: usize,
}

impl Default for PageCacheLimits {
    fn default() -> (limits: Self)
        ensures
            limits.max_pages == DEFAULT_MAX_PAGES,
            limits.max_bytes == DEFAULT_MAX_BYTES,
    {
        PageCacheLimits { max_pages: DEFAULT_MAX_PAGES, max_bytes: DEFAULT_MAX_BYTES }
    }
}

/// Observable cache counters for diagnostics and reproducible benchmarks.
#[derive(Clone, Copy, Debug, Default, PartialEq, Eq, Structural)]
pub struct PageCacheStats {
    pub hits: u64,
    pub misses: u64,
    pub entries: usize,
    pub bytes: usize,
}

/// The cached pages, the one used longest ago first.
#[derive(Debug)]
pub struct PageCache {
    limits: PageCacheLimits,
    bytes: usize,
    entries: VecDeque<DataPage>,
    hits: u64,
    misses: u64,
}

/// The sizes of the pages, added up.
pub open spec fn total_bytes(pages: Seq<DataPage>) -> nat
    decreases pages.len(),
{
    if pages.len() == 0 {
        0
    } else {
        total_bytes(pages.drop_last()) + pages.last().byte_size as nat
    }
}

/// Whether no two pages have the same key.
pub open spec fn keys_distinct(pages: Seq<DataPage>) -> bool {
    forall|i: int, j: int| 0 <= i < j < pages.len() ==> pages[i].key@ != pages[j].key@
}

/// Whether a page with this key is among `pages`.
pub open spec fn holds_key(pages: Seq<DataPage>, key: (u64, Seq<usize>)) -> bool {
    exists|i: int| 0 <= i < pages.len() && (#[trigger] pages[i]).key@ == key
}

/// The pages whose key is not `key`.
pub open spec fn without_key(pages: Seq<DataPage>, key: (u64, Seq<usize>)) -> Seq<DataPage>
    decreases pages.len(),
{
    if pages.len() == 0 {
        pages
    } else if pages.last().key@ == key {
        without_key(pages.drop_last(), key)
    } else {
        without_key(pages.drop_last(), key).push(pages.last())
    }
}

/// What is left of `pages` when pages leave at the front until both limits hold.
pub open spec fn evicted(pages: Seq<DataPage>, limits: PageCacheLimits) -> Seq<DataPage>
    decreases pages.len(),
{
    if pages.len() > 0 && (pages.len() > limits.max_pages || total_bytes(pages)
        > limits.max_bytes) {
        evicted(pages.drop_first(), limits)
    } else {
        pages
    }
}

/// One more, unless the counter is full.
pub open spec fn counted(n: u64) -> u64 {
    if n == u64::MAX {
        u64::MAX
    } else {
        (n + 1) as u64
    }
}

proof fn lemma_total_concat(a: Seq<DataPage>, b: Seq<DataPage>)
    ensures
        total_bytes(a + b) == total_bytes(a) + total_bytes(b),
    decreases b.len(),
{
    if b.len() == 0 {
        assert(a + b =~= a);
    } else {
        lemma_total_concat(a, b.drop_last());
        assert((a + b).drop_last() =~= a + b.drop_last());
    }
}

proof fn lemma_total_one(page: DataPage)
    ensures
        total_bytes(seq![page]) == page.byte_size,
{
    assert(seq![page].drop_last() =~= Seq::<DataPage>::empty());
    assert(total_bytes(Seq::<DataPage>::empty()) == 0);
}

proof fn lemma_total_remove(pages: Seq<DataPage>, i: int)
    requires
        0 <= i < pages.len(),
    ensures
        total_bytes(pages.remove(i)) + pages[i].byte_size == total_bytes(pages),
{
    let a = pages.take(i);
    let b = pages.skip(i + 1);
    assert(pages =~= a + (seq![pages[i]] + b));
    assert(pages.remove(i) =~= a + b);
    lemma_total_concat(a, seq![pages[i]] + b);
    lemma_total_concat(seq![pages[i]], b);
    lemma_total_concat(a, b);
    lemma_total_one(pages[i]);
}

proof fn lemma_without_absent(pages: Seq<DataPage>, key: (u64, Seq<usize>))
    requires
        !holds_key(pages, key),
    ensures
        without_key(pages, key) == pages,
    decreases pages.len(),
{
    if pages.len() > 0 {
        let init = pages.drop_last();
        if holds_key(init, key) {
            let i = choose|i: int| 0 <= i < init.len() && (#[trigger] init[i]).key@ == key;
            assert(pages[i].key@ == key);
        }
        lemma_without_absent(init, key);
        assert(pages[pages.len() - 1].key@ != key);
        assert(init.push(pages.last()) =~= pages);
    }
}

proof fn lemma_without_is_remove(pages: Seq<DataPage>, key: (u64, Seq<usize>), i: int)
    requires
        keys_distinct(pages),
        0 <= i < pages.len(),
        pages[i].key@ == key,
    ensures
        without_key(pages, key) == pages.remove(i),
    decreases pages.len(),
{
    let init = pages.drop_last();
    if i == pages.len() - 1 {
        if holds_key(init, key) {
            let k = choose|k: int| 0 <= k < init.len() && (#[trigger] init[k]).key@ == key;
            assert(pages[k].key@ != pages[i].key@);
        }
        lemma_without_absent(init, key);
        assert(pages.remove(i) =~= init);
    } else {
        assert(keys_distinct(init));
        assert(init[i].key@ == key);
        lemma_without_is_remove(init, key, i);
        assert(pages[i].key@ != pages[pages.len() - 1].key@);
        assert(pages.remove(i) =~= init.remove(i).push(pages.last()));
    }
}

proof fn lemma_without_holds(pages: Seq<DataPage>, key: (u64, Seq<usize>))
    ensures
        !holds_key(without_key(pages, key), key),
        without_key(pages, key).len() <= pages.len(),
        total_bytes(without_key(pages, key)) <= total_bytes(pages),
        forall|i: int|
            0 <= i < without_key(pages, key).len() ==> pages.contains(
                #[trigger] without_key(pages, key)[i],
            ),
    decreases pages.len(),
{
    if pages.len() > 0 {
        let init = pages.drop_last();
        lemma_without_holds(init, key);
        let rest = without_key(init, key);
        let all = without_key(pages, key);
        if pages.last().key@ != key {
            assert(all.drop_last() =~= rest);
            assert(all.last() == pages.last());
            if holds_key(all, key) {
                let k = choose|k: int| 0 <= k < all.len() && (#[trigger] all[k]).key@ == key;
                assert(rest[k].key@ == key);
            }
        }
        assert forall|i: int| 0 <= i < all.len() implies pages.contains(#[trigger] all[i]) by {
            if i < rest.len() {
                assert(init.contains(rest[i]));
                let k = choose|k: int| 0 <= k < init.len() && init[k] == rest[i];
                assert(pages[k] == all[i]);
            } else {
                assert(pages[pages.len() - 1] == all[i]);
            }
        }
    }
}

proof fn lemma_evicted_suffix(pages: Seq<DataPage>, limits: PageCacheLimits)
    ensures
        evicted(pages, limits).len() <= pages.len(),
        evicted(pages, limits) == pages.skip(pages.len() - evicted(pages, limits).len()),
        evicted(pages, limits).len() <= limits.max_pages,
        total_bytes(evicted(pages, limits)) <= limits.max_bytes,
        keys_distinct(pages) ==> keys_distinct(evicted(pages, limits)),
        pages.len() > 0 && limits.max_pages > 0 && pages.last().byte_size <= limits.max_bytes
            ==> evicted(pages, limits).len() > 0 && evicted(pages, limits).last() == pages.last(),
    decreases pages.len(),
{
    if pages.len() > 0 && (pages.len() > limits.max_pages || total_bytes(pages)
        > limits.max_bytes) {
        let rest = pages.drop_first();
        lemma_evicted_suffix(rest, limits);
        let left = evicted(pages, limits);
        assert(left =~= pages.skip(pages.len() - left.len()));
        if pages.len() == 1 {
            assert(pages =~= seq![pages[0]]);
            lemma_total_one(pages[0]);
        }
        if keys_distinct(pages) {
            assert forall|i: int, j: int| 0 <= i < j < rest.len() implies rest[i].key@
                != rest[j].key@ by {
                assert(pages[i + 1].key@ != pages[j + 1].key@);
            }
        }
    } else {
        assert(pages =~= pages.skip(0));
    }
}

impl PageCache {
    /// The cached pages, the one used longest ago first.
    pub closed spec fn pages(&self) -> Seq<DataPage> {
        self.entries@
    }

    /// The limits in force.
    pub closed spec fn bounds(&self) -> PageCacheLimits {
        self.limits
    }

    /// How many lookups found their page.
    pub closed spec fn hit_count(&self) -> u64 {
        self.hits
    }

    /// How many lookups found nothing.
    pub closed spec fn miss_count(&self) -> u64 {
        self.misses
    }

    /// Both limits hold, no page is held twice, and the byte counter is right.
    pub closed spec fn wf(&self) -> bool {
        &&& self.limits.max_pages > 0
        &&& self.entries@.len() <= self.limits.max_pages
        &&& self.bytes == total_bytes(self.entries@)
        &&& self.bytes <= self.limits.max_bytes
        &&& keys_distinct(self.entries@)
    }

    pub fn new(limits: PageCacheLimits) -> (cache: Self)
        ensures
            cache.wf(),
            cache.pages().len() == 0,
            cache.bounds().max_pages == if limits.max_pages == 0 {
                1
            } else {
                limits.max_pages
            },
            cache.bounds().max_bytes == limits.max_bytes,
            cache.hit_count() == 0,
            cache.miss_count() == 0,
    {
        let max_pages: usize = if limits.max_pages == 0 {
            1
        } else {
            limits.max_pages
        };
        PageCache {
            limits: PageCacheLimits { max_pages, max_bytes: limits.max_bytes },
            bytes: 0,
            entries: VecDeque::new(),
            hits: 0,
            misses: 0,
        }
    }

    fn position(&self, key: &PageKey) -> (found: Option<usize>)
        ensures
            match found {
                Some(index) => index < self.entries@.len() && self.entries@[index as int].key@
                    == key@,
                None => !holds_key(self.entries@, key@),
            },
    {
        let mut index: usize = 0;
        while index < self.entries.len()
            invariant
                index <= self.entries@.len(),
                forall|k: int| 0 <= k < index ==> (#[trigger] self.entries@[k]).key@ != key@,
            decreases self.entries@.len() - index,
        {
            if self.entries[index].key.same_as(key) {
                return Some(index);
            }
            index = index + 1;
        }
        None
    }

    /// Looks a page up and marks it as the one used last.
    pub fn get(&mut self, key: &PageKey) -> (found: Option<DataPage>)
        requires
            old(self).wf(),
        ensures
            final(self).wf(),
            final(self).bounds() == old(self).bounds(),
            found is Some <==> holds_key(old(self).pages(), key@),
            match found {
                Some(page) => {
                    &&& final(self).hit_count() == counted(old(self).hit_count())
                    &&& final(self).miss_count() == old(self).miss_count()
                    &&& exists|index: int|
                        0 <= index < old(self).pages().len() && (
                        #[trigger] old(self).pages()[index]).key@ == key@ && same_page(
                            page,
                            old(self).pages()[index],
                        ) && final(self).pages() == old(self).pages().remove(index).push(
                            old(self).pages()[index],
                        )
                },
                None => {
                    &&& final(self).miss_count() == counted(old(self).miss_count())
                    &&& final(self).hit_count() == old(self).hit_count()
                    &&& final(self).pages() == old(self).pages()
                },
            },
    {
        let ghost before = self.entries@;
        match self.position(key) {
            None => {
                self.misses = self.misses.saturating_add(1);
                None
            },
            Some(index) => {
                match self.entries.remove(index) {
                    Some(page) => {
                        let copy = page.copy();
                        self.entries.push_back(page);
                        self.hits = self.hits.saturating_add(1);
                        proof {
                            let i = index as int;
                            lemma_total_remove(before, i);
                            lemma_total_concat(before.remove(i), seq![before[i]]);
                            lemma_total_one(before[i]);
                            let after = before.remove(i).push(before[i]);
                            assert(after =~= before.remove(i) + seq![before[i]]);
                            assert(keys_distinct(after)) by {
                                assert forall|a: int, b: int|
                                    0 <= a < b < after.len() implies after[a].key@
                                    != after[b].key@ by {
                                    let a1 = if a < i {
                                        a
                                    } else {
                                        a + 1
                                    };
                                    let b1 = if b == after.len() - 1 {
                                        i
                                    } else if b < i {
                                        b
                                    } else {
                                        b + 1
                                    };
                                    assert(after[a] == before[a1]);
                                    assert(after[b] == before[b1]);
                                    assert(a1 != b1);
                                    if a1 < b1 {
                                        assert(before[a1].key@ != before[b1].key@);
                                    } else {
                                        assert(before[b1].key@ != before[a1].key@);
                                    }
                                }
                            }
                            assert(old(self).pages()[i].key@ == key@);
                            assert(self.pages() == old(self).pages().remove(i).push(
                                old(self).pages()[i],
                            ));
                        }
                        Some(copy)
                    },
                    None => None,
                }
            },
        }
    }

    /// Stores a page as the one used last, and says whether it was kept. A page
    /// above the byte limit is not kept; either way an older page with the same
    /// key leaves.
    pub fn insert(&mut self, page: DataPage) -> (kept: bool)
        requires
            old(self).wf(),
            page.byte_size <= old(self).bounds().max_bytes ==> total_bytes(
                without_key(old(self).pages(), page.key@),
            ) + page.byte_size <= usize::MAX,
        ensures
            final(self).wf(),
            final(self).bounds() == old(self).bounds(),
            final(self).hit_count() == old(self).hit_count(),
            final(self).miss_count() == old(self).miss_count(),
            kept == (page.byte_size <= old(self).bounds().max_bytes),
            kept ==> final(self).pages() == evicted(
                without_key(old(self).pages(), page.key@).push(page),
                old(self).bounds(),
            ) && final(self).pages().last() == page,
            !kept ==> final(self).pages() == without_key(old(self).pages(), page.key@),
    {
        let ghost before = self.entries@;
        self.remove(&page.key);
        proof {
            lemma_without_holds(before, page.key@);
        }
        if page.byte_size > self.limits.max_bytes {
            return false;
        }
        let ghost rest = self.entries@;
        self.bytes = self.bytes + page.byte_size;
        self.entries.push_back(page);
        proof {
            lemma_total_concat(rest, seq![page]);
            lemma_total_one(page);
            assert(rest.push(page) =~= rest + seq![page]);
            assert forall|i: int, j: int| 0 <= i < j < rest.push(page).len() implies rest.push(
                page,
            )[i].key@ != rest.push(page)[j].key@ by {
                if j < rest.len() {
                    assert(rest[i].key@ != rest[j].key@);
                } else {
                    assert(rest[i].key@ != page.key@);
                }
            }
            lemma_evicted_suffix(rest.push(page), self.limits);
        }
        self.evict();
        true
    }

    /// Whether the bytes of the held pages and of this one can be counted, or the
    /// page is above the byte limit.
    pub(crate) fn has_room(&self, page: &DataPage) -> (room: bool)
        requires
            self.wf(),
        ensures
            room == (page.byte_size > self.bounds().max_bytes || total_bytes(self.pages())
                + page.byte_size <= usize::MAX),
            room && page.byte_size <= self.bounds().max_bytes ==> total_bytes(
                without_key(self.pages(), page.key@),
            ) + page.byte_size <= usize::MAX,
    {
        proof {
            lemma_without_holds(self.entries@, page.key@);
        }
        page.byte_size > self.limits.max_bytes || page.byte_size <= usize::MAX - self.bytes
    }

    pub fn len(&self) -> (entries: usize)
        ensures
            entries == self.pages().len(),
    {
        self.entries.len()
    }

    pub fn bytes(&self) -> (bytes: usize)
        requires
            self.wf(),
        ensures
            bytes == total_bytes(self.pages()),
    {
        self.bytes
    }

    pub fn is_empty(&self) -> (empty: bool)
        ensures
            empty == (self.pages().len() == 0),
    {
        self.entries.len() == 0
    }

    pub fn stats(&self) -> (stats: PageCacheStats)
        requires
            self.wf(),
        ensures
            stats.hits == self.hit_count(),
            stats.misses == self.miss_count(),
            stats.entries == self.pages().len(),
            stats.bytes == total_bytes(self.pages()),
    {
        PageCacheStats {
            hits: self.hits,
            misses: self.misses,
            entries: self.len(),
            bytes: self.bytes,
        }
    }

    fn remove(&mut self, key: &PageKey)
        requires
            old(self).wf(),
        ensures
            final(self).wf(),
            final(self).limits == old(self).limits,
            final(self).hits == old(self).hits,
            final(self).misses == old(self).misses,
            final(self).entries@ == without_key(old(self).entries@, key@),
    {
        let ghost before = self.entries@;
        match self.position(key) {
            Some(index) => {
                proof {
                    lemma_total_remove(before, index as int);
                    lemma_without_is_remove(before, key@, index as int);
                    let after = before.remove(index as int);
                    assert forall|a: int, b: int| 0 <= a < b < after.len() implies after[a].key@
                        != after[b].key@ by {
                        let a1 = if a < index {
                            a
                        } else {
                            a + 1
                        };
                        let b1 = if b < index {
                            b
                        } else {
                            b + 1
                        };
                        assert(before[a1].key@ != before[b1].key@);
                    }
                }
                match self.entries.remove(index) {
                    Some(page) => {
                        self.bytes = self.bytes.saturating_sub(page.byte_size);
                    },
                    None => {},
                }
            },
            None => {
                proof {
                    lemma_without_absent(before, key@);
                }
            },
        }
    }

    fn evict(&mut self)
        requires
            old(self).limits.max_pages > 0,
            old(self).bytes == total_bytes(old(self).entries@),
            keys_distinct(old(self).entries@),
        ensures
            final(self).wf(),
            final(self).limits == old(self).limits,
            final(self).hits == old(self).hits,
            final(self).misses == old(self).misses,
            final(self).entries@ == evicted(old(self).entries@, old(self).limits),
    {
        let ghost before = self.entries@;
        proof {
            lemma_evicted_suffix(before, self.limits);
        }
        while self.entries.len() > self.limits.max_pages || self.bytes > self.limits.max_bytes
            invariant
                self.limits == old(self).limits,
                self.hits == old(self).hits,
                self.misses == old(self).misses,
                self.bytes == total_bytes(self.entries@),
                evicted(self.entries@, self.limits) == evicted(before, self.limits),
            decreases self.entries@.len(),
        {
            let ghost pages = self.entries@;
            match self.entries.pop_front() {
                Some(page) => {
                    proof {
                        lemma_total_remove(pages, 0);
                        assert(pages.remove(0) =~= pages.drop_first());
                        assert(self.entries@ =~= pages.drop_first());
                    }
                    self.bytes = self.bytes.saturating_sub(page.byte_size);
                },
                None => {
                    assert(pages.len() == 0);
                    return;
                },
            }
        }
    }
}

impl Default for PageCache {
    fn default() -> (cache: Self)
        ensures
            cache.wf(),
            cache.pages().len() == 0,
            cache.bounds().max_pages == DEFAULT_MAX_PAGES,
            cache.bounds().max_bytes == DEFAULT_MAX_BYTES,
            cache.hit_count() == 0,
            cache.miss_count() == 0,
    {
        Self::new(PageCacheLimits::default())
    }
}

/// Every cache stays within its limits and holds no page twice.
pub proof fn law_cache_is_bounded(cache: &PageCache)
    requires
        cache.wf(),
    ensures
        cache.pages().len() <= cache.bounds().max_pages,
        total_bytes(cache.pages()) <= cache.bounds().max_bytes,
        keys_distinct(cache.pages()),
{
}

/// A page that is kept can be looked up again, and a lookup under any key that
/// the cache did not hold before still finds nothing.
pub proof fn law_insert_then_get(
    pages: Seq<DataPage>,
    page: DataPage,
    limits: PageCacheLimits,
    other: (u64, Seq<usize>),
)
    requires
        limits.max_pages > 0,
        page.byte_size <= limits.max_bytes,
    ensures
        holds_key(evicted(without_key(pages, page.key@).push(page), limits), page.key@),
        other != page.key@ && !holds_key(pages, other) ==> !holds_key(
            evicted(without_key(pages, page.key@).push(page), limits),
            other,
        ),
{
    let rest = without_key(pages, page.key@);
    let all = rest.push(page);
    lemma_evicted_suffix(all, limits);
    lemma_without_holds(pages, page.key@);
    let left = evicted(all, limits);
    assert(left[left.len() - 1].key@ == page.key@);
    if other != page.key@ && holds_key(left, other) {
        let k = choose|k: int| 0 <= k < left.len() && (#[trigger] left[k]).key@ == other;
        let m = k + all.len() - left.len();
        assert(left[k] == all[m]);
        assert(m < rest.len());
        assert(pages.contains(rest[m]));
        let n = choose|n: int| 0 <= n < pages.len() && pages[n] == rest[m];
        assert(pages[n].key@ == other);
    }
}

/// The sizes of pages add up one by one.
pub proof fn law_page_sizes_add_up(pages: Seq<DataPage>, page: DataPage)
    ensures
        total_bytes(Seq::<DataPage>::empty()) == 0,
        total_bytes(pages.push(page)) == total_bytes(pages) + page.byte_size,
{
    assert(pages.push(page).drop_last() =~= pages);
}

/// Pages leave a cache in the order in which they were last used, the oldest first, and
/// only as long as there are more pages or more bytes than there may be.
pub proof fn law_oldest_pages_leave_first(pages: Seq<DataPage>, limits: PageCacheLimits)
    ensures
        exists|gone: int|
            0 <= gone <= pages.len() && evicted(pages, limits) == #[trigger] pages.skip(gone)
                && forall|k: int|
                0 <= k < gone ==> pages.len() - k > limits.max_pages || total_bytes(
                    #[trigger] pages.skip(k),
                ) > limits.max_bytes,
        evicted(pages, limits).len() <= limits.max_pages,
        total_bytes(evicted(pages, limits)) <= limits.max_bytes,
    decreases pages.len(),
{
    lemma_evicted_suffix(pages, limits);
    if pages.len() > 0 && (pages.len() > limits.max_pages || total_bytes(pages)
        > limits.max_bytes) {
        let rest = pages.drop_first();
        law_oldest_pages_leave_first(rest, limits);
        let later = choose|gone: int|
            0 <= gone <= rest.len() && evicted(rest, limits) == #[trigger] rest.skip(gone)
                && forall|k: int|
                0 <= k < gone ==> rest.len() - k > limits.max_pages || total_bytes(
                    #[trigger] rest.skip(k),
                ) > limits.max_bytes;
        assert(pages.skip(later + 1) =~= rest.skip(later));
        assert forall|k: int| 0 <= k < later + 1 implies pages.len() - k > limits.max_pages
            || total_bytes(#[trigger] pages.skip(k)) > limits.max_bytes by {
            if k == 0 {
                assert(pages.skip(0) =~= pages);
            } else {
                assert(pages.skip(k) =~= rest.skip(k - 1));
            }
        }
    } else {
        assert(pages.skip(0) =~= pages);
    }
}

/// A page takes the place of the one with its own key only: all others stay, in their
/// order.
pub proof fn law_other_pages_stay(pages: Seq<DataPage>, key: (u64, Seq<usize>))
    ensures
        without_key(pages, key) == pages.filter(|page: DataPage| page.key@ != key),
    decreases pages.len(),
{
    reveal(Seq::filter);
    if pages.len() > 0 {
        law_other_pages_stay(pages.drop_last(), key);
    }
}

/// A counter grows by one, and stays where it is once it is full.
pub proof fn law_lookups_are_counted(n: u64)
    ensures
        n < u64::MAX ==> counted(n) == n + 1,
        counted(u64::MAX) == u64::MAX,
{
}

} // verus!

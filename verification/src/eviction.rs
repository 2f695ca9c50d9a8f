//! Size cap of the on-disk bundle cache: which files to delete, oldest first,
//! until the cache fits.
use vstd::prelude::*;

verus! {

/// A cached bundle file: when it was last modified (nanoseconds from the
/// Unix epoch, negative before it) and its size in bytes.
#[derive(Clone, Copy)]
pub struct CachedFile {
    pub modified: i128,
    pub len: u64,
}

/// File `a` comes before file `b` in eviction order: it is older, or as old
/// and listed first.
pub open spec fn evicted_before(files: Seq<CachedFile>, a: int, b: int) -> bool {
    files[a].modified < files[b].modified || (files[a].modified == files[b].modified && a < b)
}

/// `order` lists every file once, oldest first (a stable sort by
/// modification time).
pub open spec fn is_eviction_order(files: Seq<CachedFile>, order: Seq<usize>) -> bool {
    &&& order.len() == files.len()
    &&& forall|i: int| 0 <= i < order.len() ==> #[trigger] order[i] < files.len()
    &&& forall|i: int, j: int|
        0 <= i < j < order.len() ==> evicted_before(files, #[trigger] order[i] as int, #[trigger] order[j] as int)
}

/// Sizes of the files, in listing order.
pub open spec fn file_lens(files: Seq<CachedFile>) -> Seq<u64> {
    files.map_values(|f: CachedFile| f.len)
}

/// Sum of the sizes.
pub open spec fn sum_lens(lens: Seq<u64>) -> int
    decreases lens.len(),
{
    if lens.len() == 0 {
        0
    } else {
        sum_lens(lens.drop_last()) + lens.last()
    }
}

/// Total size of the files.
pub open spec fn total_len(files: Seq<CachedFile>) -> int {
    sum_lens(file_lens(files))
}

/// Sum of the sizes of the files at positions `idx`.
pub open spec fn indexed_sum(lens: Seq<u64>, idx: Seq<usize>) -> int
    decreases idx.len(),
{
    if idx.len() == 0 {
        0
    } else {
        indexed_sum(lens, idx.drop_last()) + lens[idx.last() as int]
    }
}

/// Size of the first `k` files of `order`.
pub open spec fn order_prefix_len(lens: Seq<u64>, order: Seq<usize>, k: int) -> int {
    indexed_sum(lens, order.take(k))
}

/// `idx` names distinct positions below `m`.
pub open spec fn distinct_below(idx: Seq<usize>, m: int) -> bool {
    &&& forall|i: int| 0 <= i < idx.len() ==> #[trigger] idx[i] < m
    &&& forall|i: int, j: int| 0 <= i < j < idx.len() ==> #[trigger] idx[i] != #[trigger] idx[j]
}

proof fn lemma_indexed_sum_nonneg(lens: Seq<u64>, idx: Seq<usize>)
    ensures
        indexed_sum(lens, idx) >= 0,
    decreases idx.len(),
{
    if idx.len() > 0 {
        lemma_indexed_sum_nonneg(lens, idx.drop_last());
    }
}

proof fn lemma_sum_lens_prefix(lens: Seq<u64>, m: int)
    requires
        0 <= m <= lens.len(),
    ensures
        0 <= sum_lens(lens.take(m)) <= sum_lens(lens),
    decreases lens.len() - m,
{
    if m < lens.len() {
        lemma_sum_lens_prefix(lens, m + 1);
        assert(lens.take(m + 1).drop_last() =~= lens.take(m));
    } else {
        assert(lens.take(m) =~= lens);
    }
    lemma_sum_lens_nonneg(lens.take(m));
}

proof fn lemma_sum_lens_nonneg(lens: Seq<u64>)
    ensures
        sum_lens(lens) >= 0,
    decreases lens.len(),
{
    if lens.len() > 0 {
        lemma_sum_lens_nonneg(lens.drop_last());
    }
}

proof fn lemma_indexed_sum_remove(lens: Seq<u64>, idx: Seq<usize>, i: int)
    requires
        0 <= i < idx.len(),
    ensures
        indexed_sum(lens, idx) == indexed_sum(lens, idx.remove(i)) + lens[idx[i] as int],
    decreases idx.len(),
{
    if i < idx.len() - 1 {
        lemma_indexed_sum_remove(lens, idx.drop_last(), i);
        assert(idx.drop_last().remove(i) =~= idx.remove(i).drop_last());
        assert(idx.remove(i).last() == idx.last());
    } else {
        assert(idx.remove(i) =~= idx.drop_last());
    }
}

/// Distinct positions below `m` are at most `m`, weigh at most the first `m`
/// files, and exactly that when there are `m` of them.
proof fn lemma_distinct_sum(lens: Seq<u64>, idx: Seq<usize>, m: int)
    requires
        0 <= m <= lens.len(),
        distinct_below(idx, m),
    ensures
        idx.len() <= m,
        indexed_sum(lens, idx) <= sum_lens(lens.take(m)),
        idx.len() == m ==> indexed_sum(lens, idx) == sum_lens(lens.take(m)),
    decreases m,
{
    if m == 0 {
        if idx.len() > 0 {
            assert(idx[0] < 0);
        }
    } else {
        assert(lens.take(m).drop_last() =~= lens.take(m - 1));
        if exists|i: int| 0 <= i < idx.len() && idx[i] == m - 1 {
            let i = choose|i: int| 0 <= i < idx.len() && idx[i] == m - 1;
            let rest = idx.remove(i);
            assert forall|a: int| 0 <= a < rest.len() implies #[trigger] rest[a] < m - 1 by {
                if a < i {
                    assert(rest[a] == idx[a]);
                    assert(idx[a] != idx[i]);
                } else {
                    assert(rest[a] == idx[a + 1]);
                    assert(idx[a + 1] != idx[i]);
                }
            }
            assert forall|a: int, b: int| 0 <= a < b < rest.len() implies #[trigger] rest[a]
                != #[trigger] rest[b] by {
                let a2 = if a < i {
                    a
                } else {
                    a + 1
                };
                let b2 = if b < i {
                    b
                } else {
                    b + 1
                };
                assert(rest[a] == idx[a2] && rest[b] == idx[b2]);
            }
            lemma_distinct_sum(lens, rest, m - 1);
            lemma_indexed_sum_remove(lens, idx, i);
        } else {
            assert forall|a: int| 0 <= a < idx.len() implies #[trigger] idx[a] < m - 1 by {
                assert(idx[a] != m - 1);
            }
            lemma_distinct_sum(lens, idx, m - 1);
            assert(lens[m - 1] >= 0);
        }
    }
}

/// Deleting files in eviction order never takes away more than the cache
/// holds: the first `k` files of any order that lists each file once weigh
/// at most the whole cache, and all of them weigh exactly the whole cache.
pub proof fn lemma_order_prefix_within_total(lens: Seq<u64>, order: Seq<usize>, k: int)
    requires
        order.len() == lens.len(),
        distinct_below(order, lens.len() as int),
        0 <= k <= order.len(),
    ensures
        0 <= order_prefix_len(lens, order, k) <= sum_lens(lens),
        k == order.len() ==> order_prefix_len(lens, order, k) == sum_lens(lens),
{
    let t = order.take(k);
    assert forall|a: int, b: int| 0 <= a < b < t.len() implies #[trigger] t[a] != #[trigger] t[b] by {
        assert(t[a] == order[a] && t[b] == order[b]);
    }
    assert forall|a: int| 0 <= a < t.len() implies #[trigger] t[a] < lens.len() by {
        assert(t[a] == order[a]);
    }
    lemma_distinct_sum(lens, t, lens.len() as int);
    assert(lens.take(lens.len() as int) =~= lens);
    lemma_indexed_sum_nonneg(lens, t);
}

/// When every deletion succeeds, eviction ends with the cache within its
/// cap: once no victim is left (the cache fits, or every file was
/// considered), a cache that lost all the files considered holds at most
/// `cap` bytes.
pub proof fn lemma_successful_eviction_fits(
    lens: Seq<u64>,
    order: Seq<usize>,
    considered: int,
    deleted: int,
    total: int,
    cap: int,
)
    requires
        order.len() == lens.len(),
        distinct_below(order, lens.len() as int),
        0 <= considered <= order.len(),
        deleted == order_prefix_len(lens, order, considered),
        total == sum_lens(lens) - deleted,
        cap >= 0,
        !(total > cap && considered < order.len()),
    ensures
        total <= cap,
{
    lemma_order_prefix_within_total(lens, order, considered);
}

/// An eviction in progress.
pub struct Eviction {
    order: Vec<usize>,
    lens: Vec<u64>,
    cap: u64,
    progress: Progress,
}

/// The part of an eviction that each deletion moves on.
struct Progress {
    total: u64,
    next: usize,
    deleted: Ghost<int>,
}

impl Eviction {
    /// Files in the order they are considered for deletion.
    pub closed spec fn order(&self) -> Seq<usize> {
        self.order@
    }

    /// Sizes of the files, by position in the listing.
    pub closed spec fn lens(&self) -> Seq<u64> {
        self.lens@
    }

    /// Bytes the cache is believed to hold now.
    pub closed spec fn total(&self) -> int {
        self.progress.total as int
    }

    /// The cap in bytes (0: no cap).
    pub closed spec fn cap(&self) -> int {
        self.cap as int
    }

    /// How many files of the order have been considered.
    pub closed spec fn considered(&self) -> int {
        self.progress.next as int
    }

    /// Bytes of the files deleted so far.
    pub closed spec fn deleted(&self) -> int {
        self.progress.deleted@
    }

    #[verifier::type_invariant]
    closed spec fn well_formed(&self) -> bool {
        &&& self.progress.next <= self.order@.len()
        &&& self.order@.len() == self.lens@.len()
        &&& distinct_below(self.order@, self.lens@.len() as int)
        &&& self.progress.total == sum_lens(self.lens@) - self.progress.deleted@
        &&& 0 <= self.progress.deleted@ <= order_prefix_len(self.lens@, self.order@, self.progress.next as int)
    }

    /// Whether the eviction asks for another deletion, and which file.
    pub open spec fn victim_spec(&self) -> Option<usize> {
        if self.cap() == 0 || self.total() <= self.cap() || self.considered() >= self.order().len() {
            None
        } else {
            Some(self.order()[self.considered()])
        }
    }

    /// Starts an eviction of `files` under a cap of `cap` bytes (0: no cap).
    pub fn plan(files: &Vec<CachedFile>, cap: u64) -> (e: Eviction)
        requires
            total_len(files@) <= u64::MAX,
        ensures
            is_eviction_order(files@, e.order()),
            e.lens() == file_lens(files@),
            e.total() == total_len(files@),
            e.cap() == cap,
            e.considered() == 0,
            e.deleted() == 0,
            e.total() == sum_lens(e.lens()) - e.deleted(),
            distinct_below(e.order(), e.lens().len() as int),
    {
        let n = files.len();
        let mut lens: Vec<u64> = Vec::new();
        let mut total: u64 = 0;
        let mut i: usize = 0;
        let ghost all = file_lens(files@);
        while i < n
            invariant
                n == files@.len(),
                i <= n,
                all == file_lens(files@),
                lens@ == all.take(i as int),
                total == sum_lens(all.take(i as int)),
                sum_lens(all) <= u64::MAX,
            decreases n - i,
        {
            proof {
                assert(all.take(i + 1).drop_last() =~= all.take(i as int));
                lemma_sum_lens_prefix(all, i + 1);
            }
            total = total + files[i].len;
            lens.push(files[i].len);
            assert(lens@ =~= all.take(i + 1));
            i = i + 1;
        }
        assert(all.take(n as int) =~= all);
        let order = eviction_order(files);
        proof {
            assert forall|a: int, b: int| 0 <= a < b < order@.len() implies #[trigger] order@[a]
                != #[trigger] order@[b] by {
                assert(evicted_before(files@, order@[a] as int, order@[b] as int));
            }
            assert(order@.take(0) =~= Seq::<usize>::empty());
        }
        Eviction { order, lens, cap, progress: Progress { total, next: 0, deleted: Ghost(0) } }
    }

    /// The next file to delete, or none when the cache fits (or has no cap)
    /// or every file has been considered.
    pub fn next_victim(&self) -> (r: Option<usize>)
        ensures
            r == self.victim_spec(),
            r matches Some(v) ==> v < self.lens().len(),
    {
        proof {
            use_type_invariant(self);
        }
        if self.cap == 0 || self.progress.total <= self.cap || self.progress.next >= self.order.len() {
            None
        } else {
            Some(self.order[self.progress.next])
        }
    }

    /// Records whether deleting the current victim succeeded: the cache then
    /// holds its size less.
    pub fn record_removal(&mut self, removed: bool)
        requires
            old(self).considered() < old(self).order().len(),
        ensures
            final(self).order() == old(self).order(),
            final(self).lens() == old(self).lens(),
            final(self).cap() == old(self).cap(),
            final(self).considered() == old(self).considered() + 1,
            final(self).deleted() == old(self).deleted() + if removed {
                old(self).lens()[old(self).order()[old(self).considered()] as int] as int
            } else {
                0
            },
            final(self).total() == old(self).total() - if removed {
                old(self).lens()[old(self).order()[old(self).considered()] as int] as int
            } else {
                0
            },
            final(self).total() == sum_lens(final(self).lens()) - final(self).deleted(),
            0 <= final(self).deleted() <= order_prefix_len(
                final(self).lens(),
                final(self).order(),
                final(self).considered(),
            ),
    {
        proof {
            use_type_invariant(&*self);
        }
        let n = self.order.len();
        let k = self.progress.next;
        assert(k < n);
        let victim = self.order[k];
        let len = self.lens[victim];
        proof {
            let o = self.order@;
            assert(o.take(k + 1).drop_last() =~= o.take(k as int));
            lemma_order_prefix_within_total(self.lens@, o, k + 1);
        }
        let ghost d = if removed {
            self.progress.deleted@ + len
        } else {
            self.progress.deleted@
        };
        let total = if removed {
            self.progress.total - len
        } else {
            self.progress.total
        };
        proof {
            lemma_indexed_sum_nonneg(self.lens@, self.order@.take(k + 1));
        }
        self.progress = Progress { total, next: k + 1, deleted: Ghost(d) };
    }
}

/// The positions of `files`, oldest first; files equally old keep their
/// listing order (a stable sort by modification time).
pub fn eviction_order(files: &Vec<CachedFile>) -> (order: Vec<usize>)
    ensures
        is_eviction_order(files@, order@),
{
    let n = files.len();
    let mut order: Vec<usize> = Vec::new();
    let mut i: usize = 0;
    while i < n
        invariant
            n == files@.len(),
            i <= n,
            order@.len() == i,
            forall|k: int| 0 <= k < order@.len() ==> #[trigger] order@[k] < i,
            forall|a: int, b: int|
                0 <= a < b < order@.len() ==> evicted_before(files@, #[trigger] order@[a] as int, #[trigger] order@[b] as int),
        decreases n - i,
    {
        let m = files[i].modified;
        let mut p: usize = 0;
        while p < order.len() && files[order[p]].modified <= m
            invariant
                n == files@.len(),
                i < n,
                m == files@[i as int].modified,
                p <= order@.len(),
                forall|k: int| 0 <= k < order@.len() ==> #[trigger] order@[k] < i,
                forall|k: int| 0 <= k < p ==> files@[#[trigger] order@[k] as int].modified <= m,
            decreases order@.len() - p,
        {
            p = p + 1;
        }
        let ghost old_order = order@;
        proof {
            assert forall|k: int| p <= k < old_order.len() implies files@[#[trigger] old_order[k] as int].modified > m by {
                if k > p {
                    assert(evicted_before(files@, old_order[p as int] as int, old_order[k] as int));
                }
            }
        }
        order.insert(p, i);
        proof {
            let o = order@;
            assert(o == old_order.insert(p as int, i));
            assert forall|k: int| 0 <= k < o.len() implies #[trigger] o[k] < i + 1 by {
                if k < p {
                    assert(o[k] == old_order[k]);
                } else if k > p {
                    assert(o[k] == old_order[k - 1]);
                }
            }
            assert forall|a: int, b: int|
                0 <= a < b < o.len() implies evicted_before(files@, #[trigger] o[a] as int, #[trigger] o[b] as int) by {
                if b < p {
                    assert(o[a] == old_order[a] && o[b] == old_order[b]);
                } else if b == p {
                    assert(o[a] == old_order[a]);
                    assert(o[a] < i);
                } else if a == p {
                    assert(o[b] == old_order[b - 1]);
                } else if a < p {
                    assert(o[a] == old_order[a] && o[b] == old_order[b - 1]);
                } else {
                    assert(o[a] == old_order[a - 1] && o[b] == old_order[b - 1]);
                }
            }
        }
        i = i + 1;
    }
    order
}

} // verus!

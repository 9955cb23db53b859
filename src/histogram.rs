//! Folding nearest-centroid assignments into per-item occurrence histograms.
use vstd::prelude::*;
use crate::counts::{CountMatrix, count_cells, zero_cells, zeroed, cell_at, set_cell};

verus! {

/// Why a batch of assignments could not be folded into a histogram.
#[derive(Debug, Clone, Copy, PartialEq, Eq, Structural)]
pub enum BowError {
    /// The centroid ids and the item ids of a batch differ in length.
    LengthMismatch { labels: usize, items: usize },
    /// The item id at `position` of the batch is negative or not below the
    /// number of items.
    ItemOutOfRange { position: usize, item: i64 },
    /// The centroid id at `position` of the batch is not below the
    /// vocabulary size.
    CentroidOutOfRange { position: usize, centroid: i64 },
    /// A batch holds `found` centroid ids where its row range holds
    /// `expected` rows.
    BatchMismatch { expected: usize, found: usize },
    /// The pass would observe more than `u32::MAX` feature vectors, so a
    /// counter could overflow.
    CountOverflow,
}

/// Number of positions `p` with `items[p] == i` and `labels[p] == j`.
pub open spec fn hits(labels: Seq<i64>, items: Seq<i64>, i: int, j: int) -> nat
    decreases labels.len(),
{
    if labels.len() == 0 {
        0
    } else {
        let n = labels.len() - 1;
        hits(labels.take(n), items.take(n), i, j) + if items[n] == i && labels[n] == j {
            1nat
        } else {
            0nat
        }
    }
}

/// Number of positions of item `i` whose centroid id is not the sentinel.
pub open spec fn assigned_to(labels: Seq<i64>, items: Seq<i64>, i: int) -> nat
    decreases labels.len(),
{
    if labels.len() == 0 {
        0
    } else {
        let n = labels.len() - 1;
        assigned_to(labels.take(n), items.take(n), i) + if items[n] == i && labels[n] >= 0 {
            1nat
        } else {
            0nat
        }
    }
}

/// Number of centroid ids that are not the sentinel.
pub open spec fn assigned(labels: Seq<i64>) -> nat
    decreases labels.len(),
{
    if labels.len() == 0 {
        0
    } else {
        let n = labels.len() - 1;
        assigned(labels.take(n)) + if labels[n] >= 0 {
            1nat
        } else {
            0nat
        }
    }
}

/// Sum of a histogram row.
pub open spec fn row_sum(row: Seq<u32>) -> int
    decreases row.len(),
{
    if row.len() == 0 {
        0
    } else {
        row_sum(row.take(row.len() - 1)) + row[row.len() - 1]
    }
}

/// The fault of one observation, if any: an item id outside `[0, n_items)`,
/// or else a centroid id of `k` or more. A negative centroid id is the
/// sentinel "no assignment" and is no fault.
pub open spec fn fault_at(label: i64, item: i64, position: int, n_items: nat, k: nat) -> Option<BowError> {
    if item < 0 || item >= n_items {
        Some(BowError::ItemOutOfRange { position: position as usize, item })
    } else if label >= k {
        Some(BowError::CentroidOutOfRange { position: position as usize, centroid: label })
    } else {
        None
    }
}

/// The first fault of a batch at position `from` or later.
pub open spec fn first_fault(labels: Seq<i64>, items: Seq<i64>, from: int, n_items: nat, k: nat) -> Option<BowError>
    decreases labels.len() - from,
{
    if from < 0 || from >= labels.len() {
        None
    } else if fault_at(labels[from], items[from], from, n_items, k) is Some {
        fault_at(labels[from], items[from], from, n_items, k)
    } else {
        first_fault(labels, items, from + 1, n_items, k)
    }
}

/// Whether every observation is free of faults.
pub open spec fn all_valid(labels: Seq<i64>, items: Seq<i64>, n_items: nat, k: nat) -> bool {
    forall|p: int| 0 <= p < labels.len() ==> (#[trigger] fault_at(labels[p], items[p], p, n_items, k)) is None
}

/// The item ids of a batch that belongs to the single item `0`.
pub open spec fn single_item(len: nat) -> Seq<i64> {
    Seq::new(len, |p: int| 0i64)
}

/// Appending one observation adds one to the matching cell only.
proof fn lemma_hits_push(labels: Seq<i64>, items: Seq<i64>, x: i64, y: i64, i: int, j: int)
    requires
        labels.len() == items.len(),
    ensures
        hits(labels.push(x), items.push(y), i, j) == hits(labels, items, i, j) + if y == i && x == j {
            1nat
        } else {
            0nat
        },
{
    let n = labels.len() as int;
    assert(labels.push(x).take(n) =~= labels);
    assert(items.push(y).take(n) =~= items);
}

/// A cell never counts more observations than there are.
proof fn lemma_hits_bounded(labels: Seq<i64>, items: Seq<i64>, i: int, j: int)
    ensures
        hits(labels, items, i, j) <= labels.len(),
    decreases labels.len(),
{
    if labels.len() > 0 {
        let n = labels.len() - 1;
        lemma_hits_bounded(labels.take(n), items.take(n), i, j);
    }
}

/// Counting over two batches one after the other adds their counts.
proof fn lemma_hits_append(la: Seq<i64>, ia: Seq<i64>, lb: Seq<i64>, ib: Seq<i64>, i: int, j: int)
    requires
        la.len() == ia.len(),
        lb.len() == ib.len(),
    ensures
        hits(la + lb, ia + ib, i, j) == hits(la, ia, i, j) + hits(lb, ib, i, j),
    decreases lb.len(),
{
    if lb.len() > 0 {
        let n = lb.len() - 1;
        lemma_hits_append(la, ia, lb.take(n), ib.take(n), i, j);
        assert(la + lb =~= (la + lb.take(n)).push(lb[n]));
        assert(ia + ib =~= (ia + ib.take(n)).push(ib[n]));
        lemma_hits_push(la + lb.take(n), ia + ib.take(n), lb[n], ib[n], i, j);
        assert(lb =~= lb.take(n).push(lb[n]));
        assert(ib =~= ib.take(n).push(ib[n]));
        lemma_hits_push(lb.take(n), ib.take(n), lb[n], ib[n], i, j);
    } else {
        assert(la + lb =~= la);
        assert(ia + ib =~= ia);
    }
}

/// Sum of the cells `[i][0..m)` as counted from the observations.
spec fn hit_sum(labels: Seq<i64>, items: Seq<i64>, i: int, m: int) -> int
    decreases m,
{
    if m <= 0 {
        0
    } else {
        hit_sum(labels, items, i, m - 1) + hits(labels, items, i, m - 1)
    }
}

/// Appending one observation adds one to the row sum when it falls in the
/// first `m` columns of row `i`.
proof fn lemma_hit_sum_push(labels: Seq<i64>, items: Seq<i64>, x: i64, y: i64, i: int, m: int)
    requires
        labels.len() == items.len(),
        m >= 0,
    ensures
        hit_sum(labels.push(x), items.push(y), i, m) == hit_sum(labels, items, i, m) + if y == i && 0 <= x < m {
            1int
        } else {
            0int
        },
    decreases m,
{
    if m > 0 {
        lemma_hit_sum_push(labels, items, x, y, i, m - 1);
        lemma_hits_push(labels, items, x, y, i, m - 1);
    }
}

/// No observation, no count.
proof fn lemma_hit_sum_empty(labels: Seq<i64>, items: Seq<i64>, i: int, m: int)
    requires
        labels.len() == 0,
    ensures
        hit_sum(labels, items, i, m) == 0,
    decreases m,
{
    if m > 0 {
        lemma_hit_sum_empty(labels, items, i, m - 1);
    }
}

/// When every centroid id is below `k`, the first `k` cells of row `i` count
/// every assigned observation of item `i`.
proof fn lemma_hit_sum_assigned(labels: Seq<i64>, items: Seq<i64>, i: int, k: int)
    requires
        labels.len() == items.len(),
        k >= 0,
        forall|p: int| 0 <= p < labels.len() ==> #[trigger] labels[p] < k,
    ensures
        hit_sum(labels, items, i, k) == assigned_to(labels, items, i),
    decreases labels.len(),
{
    if labels.len() == 0 {
        lemma_hit_sum_empty(labels, items, i, k);
    } else {
        let n = labels.len() - 1;
        let l = labels.take(n);
        let t = items.take(n);
        assert(labels =~= l.push(labels[n]));
        assert(items =~= t.push(items[n]));
        lemma_hit_sum_assigned(l, t, i, k);
        lemma_hit_sum_push(l, t, labels[n], items[n], i, k);
    }
}

/// A row whose cells are the counts sums, over its first `m` cells, to the
/// counts of those columns.
proof fn lemma_row_sum_prefix(row: Seq<u32>, labels: Seq<i64>, items: Seq<i64>, i: int, m: int)
    requires
        0 <= m <= row.len(),
        forall|j: int| 0 <= j < row.len() ==> #[trigger] row[j] == hits(labels, items, i, j),
    ensures
        row_sum(row.take(m)) == hit_sum(labels, items, i, m),
    decreases m,
{
    if m > 0 {
        assert(row.take(m).take(m - 1) =~= row.take(m - 1));
        lemma_row_sum_prefix(row, labels, items, i, m - 1);
    }
}

/// When every item id is `0`, item `0` holds every assigned observation.
proof fn lemma_assigned_single(labels: Seq<i64>, items: Seq<i64>)
    requires
        labels.len() == items.len(),
        forall|p: int| 0 <= p < items.len() ==> #[trigger] items[p] == 0,
    ensures
        assigned_to(labels, items, 0) == assigned(labels),
    decreases labels.len(),
{
    if labels.len() > 0 {
        let n = labels.len() - 1;
        lemma_assigned_single(labels.take(n), items.take(n));
    }
}

/// In a well-formed histogram, cell `[i][j]` is the number of observations of
/// item `i` whose centroid id is `j`.
pub proof fn lemma_cell_counts(b: &Bows, i: int, j: int)
    requires
        b.wf(),
        0 <= i < b.rows(),
        0 <= j < b.cols(),
    ensures
        b.cells()[i][j] == hits(b.seen_labels(), b.seen_items(), i, j),
{
}

/// Shape: a well-formed histogram has one row per item and one cell per
/// vocabulary entry in each row.
pub proof fn lemma_shape(b: &Bows)
    requires
        b.wf(),
    ensures
        b.cells().len() == b.rows(),
        forall|i: int| 0 <= i < b.rows() ==> (#[trigger] b.cells()[i]).len() == b.cols(),
{
}

/// Column stability: the cells depend on the observations alone. Two
/// well-formed histograms of one shape that have observed the same centroid
/// ids for the same items hold the same counts, so quantizing the same
/// vectors twice, with the same ids each time, gives the same histogram.
pub proof fn lemma_same_observations_same_cells(a: &Bows, b: &Bows)
    requires
        a.wf(),
        b.wf(),
        a.rows() == b.rows(),
        a.cols() == b.cols(),
        a.seen_labels() == b.seen_labels(),
        a.seen_items() == b.seen_items(),
    ensures
        a.cells() == b.cells(),
{
    assert forall|i: int| 0 <= i < a.rows() implies #[trigger] a.cells()[i] == b.cells()[i] by {
        assert(a.cells()[i] =~= b.cells()[i]);
    }
    assert(a.cells() =~= b.cells());
}

/// Sentinel skip: when exactly every third centroid id (positions `2, 5, 8,
/// ...`) is the sentinel, `len - len / 3` of them are assigned.
pub proof fn lemma_every_third_sentinel(labels: Seq<i64>)
    requires
        forall|p: int| 0 <= p < labels.len() ==> (#[trigger] labels[p] < 0 <==> p % 3 == 2),
    ensures
        assigned(labels) == labels.len() - labels.len() / 3,
    decreases labels.len(),
{
    if labels.len() > 0 {
        let n = labels.len() - 1;
        let l = labels.take(n);
        assert forall|p: int| 0 <= p < l.len() implies (#[trigger] l[p] < 0 <==> p % 3 == 2) by {
            assert(l[p] == labels[p]);
        }
        lemma_every_third_sentinel(l);
        assert(labels[n] < 0 <==> n % 3 == 2);
        assert(n % 3 == 2 ==> (n + 1) / 3 == n / 3 + 1);
        assert(n % 3 != 2 ==> (n + 1) / 3 == n / 3);
    }
}

/// Conservation per item: in a well-formed histogram, row `i` sums to the
/// number of observations of item `i` whose centroid id is not the sentinel.
pub proof fn lemma_row_conservation(b: &Bows, i: int)
    requires
        b.wf(),
        0 <= i < b.rows(),
    ensures
        row_sum(b.cells()[i]) == assigned_to(b.seen_labels(), b.seen_items(), i),
{
    let row = b.cells()[i];
    let k = b.cols() as int;
    assert forall|j: int| 0 <= j < row.len() implies #[trigger] row[j] == hits(b.seen_labels(), b.seen_items(), i, j) by {
        assert(b.cells()[i][j] == hits(b.seen_labels(), b.seen_items(), i, j));
    }
    lemma_row_sum_prefix(row, b.seen_labels(), b.seen_items(), i, k);
    assert(row.take(k) =~= row);
    assert forall|p: int| 0 <= p < b.seen_labels().len() implies #[trigger] b.seen_labels()[p] < k by {
        assert(fault_at(b.seen_labels()[p], b.seen_items()[p], p, b.rows(), b.cols()) is None);
    }
    lemma_hit_sum_assigned(b.seen_labels(), b.seen_items(), i, k);
}

/// Conservation for a single item: in a well-formed one-row histogram, the
/// cells sum to the number of observed centroid ids that are not the
/// sentinel.
pub proof fn lemma_single_conservation(b: &Bows)
    requires
        b.wf(),
        b.rows() == 1,
    ensures
        row_sum(b.cells()[0]) == assigned(b.seen_labels()),
{
    lemma_row_conservation(b, 0);
    assert forall|p: int| 0 <= p < b.seen_items().len() implies #[trigger] b.seen_items()[p] == 0 by {
        assert(fault_at(b.seen_labels()[p], b.seen_items()[p], p, b.rows(), b.cols()) is None);
    }
    lemma_assigned_single(b.seen_labels(), b.seen_items());
}

/// The histogram of one quantization pass: `n_items` rows, one column per
/// vocabulary entry.
pub struct Bows {
    matrix: CountMatrix,
    n_items: usize,
    k: usize,
    observed: usize,
    labels_seen: Ghost<Seq<i64>>,
    items_seen: Ghost<Seq<i64>>,
}

impl Bows {
    /// The counters, row by row.
    pub closed spec fn cells(&self) -> Seq<Seq<u32>> {
        count_cells(self.matrix)
    }

    /// Number of rows (items).
    pub closed spec fn rows(&self) -> nat {
        self.n_items as nat
    }

    /// Number of columns (vocabulary entries).
    pub closed spec fn cols(&self) -> nat {
        self.k as nat
    }

    /// The centroid ids observed so far in this pass, sentinels included.
    pub closed spec fn seen_labels(&self) -> Seq<i64> {
        self.labels_seen@
    }

    /// The item id of each observed centroid id.
    pub closed spec fn seen_items(&self) -> Seq<i64> {
        self.items_seen@
    }

    /// The histogram has its shape, every observation was valid, and each
    /// cell `[i][j]` counts the observations of item `i` with centroid `j`.
    pub closed spec fn wf(&self) -> bool {
        &&& self.n_items <= isize::MAX
        &&& self.k <= isize::MAX
        &&& self.cells().len() == self.n_items
        &&& forall|i: int| 0 <= i < self.n_items ==> (#[trigger] self.cells()[i]).len() == self.k
        &&& self.labels_seen@.len() == self.observed
        &&& self.items_seen@.len() == self.observed
        &&& self.observed <= u32::MAX
        &&& all_valid(self.labels_seen@, self.items_seen@, self.n_items as nat, self.k as nat)
        &&& forall|i: int, j: int|
            0 <= i < self.n_items && 0 <= j < self.k ==> (#[trigger] self.cells()[i][j]) == hits(
                self.labels_seen@,
                self.items_seen@,
                i,
                j,
            )
    }

    /// A histogram of `n_items` rows and `k` columns, all zero, that has seen
    /// nothing.
    pub fn new(n_items: usize, k: usize) -> (r: Bows)
        requires
            n_items <= isize::MAX,
            k <= isize::MAX,
            n_items * k * 4 <= isize::MAX,
        ensures
            r.wf(),
            r.rows() == n_items,
            r.cols() == k,
            r.cells() == zero_cells(n_items as nat, k as nat),
            r.seen_labels() == Seq::<i64>::empty(),
            r.seen_items() == Seq::<i64>::empty(),
    {
        let r = Bows {
            matrix: zeroed(n_items, k),
            n_items,
            k,
            observed: 0,
            labels_seen: Ghost(Seq::empty()),
            items_seen: Ghost(Seq::empty()),
        };
        r
    }

    /// The histogram of a feature set that forms one item: one row of `k`
    /// zeros.
    pub fn single(k: usize) -> (r: Bows)
        requires
            k * 4 <= isize::MAX,
        ensures
            r.wf(),
            r.rows() == 1,
            r.cols() == k,
            r.cells() == zero_cells(1, k as nat),
            r.seen_labels() == Seq::<i64>::empty(),
            r.seen_items() == Seq::<i64>::empty(),
    {
        Bows::new(1, k)
    }

    /// Number of rows (items).
    pub fn n_items(&self) -> (r: usize)
        ensures
            r == self.rows(),
    {
        self.n_items
    }

    /// Number of columns (vocabulary entries).
    pub fn n_words(&self) -> (r: usize)
        ensures
            r == self.cols(),
    {
        self.k
    }

    /// The count of item `i` for vocabulary entry `j`.
    pub fn count(&self, i: usize, j: usize) -> (r: u32)
        requires
            self.wf(),
            i < self.rows(),
            j < self.cols(),
        ensures
            r == self.cells()[i as int][j as int],
    {
        cell_at(&self.matrix, i, j)
    }
    /// Folds one batch of observations into the histogram: the centroid id
    /// `labels[p]` of a feature vector of item `items[p]`, for each `p`.
    /// Sentinel (negative) centroid ids are skipped; every item id must lie in
    /// `[0, n_items)` and every centroid id below `k`. On any error the
    /// histogram is left as it was.
    pub fn add_batch(&mut self, labels: &Vec<i64>, items: &Vec<i64>) -> (r: Result<(), BowError>)
        requires
            old(self).wf(),
        ensures
            final(self).wf(),
            final(self).rows() == old(self).rows(),
            final(self).cols() == old(self).cols(),
            labels@.len() != items@.len() ==> r == Err::<(), BowError>(
                BowError::LengthMismatch { labels: labels.len(), items: items.len() },
            ),
            labels@.len() == items@.len() && first_fault(labels@, items@, 0, old(self).rows(), old(self).cols()) is Some
                ==> r == Err::<(), BowError>(
                first_fault(labels@, items@, 0, old(self).rows(), old(self).cols())->Some_0,
            ),
            labels@.len() == items@.len() && first_fault(labels@, items@, 0, old(self).rows(), old(self).cols()) is None
                && old(self).seen_labels().len() + labels@.len() > u32::MAX ==> r == Err::<(), BowError>(
                BowError::CountOverflow,
            ),
            r is Ok <==> labels@.len() == items@.len() && all_valid(labels@, items@, old(self).rows(), old(self).cols())
                && old(self).seen_labels().len() + labels@.len() <= u32::MAX,
            r is Err ==> *final(self) == *old(self),
            r is Ok ==> final(self).seen_labels() == old(self).seen_labels() + labels@,
            r is Ok ==> final(self).seen_items() == old(self).seen_items() + items@,
            r is Ok ==> forall|i: int, j: int|
                0 <= i < old(self).rows() && 0 <= j < old(self).cols() ==> #[trigger] final(self).cells()[i][j]
                    == old(self).cells()[i][j] + hits(labels@, items@, i, j),
    {
        let len = labels.len();
        if len != items.len() {
            return Err(BowError::LengthMismatch { labels: len, items: items.len() });
        }
        let ghost n_items = self.n_items as nat;
        let ghost k = self.k as nat;
        let mut p: usize = 0;
        while p < len
            invariant
                p <= len,
                len == labels@.len(),
                len == items@.len(),
                *self == *old(self),
                self.wf(),
                n_items == self.n_items,
                k == self.k,
                first_fault(labels@, items@, 0, n_items, k) == first_fault(labels@, items@, p as int, n_items, k),
                forall|q: int| 0 <= q < p ==> (#[trigger] fault_at(labels@[q], items@[q], q, n_items, k)) is None,
            decreases len - p,
        {
            let item = items[p];
            let label = labels[p];
            if item < 0 || item >= self.n_items as i64 {
                return Err(BowError::ItemOutOfRange { position: p, item });
            }
            if label >= self.k as i64 {
                return Err(BowError::CentroidOutOfRange { position: p, centroid: label });
            }
            p = p + 1;
        }
        if len > (u32::MAX as usize) - self.observed {
            return Err(BowError::CountOverflow);
        }
        let ghost old_self = *self;
        let ghost l0 = self.labels_seen@;
        let ghost i0 = self.items_seen@;
        let mut p: usize = 0;
        while p < len
            invariant
                p <= len,
                len == labels@.len(),
                len == items@.len(),
                self.n_items == old_self.n_items,
                self.k == old_self.k,
                self.observed == old_self.observed,
                self.labels_seen == old_self.labels_seen,
                self.items_seen == old_self.items_seen,
                l0 == old_self.labels_seen@,
                i0 == old_self.items_seen@,
                old_self.wf(),
                self.observed + len <= u32::MAX,
                all_valid(labels@, items@, self.n_items as nat, self.k as nat),
                self.cells().len() == self.n_items,
                forall|i: int| 0 <= i < self.n_items ==> (#[trigger] self.cells()[i]).len() == self.k,
                forall|i: int, j: int|
                    0 <= i < self.n_items && 0 <= j < self.k ==> (#[trigger] self.cells()[i][j]) == hits(
                        l0 + labels@.take(p as int),
                        i0 + items@.take(p as int),
                        i,
                        j,
                    ),
            decreases len - p,
        {
            let item = items[p];
            let label = labels[p];
            proof {
                assert(fault_at(labels@[p as int], items@[p as int], p as int, self.n_items as nat, self.k as nat) is None);
                assert(l0 + labels@.take(p + 1) =~= (l0 + labels@.take(p as int)).push(label));
                assert(i0 + items@.take(p + 1) =~= (i0 + items@.take(p as int)).push(item));
                assert forall|i: int, j: int| 0 <= i < self.n_items && 0 <= j < self.k implies hits(
                    l0 + labels@.take(p + 1),
                    i0 + items@.take(p + 1),
                    i,
                    j,
                ) == hits(l0 + labels@.take(p as int), i0 + items@.take(p as int), i, j) + if item == i && label == j {
                    1nat
                } else {
                    0nat
                } by {
                    lemma_hits_push(l0 + labels@.take(p as int), i0 + items@.take(p as int), label, item, i, j);
                }
            }
            if label >= 0 {
                proof {
                    lemma_hits_bounded(l0 + labels@.take(p as int), i0 + items@.take(p as int), item as int, label as int);
                }
                let c = cell_at(&self.matrix, item as usize, label as usize);
                set_cell(&mut self.matrix, item as usize, label as usize, c + 1);
            }
            p = p + 1;
        }
        proof {
            assert(labels@.take(len as int) =~= labels@);
            assert(items@.take(len as int) =~= items@);
            assert forall|i: int, j: int| 0 <= i < self.n_items && 0 <= j < self.k implies #[trigger] self.cells()[i][j]
                == old_self.cells()[i][j] + hits(labels@, items@, i, j) by {
                lemma_hits_append(l0, i0, labels@, items@, i, j);
            }
            assert forall|q: int| 0 <= q < l0.len() + len implies (#[trigger] fault_at(
                (l0 + labels@)[q],
                (i0 + items@)[q],
                q,
                self.n_items as nat,
                self.k as nat,
            )) is None by {
                if q >= l0.len() {
                    assert(fault_at(labels@[q - l0.len()], items@[q - l0.len()], q - l0.len(), self.n_items as nat, self.k as nat) is None);
                } else {
                    assert(fault_at(l0[q], i0[q], q, self.n_items as nat, self.k as nat) is None);
                }
            }
        }
        self.observed = self.observed + len;
        self.labels_seen = Ghost(l0 + labels@);
        self.items_seen = Ghost(i0 + items@);
        Ok(())
    }

    /// Folds one batch of centroid ids of the single item `0` into the
    /// histogram, as `add_batch` does with an item id of `0` for each.
    pub fn add_labels(&mut self, labels: &Vec<i64>) -> (r: Result<(), BowError>)
        requires
            old(self).wf(),
        ensures
            final(self).wf(),
            final(self).rows() == old(self).rows(),
            final(self).cols() == old(self).cols(),
            first_fault(labels@, single_item(labels@.len()), 0, old(self).rows(), old(self).cols()) is Some
                ==> r == Err::<(), BowError>(
                first_fault(labels@, single_item(labels@.len()), 0, old(self).rows(), old(self).cols())->Some_0,
            ),
            first_fault(labels@, single_item(labels@.len()), 0, old(self).rows(), old(self).cols()) is None
                && old(self).seen_labels().len() + labels@.len() > u32::MAX ==> r == Err::<(), BowError>(
                BowError::CountOverflow,
            ),
            r is Ok <==> all_valid(labels@, single_item(labels@.len()), old(self).rows(), old(self).cols())
                && old(self).seen_labels().len() + labels@.len() <= u32::MAX,
            r is Err ==> *final(self) == *old(self),
            r is Ok ==> final(self).seen_labels() == old(self).seen_labels() + labels@,
            r is Ok ==> final(self).seen_items() == old(self).seen_items() + single_item(labels@.len()),
            r is Ok ==> forall|i: int, j: int|
                0 <= i < old(self).rows() && 0 <= j < old(self).cols() ==> #[trigger] final(self).cells()[i][j]
                    == old(self).cells()[i][j] + hits(labels@, single_item(labels@.len()), i, j),
    {
        let len = labels.len();
        let mut items: Vec<i64> = Vec::with_capacity(len);
        let mut p: usize = 0;
        while p < len
            invariant
                p <= len,
                items@ == single_item(p as nat),
            decreases len - p,
        {
            items.push(0);
            p = p + 1;
            assert(items@ =~= single_item(p as nat));
        }
        self.add_batch(labels, &items)
    }

    /// The rows of the histogram, each as a vector of counts.
    pub fn to_rows(&self) -> (r: Vec<Vec<u32>>)
        requires
            self.wf(),
        ensures
            r@.len() == self.rows(),
            forall|i: int| 0 <= i < r@.len() ==> (#[trigger] r@[i])@ == self.cells()[i],
            forall|i: int| 0 <= i < r@.len() ==> (#[trigger] r@[i])@.len() == self.cols(),
    {
        let mut rows: Vec<Vec<u32>> = Vec::with_capacity(self.n_items);
        let mut i: usize = 0;
        while i < self.n_items
            invariant
                self.wf(),
                i <= self.n_items,
                rows@.len() == i,
                forall|q: int| 0 <= q < i ==> (#[trigger] rows@[q])@ == self.cells()[q],
            decreases self.n_items - i,
        {
            let mut row: Vec<u32> = Vec::with_capacity(self.k);
            let mut j: usize = 0;
            while j < self.k
                invariant
                    self.wf(),
                    i < self.n_items,
                    j <= self.k,
                    row@ == self.cells()[i as int].take(j as int),
                decreases self.k - j,
            {
                row.push(cell_at(&self.matrix, i, j));
                j = j + 1;
                assert(row@ =~= self.cells()[i as int].take(j as int));
            }
            assert(row@ =~= self.cells()[i as int]);
            rows.push(row);
            i = i + 1;
        }
        rows
    }
}


} // verus!

//! The decisions of the two passes: which rows train the vocabulary, which
//! row ranges are read together, and how the output is re-indexed.
use vstd::prelude::*;
use crate::batch::{batch_ranges, batch_spans, lemma_batch_coverage, num_batches};
use crate::counts::zero_cells;
use crate::histogram::{BowError, Bows, all_valid, first_fault, hits, lemma_cell_counts, lemma_shape, single_item};

verus! {

/// Number of rows read per batch when quantizing.
pub const BATCH_SIZE: usize = 1024;

/// Number of rows that train the vocabulary: the first `limit` rows when a
/// limit is given, all `total` rows otherwise. A limit above the number of
/// rows asks for rows that do not exist: `None`.
pub fn training_rows(total: usize, limit: Option<usize>) -> (r: Option<usize>)
    ensures
        limit is None ==> r == Some(total),
        limit matches Some(n) ==> (n <= total ==> r == Some(n)) && (n > total ==> r is None),
{
    match limit {
        Some(n) => if n <= total {
            Some(n)
        } else {
            None
        },
        None => Some(total),
    }
}

/// The row ranges in which the features and their item ids are read in
/// lock step. The two datasets must have the same number of rows; otherwise
/// the pass fails before any batch is read.
pub fn lockstep_ranges(features: usize, item_ids: usize, size: usize) -> (r: Result<Vec<(usize, usize)>, BowError>)
    requires
        size > 0,
    ensures
        features != item_ids ==> r == Err::<Vec<(usize, usize)>, BowError>(
            BowError::LengthMismatch { labels: features, items: item_ids },
        ),
        features == item_ids ==> r is Ok,
        r matches Ok(v) ==> v@.len() == batch_spans(features as nat, size as nat).len() && forall|t: int|
            0 <= t < v@.len() ==> ((#[trigger] v@[t]).0 as int, v@[t].1 as int) == batch_spans(
                features as nat,
                size as nat,
            )[t],
{
    if features != item_ids {
        return Err(BowError::LengthMismatch { labels: features, items: item_ids });
    }
    Ok(batch_ranges(features, size))
}

/// The item ids written with the histogram: `0, 1, ..., n - 1`.
pub fn sequential_ids(n: usize) -> (r: Vec<usize>)
    ensures
        r@ == Seq::new(n as nat, |i: int| i as usize),
{
    let mut ids: Vec<usize> = Vec::with_capacity(n);
    let mut i: usize = 0;
    while i < n
        invariant
            i <= n,
            ids@ == Seq::new(i as nat, |q: int| q as usize),
        decreases n - i,
    {
        ids.push(i);
        i = i + 1;
        assert(ids@ =~= Seq::new(i as nat, |q: int| q as usize));
    }
    ids
}

/// One quantization pass over `total` feature rows: the histogram built so
/// far and the batches still to be read, in order.
pub struct Quantization {
    bows: Bows,
    ranges: Vec<(usize, usize)>,
    next: usize,
    total: usize,
}

impl Quantization {
    /// The histogram built so far.
    pub closed spec fn histogram(&self) -> Bows {
        self.bows
    }

    /// Number of batches already folded into the histogram.
    pub closed spec fn done(&self) -> nat {
        self.next as nat
    }

    /// Number of feature rows of the pass.
    pub closed spec fn rows_total(&self) -> nat {
        self.total as nat
    }

    /// The row ranges of the pass, in order.
    pub open spec fn spans(&self) -> Seq<(int, int)> {
        batch_spans(self.rows_total(), BATCH_SIZE as nat)
    }

    /// The histogram is well formed, the batches are those of the pass, and
    /// the rows observed so far are exactly the rows before the next batch.
    pub closed spec fn wf(&self) -> bool {
        &&& self.bows.wf()
        &&& self.ranges@.len() == self.spans().len()
        &&& forall|t: int|
            0 <= t < self.ranges@.len() ==> ((#[trigger] self.ranges@[t]).0 as int, self.ranges@[t].1 as int)
                == self.spans()[t]
        &&& self.next <= self.ranges@.len()
        &&& self.bows.seen_labels().len() == if self.next < self.ranges@.len() {
            self.ranges@[self.next as int].0 as int
        } else {
            self.total as int
        }
    }

    /// A pass over the `total` feature rows of a single item, against a
    /// vocabulary of `k` entries: one row of zeros, nothing read yet.
    pub fn new_single(total: usize, k: usize) -> (r: Quantization)
        requires
            k * 4 <= isize::MAX,
        ensures
            r.wf(),
            r.done() == 0,
            r.rows_total() == total,
            r.histogram().rows() == 1,
            r.histogram().cols() == k,
            r.histogram().cells() == zero_cells(1, k as nat),
    {
        let bows = Bows::single(k);
        let ranges = batch_ranges(total, BATCH_SIZE);
        let r = Quantization { bows, ranges, next: 0, total };
        proof {
            lemma_batch_coverage(total as nat, BATCH_SIZE as nat);
        }
        r
    }

    /// A pass over `features` feature rows whose item ids, in a dataset of
    /// `item_ids` rows, lie in `[0, n_items)`. The two datasets must be of one
    /// length.
    pub fn new_multi(features: usize, item_ids: usize, n_items: usize, k: usize) -> (r: Result<Quantization, BowError>)
        requires
            n_items <= isize::MAX,
            k <= isize::MAX,
            n_items * k * 4 <= isize::MAX,
        ensures
            features != item_ids ==> r == Err::<Quantization, BowError>(
                BowError::LengthMismatch { labels: features, items: item_ids },
            ),
            features == item_ids ==> r is Ok,
            r matches Ok(q) ==> {
                &&& q.wf()
                &&& q.done() == 0
                &&& q.rows_total() == features
                &&& q.histogram().rows() == n_items
                &&& q.histogram().cols() == k
                &&& q.histogram().cells() == zero_cells(n_items as nat, k as nat)
            },
    {
        match lockstep_ranges(features, item_ids, BATCH_SIZE) {
            Err(e) => Err(e),
            Ok(ranges) => {
                let bows = Bows::new(n_items, k);
                proof {
                    lemma_batch_coverage(features as nat, BATCH_SIZE as nat);
                }
                Ok(Quantization { bows, ranges, next: 0, total: features })
            },
        }
    }

    /// The row range `[start, end)` to read next, or `None` when every batch
    /// has been folded in.
    pub fn next_batch(&self) -> (r: Option<(usize, usize)>)
        requires
            self.wf(),
        ensures
            self.done() < self.spans().len() ==> (r matches Some(s) && (s.0 as int, s.1 as int)
                == self.spans()[self.done() as int]),
            self.done() >= self.spans().len() ==> r is None,
            r is None ==> self.histogram().seen_labels().len() == self.rows_total(),
    {
        if self.next < self.ranges.len() {
            Some(self.ranges[self.next])
        } else {
            None
        }
    }

    /// Folds the centroid ids and item ids of the next batch into the
    /// histogram and moves on to the batch after it. There must be one
    /// centroid id for each row of the batch. On any error the pass is left as
    /// it was.
    pub fn feed(&mut self, labels: &Vec<i64>, items: &Vec<i64>) -> (r: Result<(), BowError>)
        requires
            old(self).wf(),
            old(self).done() < old(self).spans().len(),
        ensures
            final(self).wf(),
            final(self).rows_total() == old(self).rows_total(),
            final(self).histogram().rows() == old(self).histogram().rows(),
            final(self).histogram().cols() == old(self).histogram().cols(),
            ({
                let s = old(self).spans()[old(self).done() as int];
                labels@.len() != s.1 - s.0 ==> r == Err::<(), BowError>(
                    BowError::BatchMismatch { expected: (s.1 - s.0) as usize, found: labels.len() },
                )
            }),
            ({
                let s = old(self).spans()[old(self).done() as int];
                labels@.len() == s.1 - s.0 && labels@.len() != items@.len() ==> r == Err::<(), BowError>(
                    BowError::LengthMismatch { labels: labels.len(), items: items.len() },
                )
            }),
            ({
                let s = old(self).spans()[old(self).done() as int];
                let f = first_fault(labels@, items@, 0, old(self).histogram().rows(), old(self).histogram().cols());
                labels@.len() == s.1 - s.0 && labels@.len() == items@.len() && f is Some ==> r == Err::<(), BowError>(f->Some_0)
            }),
            ({
                let s = old(self).spans()[old(self).done() as int];
                labels@.len() == s.1 - s.0 && labels@.len() == items@.len() && first_fault(
                    labels@,
                    items@,
                    0,
                    old(self).histogram().rows(),
                    old(self).histogram().cols(),
                ) is None && s.1 > u32::MAX ==> r == Err::<(), BowError>(BowError::CountOverflow)
            }),
            r is Ok <==> ({
                let s = old(self).spans()[old(self).done() as int];
                &&& labels@.len() == s.1 - s.0
                &&& labels@.len() == items@.len()
                &&& all_valid(labels@, items@, old(self).histogram().rows(), old(self).histogram().cols())
                &&& s.1 <= u32::MAX
            }),
            r is Err ==> *final(self) == *old(self),
            r is Ok ==> final(self).done() == old(self).done() + 1,
            r is Ok ==> final(self).histogram().seen_labels() == old(self).histogram().seen_labels() + labels@,
            r is Ok ==> final(self).histogram().seen_items() == old(self).histogram().seen_items() + items@,
            r is Ok ==> forall|i: int, j: int|
                0 <= i < old(self).histogram().rows() && 0 <= j < old(self).histogram().cols()
                    ==> #[trigger] final(self).histogram().cells()[i][j] == old(self).histogram().cells()[i][j]
                    + hits(labels@, items@, i, j),
    {
        let (start, end) = self.ranges[self.next];
        if labels.len() != end - start {
            return Err(BowError::BatchMismatch { expected: end - start, found: labels.len() });
        }
        proof {
            lemma_batch_coverage(self.total as nat, BATCH_SIZE as nat);
        }
        let r = self.bows.add_batch(labels, items);
        if r.is_ok() {
            self.next = self.next + 1;
        }
        r
    }

    /// Folds the centroid ids of the next batch of a single-item pass into the
    /// histogram, as `feed` does with an item id of `0` for each row.
    pub fn feed_single(&mut self, labels: &Vec<i64>) -> (r: Result<(), BowError>)
        requires
            old(self).wf(),
            old(self).done() < old(self).spans().len(),
        ensures
            final(self).wf(),
            final(self).rows_total() == old(self).rows_total(),
            final(self).histogram().rows() == old(self).histogram().rows(),
            final(self).histogram().cols() == old(self).histogram().cols(),
            ({
                let s = old(self).spans()[old(self).done() as int];
                labels@.len() != s.1 - s.0 ==> r == Err::<(), BowError>(
                    BowError::BatchMismatch { expected: (s.1 - s.0) as usize, found: labels.len() },
                )
            }),
            ({
                let s = old(self).spans()[old(self).done() as int];
                let f = first_fault(
                    labels@,
                    single_item(labels@.len()),
                    0,
                    old(self).histogram().rows(),
                    old(self).histogram().cols(),
                );
                labels@.len() == s.1 - s.0 && f is Some ==> r == Err::<(), BowError>(f->Some_0)
            }),
            ({
                let s = old(self).spans()[old(self).done() as int];
                labels@.len() == s.1 - s.0 && first_fault(
                    labels@,
                    single_item(labels@.len()),
                    0,
                    old(self).histogram().rows(),
                    old(self).histogram().cols(),
                ) is None && s.1 > u32::MAX ==> r == Err::<(), BowError>(BowError::CountOverflow)
            }),
            r is Ok <==> ({
                let s = old(self).spans()[old(self).done() as int];
                &&& labels@.len() == s.1 - s.0
                &&& all_valid(
                    labels@,
                    single_item(labels@.len()),
                    old(self).histogram().rows(),
                    old(self).histogram().cols(),
                )
                &&& s.1 <= u32::MAX
            }),
            r is Err ==> *final(self) == *old(self),
            r is Ok ==> final(self).done() == old(self).done() + 1,
            r is Ok ==> final(self).histogram().seen_labels() == old(self).histogram().seen_labels() + labels@,
            r is Ok ==> final(self).histogram().seen_items() == old(self).histogram().seen_items() + single_item(
                labels@.len(),
            ),
            r is Ok ==> forall|i: int, j: int|
                0 <= i < old(self).histogram().rows() && 0 <= j < old(self).histogram().cols()
                    ==> #[trigger] final(self).histogram().cells()[i][j] == old(self).histogram().cells()[i][j]
                    + hits(labels@, single_item(labels@.len()), i, j),
    {
        let (start, end) = self.ranges[self.next];
        if labels.len() != end - start {
            return Err(BowError::BatchMismatch { expected: end - start, found: labels.len() });
        }
        proof {
            lemma_batch_coverage(self.total as nat, BATCH_SIZE as nat);
        }
        let r = self.bows.add_labels(labels);
        if r.is_ok() {
            self.next = self.next + 1;
        }
        r
    }

    /// The histogram built so far.
    pub fn bows(&self) -> (r: &Bows)
        ensures
            *r == self.histogram(),
    {
        &self.bows
    }

    /// Ends the pass and hands out its histogram.
    pub fn into_bows(self) -> (r: Bows)
        ensures
            r == self.histogram(),
    {
        self.bows
    }
}

/// Empty input: a pass over zero feature rows has no batch to read, and its
/// histogram holds only zeros.
pub proof fn lemma_empty_pass(q: &Quantization)
    requires
        q.wf(),
        q.rows_total() == 0,
    ensures
        q.spans().len() == 0,
        q.histogram().cells() == zero_cells(q.histogram().rows(), q.histogram().cols()),
{
    lemma_batch_coverage(0, BATCH_SIZE as nat);
    assert(num_batches(0, BATCH_SIZE as nat) == 0);
    let b = q.histogram();
    assert forall|i: int, j: int| 0 <= i < b.rows() && 0 <= j < b.cols() implies #[trigger] b.cells()[i][j] == 0 by {
        lemma_cell_counts(&b, i, j);
        assert(b.seen_labels().len() == 0);
    }
    lemma_shape(&b);
    let z = zero_cells(b.rows(), b.cols());
    assert forall|i: int| 0 <= i < b.rows() implies #[trigger] b.cells()[i] == z[i] by {
        assert(b.cells()[i] =~= z[i]);
    }
    assert(b.cells() =~= z);
}

} // verus!

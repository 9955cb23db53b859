//! Splitting a dataset of `total` rows into consecutive batches of a bounded
//! size.
use vstd::prelude::*;
use vstd::arithmetic::div_mod::{lemma_fundamental_div_mod, lemma_mod_pos_bound};

verus! {

/// Number of batches of at most `size` rows that cover `total` rows.
pub open spec fn num_batches(total: nat, size: nat) -> nat
    recommends
        size > 0,
{
    total / size + if total % size > 0 {
        1nat
    } else {
        0nat
    }
}

/// The half-open row range `[start, end)` of batch `t`.
pub open spec fn batch_span(total: int, size: int, t: int) -> (int, int) {
    (t * size, if t * size + size <= total {
        t * size + size
    } else {
        total
    })
}

/// The row ranges of all batches, in order.
pub open spec fn batch_spans(total: nat, size: nat) -> Seq<(int, int)> {
    Seq::new(num_batches(total, size), |t: int| batch_span(total as int, size as int, t))
}

/// Total number of rows in a sequence of row ranges.
pub open spec fn span_total(spans: Seq<(int, int)>) -> int
    decreases spans.len(),
{
    if spans.len() == 0 {
        0
    } else {
        span_total(spans.take(spans.len() - 1)) + (spans[spans.len() - 1].1 - spans[spans.len() - 1].0)
    }
}

/// The batches reach past the last row, and all but the last end before it.
proof fn lemma_count_bounds(total: nat, size: nat)
    requires
        size > 0,
    ensures
        num_batches(total, size) * size >= total,
        total > 0 ==> (num_batches(total, size) - 1) * size < total,
        total == 0 ==> num_batches(total, size) == 0,
{
    let ti = total as int;
    let si = size as int;
    lemma_fundamental_div_mod(ti, si);
    lemma_mod_pos_bound(ti, si);
    let q = ti / si;
    let r = ti % si;
    assert(q >= 0) by (nonlinear_arith)
        requires
            ti == si * q + r,
            0 <= r < si,
            ti >= 0,
    ;
    let c = num_batches(total, size) as int;
    assert(c * si >= ti && (ti > 0 ==> (c - 1) * si < ti)) by (nonlinear_arith)
        requires
            ti == si * q + r,
            0 <= r < si,
            q >= 0,
            c == q + if r > 0 {
                1int
            } else {
                0int
            },
    ;
    if total == 0 {
        assert(q == 0) by (nonlinear_arith)
            requires
                0 == si * q + r,
                0 <= r < si,
                q >= 0,
        ;
    }
}

/// Batch coverage: the batches of `total` rows cover them exactly once and in
/// order: they start at row `0`, each one begins where the one before ended,
/// the last ends at `total`, and their lengths add up to `total`. Every batch
/// is non-empty and at most `size` rows long, and every batch but the last is
/// exactly `size` rows long.
pub proof fn lemma_batch_coverage(total: nat, size: nat)
    requires
        size > 0,
    ensures
        span_total(batch_spans(total, size)) == total,
        batch_spans(total, size).len() > 0 ==> batch_spans(total, size)[0].0 == 0,
        batch_spans(total, size).len() > 0 ==> batch_spans(total, size).last().1 == total,
        forall|t: int|
            0 <= t < batch_spans(total, size).len() ==> 0 < (#[trigger] batch_spans(total, size)[t]).1
                - batch_spans(total, size)[t].0 <= size,
        forall|t: int|
            0 <= t < batch_spans(total, size).len() - 1 ==> (#[trigger] batch_spans(total, size)[t]).1
                - batch_spans(total, size)[t].0 == size,
        forall|t: int|
            0 <= t < batch_spans(total, size).len() - 1 ==> (#[trigger] batch_spans(total, size)[t]).1
                == batch_spans(total, size)[t + 1].0,
{
    let spans = batch_spans(total, size);
    let c = num_batches(total, size) as int;
    let ti = total as int;
    let si = size as int;
    lemma_count_bounds(total, size);
    assert forall|t: int| 0 <= t < c implies (#[trigger] spans[t]).0 < ti by {
        assert(t * si <= (c - 1) * si) by (nonlinear_arith)
            requires
                0 <= t <= c - 1,
                si > 0,
        ;
    }
    assert forall|t: int| 0 <= t < c - 1 implies (#[trigger] spans[t]).1 == t * si + si by {
        assert(t * si + si == (t + 1) * si) by (nonlinear_arith);
        assert((t + 1) * si <= (c - 1) * si) by (nonlinear_arith)
            requires
                0 <= t + 1 <= c - 1,
                si > 0,
        ;
    }
    assert forall|t: int| 0 <= t < c - 1 implies (#[trigger] spans[t]).1 == spans[t + 1].0 by {
        assert(t * si + si == (t + 1) * si) by (nonlinear_arith);
    }
    if c > 0 {
        assert(spans[0].0 == 0);
        assert(spans.last().1 == ti) by {
            assert((c - 1) * si + si == c * si) by (nonlinear_arith);
        }
    }
    lemma_span_total_prefix(total, size, c);
    assert(spans.take(c) =~= spans);
}

/// The first `m` batches cover exactly the rows below `min(m * size, total)`.
proof fn lemma_span_total_prefix(total: nat, size: nat, m: int)
    requires
        size > 0,
        0 <= m <= num_batches(total, size),
    ensures
        span_total(batch_spans(total, size).take(m)) == if m * size <= total {
            m * size
        } else {
            total as int
        },
    decreases m,
{
    let spans = batch_spans(total, size);
    let si = size as int;
    if m > 0 {
        lemma_span_total_prefix(total, size, m - 1);
        assert(spans.take(m).take(m - 1) =~= spans.take(m - 1));
        lemma_count_bounds(total, size);
        assert((m - 1) * si < total) by (nonlinear_arith)
            requires
                (num_batches(total, size) - 1) * si < total,
                0 <= m - 1 <= num_batches(total, size) - 1,
                si > 0,
        ;
        assert((m - 1) * si + si == m * si) by (nonlinear_arith);
    } else {
        assert(m * si == 0) by (nonlinear_arith)
            requires
                m == 0,
        ;
    }
}

/// Number of batches of at most `size` rows that cover `total` rows.
pub fn batch_count(total: usize, size: usize) -> (r: usize)
    requires
        size > 0,
    ensures
        r == num_batches(total as nat, size as nat),
{
    proof {
        lemma_fundamental_div_mod(total as int, size as int);
        lemma_mod_pos_bound(total as int, size as int);
        let q = total as int / size as int;
        let m = total as int % size as int;
        assert(m > 0 ==> q < total) by (nonlinear_arith)
            requires
                total == size * q + m,
                0 <= m < size,
                q >= 0,
        ;
    }
    total / size + if total % size > 0 {
        1
    } else {
        0
    }
}

/// The row range `[start, end)` of batch `index` of `total` rows.
pub fn batch_range(total: usize, size: usize, index: usize) -> (r: (usize, usize))
    requires
        size > 0,
        index < num_batches(total as nat, size as nat),
    ensures
        (r.0 as int, r.1 as int) == batch_span(total as int, size as int, index as int),
{
    proof {
        lemma_count_bounds(total as nat, size as nat);
        let c = num_batches(total as nat, size as nat) as int;
        assert(index * size <= (c - 1) * size) by (nonlinear_arith)
            requires
                0 <= index <= c - 1,
                size > 0,
        ;
    }
    let start = index * size;
    let end = if total - start >= size {
        start + size
    } else {
        total
    };
    (start, end)
}

/// The row ranges of all batches of `total` rows, in order.
pub fn batch_ranges(total: usize, size: usize) -> (r: Vec<(usize, usize)>)
    requires
        size > 0,
    ensures
        r@.len() == batch_spans(total as nat, size as nat).len(),
        forall|t: int|
            0 <= t < r@.len() ==> ((#[trigger] r@[t]).0 as int, r@[t].1 as int) == batch_spans(
                total as nat,
                size as nat,
            )[t],
{
    let n = batch_count(total, size);
    let mut ranges: Vec<(usize, usize)> = Vec::with_capacity(n);
    let mut t: usize = 0;
    while t < n
        invariant
            size > 0,
            t <= n,
            n == num_batches(total as nat, size as nat),
            ranges@.len() == t,
            forall|q: int|
                0 <= q < t ==> ((#[trigger] ranges@[q]).0 as int, ranges@[q].1 as int) == batch_span(
                    total as int,
                    size as int,
                    q,
                ),
        decreases n - t,
    {
        ranges.push(batch_range(total, size, t));
        t = t + 1;
    }
    ranges
}

} // verus!

use bag_of_features::batch::{batch_count, batch_range, batch_ranges};
use bag_of_features::pipeline::{lockstep_ranges, sequential_ids, training_rows, BATCH_SIZE};
use bag_of_features::{BowError, Bows, QuantizeArgs, Quantization, VocabularyArgs};

fn row_total(rows: &[Vec<u32>], i: usize) -> u64 {
    rows[i].iter().map(|&c| c as u64).sum()
}

#[test]
fn batches_cover_rows_in_order() {
    let r = batch_ranges(2500, 1024);
    assert_eq!(r, vec![(0, 1024), (1024, 2048), (2048, 2500)]);
    assert_eq!(batch_count(2500, 1024), 3);
    assert_eq!(batch_range(2500, 1024, 1), (1024, 2048));
}

#[test]
fn batches_of_exact_multiple() {
    assert_eq!(batch_ranges(2048, 1024), vec![(0, 1024), (1024, 2048)]);
    assert_eq!(batch_count(2048, 1024), 2);
}

#[test]
fn batches_of_empty_dataset() {
    assert!(batch_ranges(0, 16).is_empty());
    assert_eq!(batch_count(0, 16), 0);
}

#[test]
fn batches_lengths_sum_to_total() {
    for total in 0..50usize {
        for size in 1..9usize {
            let r = batch_ranges(total, size);
            let mut next = 0;
            for (t, &(s, e)) in r.iter().enumerate() {
                assert_eq!(s, next);
                assert!(e > s && e - s <= size);
                if t + 1 < r.len() {
                    assert_eq!(e - s, size);
                }
                next = e;
            }
            assert_eq!(next, total);
        }
    }
}

#[test]
fn training_rows_truncate_to_prefix() {
    assert_eq!(training_rows(100, None), Some(100));
    assert_eq!(training_rows(100, Some(40)), Some(40));
    assert_eq!(training_rows(100, Some(100)), Some(100));
    assert_eq!(training_rows(0, None), Some(0));
}

#[test]
fn training_rows_reject_limit_above_rows() {
    assert_eq!(training_rows(100, Some(400)), None);
    assert_eq!(training_rows(0, Some(3)), None);
}

#[test]
fn lockstep_rejects_length_mismatch() {
    assert_eq!(
        lockstep_ranges(10, 9, 4),
        Err(BowError::LengthMismatch { labels: 10, items: 9 })
    );
    assert_eq!(lockstep_ranges(10, 10, 4), Ok(vec![(0, 4), (4, 8), (8, 10)]));
}

#[test]
fn output_item_ids_are_sequential() {
    assert_eq!(sequential_ids(4), vec![0, 1, 2, 3]);
    assert!(sequential_ids(0).is_empty());
}

#[test]
fn add_batch_counts_pairs() {
    let mut b = Bows::new(2, 3);
    assert_eq!(b.add_batch(&vec![0, 2, 2, 1], &vec![1, 0, 0, 1]), Ok(()));
    assert_eq!(b.to_rows(), vec![vec![0, 0, 2], vec![1, 1, 0]]);
    assert_eq!(b.count(0, 2), 2);
    assert_eq!(b.count(1, 0), 1);
    assert_eq!(b.n_items(), 2);
    assert_eq!(b.n_words(), 3);
}

#[test]
fn add_batch_skips_sentinel() {
    let mut b = Bows::new(1, 2);
    assert_eq!(b.add_batch(&vec![-1, 1, -5], &vec![0, 0, 0]), Ok(()));
    assert_eq!(b.to_rows(), vec![vec![0, 1]]);
}

#[test]
fn add_batch_rejects_item_at_or_above_count() {
    let mut b = Bows::new(2, 3);
    assert_eq!(
        b.add_batch(&vec![0, 1], &vec![1, 2]),
        Err(BowError::ItemOutOfRange { position: 1, item: 2 })
    );
    assert_eq!(b.to_rows(), vec![vec![0, 0, 0], vec![0, 0, 0]]);
}

#[test]
fn add_batch_rejects_negative_item() {
    let mut b = Bows::new(2, 3);
    assert_eq!(
        b.add_batch(&vec![-1, 1], &vec![-1, 0]),
        Err(BowError::ItemOutOfRange { position: 0, item: -1 })
    );
    assert_eq!(b.to_rows(), vec![vec![0, 0, 0], vec![0, 0, 0]]);
}

#[test]
fn add_batch_rejects_centroid_out_of_range() {
    let mut b = Bows::new(1, 3);
    assert_eq!(
        b.add_batch(&vec![0, 3], &vec![0, 0]),
        Err(BowError::CentroidOutOfRange { position: 1, centroid: 3 })
    );
    assert_eq!(b.to_rows(), vec![vec![0, 0, 0]]);
}

#[test]
fn add_batch_rejects_length_mismatch() {
    let mut b = Bows::new(1, 3);
    assert_eq!(
        b.add_batch(&vec![0, 1], &vec![0]),
        Err(BowError::LengthMismatch { labels: 2, items: 1 })
    );
}

#[test]
fn single_item_sum_is_assigned_count() {
    let mut b = Bows::single(4);
    let labels = vec![0, 3, -1, 3, 2, -1, 1];
    assert_eq!(b.add_labels(&labels), Ok(()));
    let rows = b.to_rows();
    assert_eq!(rows, vec![vec![1, 1, 1, 2]]);
    assert_eq!(row_total(&rows, 0), 5);
}

#[test]
fn multi_item_row_sums_are_assigned_counts() {
    let mut b = Bows::new(3, 2);
    let labels = vec![0, 1, -1, 1, 0, -1, 1];
    let items = vec![0, 0, 0, 2, 2, 2, 2];
    assert_eq!(b.add_batch(&labels, &items), Ok(()));
    let rows = b.to_rows();
    assert_eq!(row_total(&rows, 0), 2);
    assert_eq!(row_total(&rows, 1), 0);
    assert_eq!(row_total(&rows, 2), 3);
}

#[test]
fn histogram_rows_have_one_cell_per_word() {
    let mut b = Bows::new(3, 5);
    b.add_batch(&vec![4, 0], &vec![2, 0]).unwrap();
    let rows = b.to_rows();
    assert_eq!(rows.len(), 3);
    assert!(rows.iter().all(|r| r.len() == 5));
}

#[test]
fn same_labels_give_same_columns() {
    let labels = vec![2, 0, 1, 2];
    let mut a = Bows::single(3);
    let mut b = Bows::single(3);
    a.add_labels(&labels).unwrap();
    b.add_labels(&labels).unwrap();
    assert_eq!(a.to_rows(), b.to_rows());
    assert_eq!(a.to_rows(), vec![vec![1, 1, 2]]);
}

fn nearest(p: (f32, f32), centers: &[(f32, f32)]) -> i64 {
    let mut best = 0;
    let mut best_d = f32::INFINITY;
    for (c, &(x, y)) in centers.iter().enumerate() {
        let d = (p.0 - x) * (p.0 - x) + (p.1 - y) * (p.1 - y);
        if d < best_d {
            best_d = d;
            best = c;
        }
    }
    best as i64
}

#[test]
fn four_clusters_round_trip() {
    let centers = [(0.0f32, 0.0f32), (10.0, 0.0), (0.0, 10.0), (10.0, 10.0)];
    let mut points = Vec::new();
    for &(cx, cy) in centers.iter() {
        for t in 0..25 {
            let dx = (t % 5) as f32 * 0.1;
            let dy = (t / 5) as f32 * 0.1;
            points.push((cx + dx, cy + dy));
        }
    }
    // the vocabulary, in a permuted order
    let vocabulary = [centers[3], centers[1], centers[0], centers[2]];
    let mut q = Quantization::new_single(points.len(), 4);
    while let Some((s, e)) = q.next_batch() {
        let labels: Vec<i64> = points[s..e].iter().map(|&p| nearest(p, &vocabulary)).collect();
        q.feed_single(&labels).unwrap();
    }
    let rows = q.into_bows().to_rows();
    assert_eq!(rows, vec![vec![25, 25, 25, 25]]);
}

#[test]
fn empty_input_gives_zero_histogram() {
    let q = Quantization::new_single(0, 5);
    assert_eq!(q.next_batch(), None);
    assert_eq!(q.into_bows().to_rows(), vec![vec![0, 0, 0, 0, 0]]);
    let q = Quantization::new_multi(0, 0, 2, 3).unwrap();
    assert_eq!(q.next_batch(), None);
    assert_eq!(q.bows().to_rows(), vec![vec![0, 0, 0], vec![0, 0, 0]]);
}

#[test]
fn sentinel_every_third_vector_is_skipped() {
    let n = 3000usize;
    let mut q = Quantization::new_single(n, 7);
    let mut seen = 0usize;
    while let Some((s, e)) = q.next_batch() {
        let labels: Vec<i64> = (s..e)
            .map(|p| if p % 3 == 2 { -1 } else { (p % 7) as i64 })
            .collect();
        seen += labels.len();
        q.feed_single(&labels).unwrap();
    }
    assert_eq!(seen, n);
    let rows = q.into_bows().to_rows();
    assert_eq!(row_total(&rows, 0), 2000);
}

#[test]
fn multi_item_pass_in_lock_step() {
    let n = 2100usize;
    let mut q = Quantization::new_multi(n, n, 3, 2).unwrap();
    let mut batches = 0;
    while let Some((s, e)) = q.next_batch() {
        let labels: Vec<i64> = (s..e).map(|p| (p % 2) as i64).collect();
        let items: Vec<i64> = (s..e).map(|p| (p % 3) as i64).collect();
        q.feed(&labels, &items).unwrap();
        batches += 1;
    }
    assert_eq!(batches, 3);
    let rows = q.bows().to_rows();
    assert_eq!(rows, vec![vec![350, 350], vec![350, 350], vec![350, 350]]);
}

#[test]
fn multi_pass_rejects_item_id_length_mismatch() {
    assert!(matches!(
        Quantization::new_multi(10, 11, 2, 2),
        Err(BowError::LengthMismatch { labels: 10, items: 11 })
    ));
}

#[test]
fn feed_rejects_wrong_batch_length() {
    let mut q = Quantization::new_single(10, 2);
    assert_eq!(q.next_batch(), Some((0, 10)));
    assert_eq!(
        q.feed_single(&vec![0, 1]),
        Err(BowError::BatchMismatch { expected: 10, found: 2 })
    );
    assert_eq!(q.next_batch(), Some((0, 10)));
}

#[test]
fn feed_rejects_out_of_range_item_and_keeps_state() {
    let mut q = Quantization::new_multi(3, 3, 2, 2).unwrap();
    assert_eq!(
        q.feed(&vec![0, 1, 1], &vec![0, 2, 1]),
        Err(BowError::ItemOutOfRange { position: 1, item: 2 })
    );
    assert_eq!(q.next_batch(), Some((0, 3)));
    assert_eq!(q.bows().to_rows(), vec![vec![0, 0], vec![0, 0]]);
    assert_eq!(q.feed(&vec![0, 1, 1], &vec![0, 0, 1]), Ok(()));
    assert_eq!(q.next_batch(), None);
    assert_eq!(q.bows().to_rows(), vec![vec![1, 1], vec![0, 1]]);
}

#[test]
fn batch_size_is_fixed() {
    assert_eq!(BATCH_SIZE, 1024);
}

#[test]
fn vocabulary_args_defaults() {
    let a = VocabularyArgs::new("f.h5".to_string(), 64);
    assert_eq!(a.features, "f.h5");
    assert_eq!(a.dataset_name, "data");
    assert_eq!(a.size, 64);
    assert_eq!(a.out, "vocabulary.h5");
    assert_eq!(a.n, None);
    assert_eq!(a.niter, None);
}

#[test]
fn quantize_args_defaults() {
    let a = QuantizeArgs::new("v.h5".to_string(), "f.h5".to_string());
    assert_eq!(a.vocabulary, "v.h5");
    assert_eq!(a.features, "f.h5");
    assert_eq!(a.features_dataset_name, "data");
    assert_eq!(a.item_id, "item_id");
    assert_eq!(a.item_name, "id_volume");
    assert!(!a.single_item);
    assert_eq!(a.out, "bows.h5");
}

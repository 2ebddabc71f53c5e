use ts_dtw::aggregate::{total_cost, TotalError};
use ts_dtw::engine::{
    align, align_full_matrix, align_rolling_row, min3_cost, square_dist, AlignError, Strategy,
};
use ts_dtw::matrix::CostMatrix;
use ts_dtw::metric::{align_with_metric, apply_metric, floor_sqrt, Metric};
use ts_dtw::series::Sequence;
use ts_dtw::timing::{duration_millis, measure_time_millis};

fn seq(label: &str, samples: &[i32]) -> Sequence {
    Sequence::new(label.to_string(), samples.to_vec()).unwrap()
}

const STRATEGIES: [Strategy; 2] = [Strategy::FullMatrix, Strategy::RollingRow];

#[test]
fn example_two_samples_costs_one() {
    let a = seq("a", &[0, 1]);
    let b = seq("b", &[0, 2]);
    for s in STRATEGIES {
        assert_eq!(align(&a, &b, s), Ok(1));
    }
}

#[test]
fn example_dataset_total_is_one() {
    let ds = vec![seq("a", &[0, 1]), seq("b", &[0, 2])];
    for s in STRATEGIES {
        assert_eq!(total_cost(&ds, s), Ok(1));
    }
}

#[test]
fn full_matrix_holds_every_cumulative_cost() {
    let a = [0, 1];
    let b = [0, 2];
    let mut m = CostMatrix::new(2).unwrap();
    assert_eq!(align_full_matrix(&a, &b, &mut m), Ok(1));
    // boundary row [0, 4], boundary column [0, 1], interior min(0, 1, 4) + 1
    assert_eq!(m.get(0, 0), 0);
    assert_eq!(m.get(0, 1), 4);
    assert_eq!(m.get(1, 0), 1);
    assert_eq!(m.get(1, 1), 1);
}

#[test]
fn full_matrix_buffer_is_reused_across_calls() {
    let mut m = CostMatrix::new(3).unwrap();
    assert_eq!(
        align_full_matrix(&[5, 9, 2], &[1, 1, 1], &mut m),
        Ok(align_rolling_row(&[5, 9, 2], &[1, 1, 1]))
    );
    assert_eq!(align_full_matrix(&[4, 4, 4], &[4, 4, 4], &mut m), Ok(0));
    assert_eq!(m.get(2, 2), 0);
    assert_eq!(m.get(0, 2), 0);
}

#[test]
fn full_matrix_rejects_wrong_buffer_or_lengths() {
    let mut small = CostMatrix::new(2).unwrap();
    assert_eq!(
        align_full_matrix(&[1, 2, 3], &[3, 2, 1], &mut small),
        Err(AlignError::BufferSizeMismatch { buffer: 2, length: 3 })
    );
    assert_eq!(small.get(1, 1), 0);
    let mut big = CostMatrix::new(4).unwrap();
    assert_eq!(
        align_full_matrix(&[1, 2, 3], &[3, 2, 1], &mut big),
        Err(AlignError::BufferSizeMismatch { buffer: 4, length: 3 })
    );
    assert_eq!(
        align_full_matrix(&[1, 2], &[3, 2, 1], &mut small),
        Err(AlignError::LengthMismatch { left: 2, right: 3 })
    );
    assert_eq!(small.dim(), 2);
}

#[test]
fn self_alignment_is_zero() {
    let samples: [&[i32]; 4] = [&[7], &[0, 1], &[3, -8, 12, 12, 0], &[i32::MIN, i32::MAX, 0]];
    for xs in samples {
        let a = seq("a", xs);
        for s in STRATEGIES {
            assert_eq!(align(&a, &a, s), Ok(0));
        }
    }
}

#[test]
fn alignment_is_symmetric() {
    let a = seq("a", &[1, 5, -3, 8, 2]);
    let b = seq("b", &[0, 4, 4, -1, 9]);
    for s in STRATEGIES {
        assert_eq!(align(&a, &b, s), align(&b, &a, s));
    }
}

#[test]
fn strategies_agree() {
    let pairs: [(&[i32], &[i32]); 4] = [
        (&[3], &[-4]),
        (&[1, 2, 3, 4], &[4, 3, 2, 1]),
        (&[0, 10, 0, 10, 0, 10], &[10, 0, 10, 0, 10, 0]),
        (&[i32::MAX, i32::MIN, 17], &[i32::MIN, i32::MAX, -17]),
    ];
    for (x, y) in pairs {
        let a = seq("a", x);
        let b = seq("b", y);
        assert_eq!(align(&a, &b, Strategy::FullMatrix), align(&a, &b, Strategy::RollingRow));
    }
}

#[test]
fn exact_costs() {
    // single sample: the squared difference
    assert_eq!(align(&seq("a", &[3]), &seq("b", &[-4]), Strategy::RollingRow), Ok(49));
    // reversed ramp: the last row of the cumulative matrix is [14, 11, 14, 20]
    let a = seq("a", &[1, 2, 3, 4]);
    let b = seq("b", &[4, 3, 2, 1]);
    assert_eq!(align(&a, &b, Strategy::FullMatrix), Ok(20));
    // no square root: a constant offset of 2 over three samples costs 3 * 4
    let c = seq("c", &[1, 1, 1]);
    let d = seq("d", &[3, 3, 3]);
    assert_eq!(align(&c, &d, Strategy::RollingRow), Ok(12));
    // the largest local cost
    let e = seq("e", &[i32::MIN]);
    let f = seq("f", &[i32::MAX]);
    assert_eq!(align(&e, &f, Strategy::FullMatrix), Ok(0xffff_fffe_0000_0001));
}

#[test]
fn cost_is_never_negative() {
    let a = seq("a", &[-100, 50, 0]);
    let b = seq("b", &[100, -50, 7]);
    for s in STRATEGIES {
        let c = align(&a, &b, s).unwrap();
        assert!(c > 0);
    }
}

#[test]
fn length_mismatch_is_rejected() {
    let a = seq("a", &[0, 1, 2]);
    let b = seq("b", &[0, 1]);
    for s in STRATEGIES {
        assert_eq!(align(&a, &b, s), Err(AlignError::LengthMismatch { left: 3, right: 2 }));
        assert_eq!(align(&b, &a, s), Err(AlignError::LengthMismatch { left: 2, right: 3 }));
    }
}

#[test]
fn dataset_length_mismatch_names_the_pair() {
    let ds = vec![seq("a", &[0, 1]), seq("b", &[0, 2]), seq("c", &[0]), seq("d", &[0, 1, 2])];
    for s in STRATEGIES {
        assert_eq!(total_cost(&ds, s), Err(TotalError::LengthMismatch { first: 0, second: 2 }));
    }
}

#[test]
fn empty_dataset_totals_zero() {
    let ds: Vec<Sequence> = Vec::new();
    for s in STRATEGIES {
        assert_eq!(total_cost(&ds, s), Ok(0));
    }
}

#[test]
fn total_sums_every_pair_once() {
    let ds = vec![seq("a", &[0, 1]), seq("b", &[0, 2]), seq("c", &[3, 3])];
    let mut expected: u128 = 0;
    for i in 0..ds.len() {
        for j in i..ds.len() {
            expected += align(&ds[i], &ds[j], Strategy::RollingRow).unwrap();
        }
    }
    // a-b 1, a-c 9 + 4 = 13, b-c 9 + 1 = 10
    assert_eq!(expected, 24);
    for s in STRATEGIES {
        assert_eq!(total_cost(&ds, s), Ok(24));
    }
}

#[test]
fn doubled_dataset_of_copies_totals_zero() {
    let one = vec![seq("x", &[4, -2, 9]), seq("y", &[4, -2, 9])];
    let mut two = vec![seq("x", &[4, -2, 9]), seq("y", &[4, -2, 9])];
    two.extend(vec![seq("z", &[4, -2, 9]), seq("w", &[4, -2, 9])]);
    for s in STRATEGIES {
        assert_eq!(total_cost(&one, s), Ok(0));
        assert_eq!(total_cost(&two, s), Ok(0));
    }
    for a in &two {
        assert_eq!(align(a, a, Strategy::RollingRow), Ok(0));
    }
}

#[test]
fn local_cost_and_minimum() {
    let xs = [i32::MIN, 3];
    let ys = [i32::MAX, -2];
    assert_eq!(square_dist(&xs, 1, &ys, 1), 25);
    assert_eq!(square_dist(&xs, 0, &ys, 0), 0xffff_fffe_0000_0001);
    assert_eq!(min3_cost(4, 2, 9), 2);
    assert_eq!(min3_cost(3, 3, 1), 1);
    assert_eq!(min3_cost(0, 5, 5), 0);
}

#[test]
fn empty_sequence_is_refused() {
    assert!(Sequence::new("e".to_string(), Vec::new()).is_none());
    let s = seq("lbl", &[2, 4]);
    assert_eq!(s.label(), "lbl");
    assert_eq!(s.length(), 2);
    assert_eq!(s.at(1), 4);
    assert_eq!(s.samples(), &[2, 4]);
}

#[test]
fn rooted_metric_takes_integer_square_root() {
    assert_eq!(floor_sqrt(0), 0);
    assert_eq!(floor_sqrt(1), 1);
    assert_eq!(floor_sqrt(15), 3);
    assert_eq!(floor_sqrt(16), 4);
    assert_eq!(floor_sqrt(u128::MAX), u64::MAX as u128);
    assert_eq!(apply_metric(50, Metric::Squared), 50);
    assert_eq!(apply_metric(50, Metric::Rooted), 7);
    let c = seq("c", &[1, 1, 1]);
    let d = seq("d", &[3, 3, 3]);
    assert_eq!(align_with_metric(&c, &d, Strategy::FullMatrix, Metric::Squared), Ok(12));
    assert_eq!(align_with_metric(&c, &d, Strategy::RollingRow, Metric::Rooted), Ok(3));
    assert_eq!(
        align_with_metric(&c, &seq("e", &[1]), Strategy::RollingRow, Metric::Rooted),
        Err(AlignError::LengthMismatch { left: 3, right: 1 })
    );
}

#[test]
fn millis_of_a_duration() {
    assert_eq!(duration_millis(0, 0), 0);
    assert_eq!(duration_millis(1, 500_000_000), 1500);
    assert_eq!(duration_millis(2, 999_999), 2000);
    assert_eq!(duration_millis(u64::MAX, 0), u64::MAX);
}

#[test]
fn measured_computation_runs_once() {
    let ds = vec![seq("a", &[0, 1]), seq("b", &[0, 2])];
    let mut total = None;
    let mut calls = 0;
    let ms = measure_time_millis(|| {
        calls += 1;
        total = Some(total_cost(&ds, Strategy::RollingRow));
    });
    assert_eq!(calls, 1);
    assert_eq!(total, Some(Ok(1)));
    assert!(ms < 60_000);
}

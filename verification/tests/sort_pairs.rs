use faer_lu::sort::{sort_indices, IndexValuePairs, Ptr};
use rand::rngs::StdRng;
use rand::{Rng, SeedableRng};

#[test]
fn sort_pairs_small() {
    let mut v = IndexValuePairs {
        indices: vec![3u64, 2, 2, 4, 1],
        values: vec![1.0f64, 2.0, 3.0, 4.0, 5.0],
    };
    sort_indices(&mut v);
    assert_eq!(v.indices, vec![1, 2, 2, 3, 4]);
    assert_eq!(v.values, vec![5.0, 2.0, 3.0, 1.0, 4.0]);
}

#[test]
fn sort_pairs_big() {
    let rng = &mut StdRng::seed_from_u64(0);

    let a: Vec<u64> = (0..1000).map(|_| rng.gen::<u32>() as u64).collect();
    let b: Vec<f64> = (0..1000).map(|_| rng.gen::<f64>()).collect();

    let mut expected: Vec<(u64, f64)> = a.iter().copied().zip(b.iter().copied()).collect();
    // A stable reference sort: equal keys keep their original order, which is
    // what the insertion-based pair sort produces as well.
    expected.sort_by_key(|p| p.0);

    let mut v = IndexValuePairs { indices: a, values: b };
    sort_indices(&mut v);

    for i in 0..1000 {
        assert_eq!(v.indices[i], expected[i].0);
        assert_eq!(v.values[i], expected[i].1);
    }
}

#[test]
fn pair_cursor_primitives() {
    let mut v = IndexValuePairs { indices: vec![9u64, 1, 5], values: vec![10u64, 20, 30] };
    assert_eq!(Ptr::len(&v), 3);
    assert!(v.less(1, 0));
    assert!(!v.less(0, 1));
    v.swap_idx(0, 2);
    assert_eq!(v.indices, vec![5, 1, 9]);
    assert_eq!(v.values, vec![30, 20, 10]);
}

#[test]
fn sort_pairs_ragged_window() {
    // Only the common prefix of the two columns is sortable.
    let mut v = IndexValuePairs { indices: vec![2u64, 1, 7], values: vec![0u64, 1] };
    assert_eq!(Ptr::len(&v), 2);
    sort_indices(&mut v);
    assert_eq!(v.indices[0], 1);
    assert_eq!(v.indices[1], 2);
    assert_eq!(v.indices[2], 7);
    assert_eq!(v.values, vec![1, 0]);
}

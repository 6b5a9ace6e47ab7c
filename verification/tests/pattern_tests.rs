use sparsity_pattern::{SparseFormatError, SparsityPattern};

fn collect_entries(p: &SparsityPattern) -> Vec<(usize, usize)> {
    let mut it = p.entries();
    let mut out = Vec::new();
    while let Some(e) = it.next() {
        out.push(e);
    }
    out
}

#[test]
fn valid_pattern_construction_and_entries() {
    let offsets = vec![0, 2, 3, 4];
    let indices = vec![0, 2, 1, 0];
    let p = SparsityPattern::try_from_offsets_and_indices(3, 4, offsets, indices).unwrap();
    assert_eq!(p.major_dim(), 3);
    assert_eq!(p.minor_dim(), 4);
    assert_eq!(p.nnz(), 4);
    assert_eq!(collect_entries(&p), vec![(0, 0), (0, 2), (1, 1), (2, 0)]);
}

#[test]
fn minor_index_out_of_bounds_is_reported() {
    let r = SparsityPattern::try_from_offsets_and_indices(2, 4, vec![0, 1, 1], vec![5]);
    assert_eq!(r.unwrap_err(), SparseFormatError::IndexOutOfBounds);
}

#[test]
fn duplicate_minor_index_is_reported() {
    let r = SparsityPattern::try_from_offsets_and_indices(2, 4, vec![0, 2, 2], vec![1, 1]);
    assert_eq!(r.unwrap_err(), SparseFormatError::DuplicateEntry);
}

#[test]
fn decreasing_offsets_are_reported() {
    let r = SparsityPattern::try_from_offsets_and_indices(2, 4, vec![0, 2, 1], vec![0, 1, 0]);
    assert_eq!(r.unwrap_err(), SparseFormatError::InvalidStructure);
}

#[test]
fn empty_pattern_of_zero_major_dim() {
    let p = SparsityPattern::new(0, 5);
    assert_eq!(p.major_dim(), 0);
    assert_eq!(p.minor_dim(), 5);
    assert_eq!(p.nnz(), 0);
    assert_eq!(collect_entries(&p), vec![]);
    assert!(p.lane(0).is_none());
}

#[test]
fn empty_pattern_has_all_zero_offsets() {
    let p = SparsityPattern::new(3, 7);
    assert_eq!(p.major_offsets(), &[0, 0, 0, 0]);
    assert_eq!(p.minor_indices(), &[] as &[usize]);
    assert_eq!(p.major_dim(), 3);
    assert_eq!(p.nnz(), 0);
    assert_eq!(collect_entries(&p), vec![]);
}

#[test]
fn wrong_offsets_length_is_reported() {
    let r = SparsityPattern::try_from_offsets_and_indices(2, 4, vec![0, 1], vec![1]);
    assert_eq!(r.unwrap_err(), SparseFormatError::InvalidStructure);
}

#[test]
fn nonzero_first_offset_is_reported() {
    let r = SparsityPattern::try_from_offsets_and_indices(1, 4, vec![1, 1], vec![1]);
    assert_eq!(r.unwrap_err(), SparseFormatError::InvalidStructure);
}

#[test]
fn wrong_last_offset_is_reported() {
    let r = SparsityPattern::try_from_offsets_and_indices(1, 4, vec![0, 2], vec![1]);
    assert_eq!(r.unwrap_err(), SparseFormatError::InvalidStructure);
}

#[test]
fn unsorted_lane_is_reported() {
    let r = SparsityPattern::try_from_offsets_and_indices(1, 4, vec![0, 2], vec![2, 1]);
    assert_eq!(r.unwrap_err(), SparseFormatError::InvalidStructure);
}

#[test]
fn offset_past_index_storage_is_reported() {
    let r = SparsityPattern::try_from_offsets_and_indices(2, 4, vec![0, 3, 2], vec![0, 1]);
    assert_eq!(r.unwrap_err(), SparseFormatError::InvalidStructure);
}

#[test]
fn minor_index_equal_to_minor_dim_is_accepted() {
    let p = SparsityPattern::try_from_offsets_and_indices(1, 4, vec![0, 1], vec![4]).unwrap();
    assert_eq!(p.minor_indices(), &[4]);
}

#[test]
fn minor_index_above_minor_dim_is_rejected() {
    let r = SparsityPattern::try_from_offsets_and_indices(1, 4, vec![0, 1], vec![5]);
    assert_eq!(r.unwrap_err(), SparseFormatError::IndexOutOfBounds);
}

#[test]
fn bound_fault_takes_precedence_in_scan_order() {
    let r = SparsityPattern::try_from_offsets_and_indices(1, 4, vec![0, 2], vec![5, 5]);
    assert_eq!(r.unwrap_err(), SparseFormatError::IndexOutOfBounds);
}

#[test]
fn round_trip_reproduces_the_arrays() {
    let offsets = vec![0, 2, 2, 5];
    let indices = vec![1, 3, 0, 2, 4];
    let p = SparsityPattern::try_from_offsets_and_indices(
        3,
        4,
        offsets.clone(),
        indices.clone(),
    )
    .unwrap();
    assert_eq!(p.major_offsets(), offsets.as_slice());
    assert_eq!(p.minor_indices(), indices.as_slice());
    assert_eq!(p.minor_dim(), 4);
}

#[test]
fn lane_views_distinguish_empty_from_absent() {
    let p = SparsityPattern::try_from_offsets_and_indices(2, 4, vec![0, 0, 2], vec![1, 3])
        .unwrap();
    assert_eq!(p.lane(0), Some(&[] as &[usize]));
    assert_eq!(p.lane(1), Some(&[1usize, 3] as &[usize]));
    assert_eq!(p.lane(2), None);
    assert_eq!(p.lane(100), None);
}

#[test]
fn lane_views_match_the_offset_ranges() {
    let p = SparsityPattern::try_from_offsets_and_indices(3, 4, vec![0, 2, 3, 4], vec![0, 2, 1, 0])
        .unwrap();
    assert_eq!(p.lane(0), Some(&[0usize, 2] as &[usize]));
    assert_eq!(p.lane(1), Some(&[1usize] as &[usize]));
    assert_eq!(p.lane(2), Some(&[0usize] as &[usize]));
    assert_eq!(p.lane(3), None);
}

#[test]
fn repeated_lane_calls_return_identical_contents() {
    let p = SparsityPattern::try_from_offsets_and_indices(3, 4, vec![0, 2, 3, 4], vec![0, 2, 1, 0])
        .unwrap();
    for i in 0..4 {
        assert_eq!(p.lane(i), p.lane(i));
    }
}

#[test]
fn iterator_skips_empty_lanes() {
    let p = SparsityPattern::try_from_offsets_and_indices(
        5,
        4,
        vec![0, 0, 2, 2, 3, 3],
        vec![0, 1, 2],
    )
    .unwrap();
    assert_eq!(collect_entries(&p), vec![(1, 0), (1, 1), (3, 2)]);
}

#[test]
fn entries_match_direct_indexing() {
    let offsets = vec![0, 1, 1, 4, 6];
    let indices = vec![2, 0, 1, 3, 1, 2];
    let p = SparsityPattern::try_from_offsets_and_indices(
        4,
        4,
        offsets.clone(),
        indices.clone(),
    )
    .unwrap();
    let mut expected = Vec::new();
    for lane in 0..4 {
        for k in offsets[lane]..offsets[lane + 1] {
            expected.push((lane, indices[k]));
        }
    }
    assert_eq!(collect_entries(&p), expected);
    assert_eq!(collect_entries(&p).len(), p.nnz());
}

#[test]
fn exhausted_iterator_stays_exhausted() {
    let p = SparsityPattern::try_from_offsets_and_indices(1, 4, vec![0, 1], vec![2]).unwrap();
    let mut it = p.entries();
    assert_eq!(it.next(), Some((0, 2)));
    assert_eq!(it.next(), None);
    assert_eq!(it.next(), None);
}

#[test]
fn fresh_iterators_are_independent() {
    let p = SparsityPattern::try_from_offsets_and_indices(2, 4, vec![0, 1, 2], vec![3, 0])
        .unwrap();
    let mut a = p.entries();
    assert_eq!(a.next(), Some((0, 3)));
    let mut b = p.entries();
    assert_eq!(b.next(), Some((0, 3)));
    assert_eq!(a.next(), Some((1, 0)));
    assert_eq!(b.next(), Some((1, 0)));
}

#[test]
fn cloned_iterator_continues_from_the_same_cursor() {
    let p = SparsityPattern::try_from_offsets_and_indices(2, 4, vec![0, 2, 3], vec![1, 2, 0])
        .unwrap();
    let mut it = p.entries();
    assert_eq!(it.next(), Some((0, 1)));
    let mut copy = it.clone();
    assert_eq!(it.next(), Some((0, 2)));
    assert_eq!(copy.next(), Some((0, 2)));
}

#[test]
fn cloned_pattern_is_equal() {
    let p = SparsityPattern::try_from_offsets_and_indices(2, 4, vec![0, 2, 3], vec![1, 2, 0])
        .unwrap();
    let q = p.clone();
    assert_eq!(p, q);
    assert_eq!(q.major_offsets(), &[0, 2, 3]);
    assert_eq!(q.minor_indices(), &[1, 2, 0]);
    assert_eq!(q.minor_dim(), 4);
    assert_eq!(collect_entries(&q), collect_entries(&p));
}

use rlnc_simdx::tuning::{coarse_candidates, refinement_candidates};

#[test]
fn candidate_search_is_bounded_and_refined() {
    assert_eq!(coarse_candidates(1), vec![1]);
    assert_eq!(coarse_candidates(12), vec![1, 2, 4, 8, 12]);
    assert_eq!(refinement_candidates(1, 12), vec![1, 2, 3]);
    assert_eq!(refinement_candidates(8, 12), vec![6, 7, 8, 9, 10]);
    assert_eq!(refinement_candidates(12, 12), vec![10, 11, 12]);
}

#[test]
fn candidates_at_the_edges() {
    assert_eq!(coarse_candidates(0), vec![0]);
    assert_eq!(coarse_candidates(16), vec![1, 2, 4, 8, 16]);
    let all = coarse_candidates(usize::MAX);
    assert_eq!(all.len(), 65);
    assert_eq!(all[63], 1usize << 63);
    assert_eq!(all[64], usize::MAX);
    assert_eq!(refinement_candidates(5, 0), Vec::<usize>::new());
    assert_eq!(refinement_candidates(usize::MAX, usize::MAX).len(), 3);
}

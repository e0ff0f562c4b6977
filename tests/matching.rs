use ribozap::matching::{
    calculate_amino_acid_similarity, calculate_dna_similarity, calculate_kmer_similarity,
    find_longest_common_subsequence,
    identify_matching_positions, score_positions, FULL_SCORE, SCORE_UNIT,
};
use ribozap::engine::{needs_recompute, strand_confidence};

#[test]
fn similarity_literal_values() {
    assert_eq!(calculate_dna_similarity("ATCG", "TTCG"), 75 * SCORE_UNIT);
    assert_eq!(calculate_dna_similarity("ATCG", "TTTT"), 25 * SCORE_UNIT);
    assert_eq!(75.0, (calculate_dna_similarity("ATCG", "TTCG") as f64) / (SCORE_UNIT as f64));
}

#[test]
fn similarity_is_reflexive() {
    for a in ["A", "ATCG", "acgtacgt", "AUGGCC"] {
        assert_eq!(calculate_dna_similarity(a, a), FULL_SCORE);
    }
}

#[test]
fn similarity_of_empty_input_is_zero() {
    assert_eq!(calculate_dna_similarity("", "ATCG"), 0);
    assert_eq!(calculate_dna_similarity("", ""), 0);
    assert_eq!(calculate_dna_similarity("ATCG", ""), 0);
}

#[test]
fn similarity_ignores_case_and_uses_the_shorter_length() {
    assert_eq!(calculate_dna_similarity("atcg", "ATCG"), FULL_SCORE);
    assert_eq!(calculate_dna_similarity("AT", "ATCG"), FULL_SCORE);
    assert_eq!(calculate_dna_similarity("ACG", "AAA"), 33_333_333);
}

#[test]
fn amino_acid_similarity_is_case_sensitive() {
    assert_eq!(calculate_amino_acid_similarity("MK", "mK"), 50 * SCORE_UNIT);
    assert_eq!(calculate_amino_acid_similarity("", "MK"), 0);
    assert_eq!(score_positions(&['A', 'B'], &['A', 'B', 'C']), FULL_SCORE);
}

#[test]
fn matching_positions_mask() {
    assert_eq!(identify_matching_positions("ATCG", "aTTg"), vec![true, true, false, true]);
    assert_eq!(identify_matching_positions("AT", "ATCG"), vec![true, true]);
    assert!(identify_matching_positions("", "ATCG").is_empty());
}

#[test]
fn longest_common_subsequence() {
    assert_eq!(find_longest_common_subsequence("ABCBDAB", "BDCABA"), "BDAB");
    assert_eq!(find_longest_common_subsequence("acgt", "ACGT"), "ACGT");
    assert_eq!(find_longest_common_subsequence("AGGTAB", "GXTXAYB"), "GTAB");
    assert_eq!(find_longest_common_subsequence("", "ACGT"), "");
}

#[test]
fn strand_confidence_averages_the_top_five() {
    assert_eq!(strand_confidence(&[]), 0);
    let u = SCORE_UNIT;
    assert_eq!(strand_confidence(&[90 * u, 80 * u, 70 * u, 60 * u, 50 * u, 10 * u]), 70 * u);
    assert_eq!(strand_confidence(&[10 * u, 50 * u, 90 * u, 60 * u, 80 * u, 70 * u]), 70 * u);
    assert_eq!(strand_confidence(&[30 * u, 60 * u]), 45 * u);
    assert_eq!(strand_confidence(&[1, 2]), 1);
}

#[test]
fn recompute_thresholds() {
    assert!(needs_recompute(0, 1));
    assert!(!needs_recompute(20, 21));
    assert!(needs_recompute(20, 23));
    assert!(needs_recompute(5, 7));
    assert!(needs_recompute(23, 20));
    assert!(!needs_recompute(12, 10));
    assert!(needs_recompute(10, 9));
}

#[test]
fn kmer_jaccard_similarity() {
    assert_eq!(calculate_kmer_similarity::<2>("ACGT", "acgt"), FULL_SCORE);
    assert_eq!(calculate_kmer_similarity::<2>("AAAA", "AAAT"), 50 * SCORE_UNIT);
    assert_eq!(calculate_kmer_similarity::<2>("ACGT", "TTTT"), 0);
    assert_eq!(calculate_kmer_similarity::<3>("AC", "ACG"), 0);
    assert_eq!(calculate_kmer_similarity::<0>("", ""), FULL_SCORE);
}

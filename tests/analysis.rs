use ribozap::analysis::{
    calculate_at_content, calculate_gc_content, calculate_hydrophobicity_index,
    calculate_purine_content, calculate_pyrimidine_content, count_charged_residues,
    estimate_molecular_weight,
};
use ribozap::codon::{
    calculate_codon_usage, count_orfs, count_start_codons, count_stop_codons,
    find_longest_orf, find_reading_frames, format_triplets, translate_all_reading_frames,
    translate_dna_to_amino, TranslationError,
};
use ribozap::weights::{
    calculate_protein_molecular_weight, get_all_molecular_weights, get_amino_acid_molecular_weight,
};

fn daltons(milli: u128) -> f64 {
    milli as f64 / 1000.0
}

#[test]
fn test_individual_amino_acid_weights() {
    assert_eq!(get_amino_acid_molecular_weight('A') as f64 / 1000.0, 71.04);
    assert_eq!(get_amino_acid_molecular_weight('G') as f64 / 1000.0, 57.02);
    assert_eq!(get_amino_acid_molecular_weight('W') as f64 / 1000.0, 186.08);
    assert_eq!(get_amino_acid_molecular_weight('*') as f64 / 1000.0, 0.0);
    assert_eq!(get_amino_acid_molecular_weight('X') as f64 / 1000.0, 0.0);
}

#[test]
fn test_protein_molecular_weight() {
    let weight = daltons(calculate_protein_molecular_weight("AG"));
    assert!((weight - 146.075).abs() < 0.001);
}

#[test]
fn test_empty_sequence() {
    assert_eq!(daltons(calculate_protein_molecular_weight("")), 18.015);
}

#[test]
fn weight_table_lists_the_twenty_amino_acids() {
    let all = get_all_molecular_weights();
    assert_eq!(all.len(), 20);
    assert!(all.contains(&('L', 113080)));
    assert!(all.contains(&('Y', 163060)));
}

#[test]
fn base_composition() {
    assert_eq!(calculate_gc_content("GGCCAT"), 66_666_666);
    assert_eq!(calculate_at_content("GGCCAT"), 33_333_333);
    assert_eq!(calculate_purine_content("aagg"), 100_000_000);
    assert_eq!(calculate_pyrimidine_content("ACGT"), 50_000_000);
    assert_eq!(calculate_gc_content(""), 0);
}

#[test]
fn translation_statistics() {
    assert_eq!(calculate_hydrophobicity_index("ATGTTTAAA"), 66_666_666);
    assert_eq!(calculate_hydrophobicity_index("ATGTT"), 0);
    assert_eq!(calculate_hydrophobicity_index("AT"), 0);
    assert_eq!(count_charged_residues("AAAGATCGT"), (2, 1));
    assert_eq!(count_charged_residues("aaagatcgt"), (0, 0));
}

#[test]
fn estimated_weights() {
    assert_eq!(estimate_molecular_weight("AT"), 0);
    assert_eq!(estimate_molecular_weight("ATGGCC"), 131040 + 71040 + 18015);
    assert_eq!(estimate_molecular_weight("ATGGC"), 18015);
    assert_eq!(estimate_molecular_weight("CCCGGGA"), 57020 + 97050 + 18015);
}

#[test]
fn translation_of_whole_sequences() {
    assert_eq!(translate_dna_to_amino("ATGTGG"), Ok(String::from("MW")));
    assert_eq!(translate_dna_to_amino("ATGTAA"), Ok(String::from("M*")));
    assert_eq!(translate_dna_to_amino("ATGT"), Err(TranslationError::LengthNotMultipleOfThree));
    assert_eq!(translate_dna_to_amino("ATGTGN"), Err(TranslationError::InvalidSequence));
    assert_eq!(translate_dna_to_amino("atg"), Err(TranslationError::InvalidSequence));
    assert_eq!(translate_dna_to_amino(""), Ok(String::new()));
    assert_eq!(translate_all_reading_frames("ATGTGG").unwrap(), vec!["MW", "PH"]);
}

#[test]
fn codon_scans() {
    assert_eq!(count_start_codons("ATGATG"), 2);
    assert_eq!(count_start_codons("aug"), 1);
    assert_eq!(count_start_codons("AT"), 0);
    assert_eq!(count_stop_codons("TAAG"), 1);
    assert_eq!(count_stop_codons("TGATAG"), 2);
    assert_eq!(count_orfs("ATGAAATAGATGTAA"), 2);
    assert_eq!(count_orfs("atgaaa"), 0);
}

#[test]
fn reading_frames_and_open_frames() {
    assert_eq!(find_reading_frames("ATGC"), vec!["ATGC", "TGC", "GC", "GCAT", "CAT", "AT"]);
    assert_eq!(find_reading_frames("A"), vec!["A", "T"]);
    assert_eq!(find_longest_orf("ATGAAATAA").unwrap(), (String::from("MK"), 0, 9));
    assert_eq!(find_longest_orf("CCATGTAA").unwrap(), (String::from("M"), 0, 6));
    assert_eq!(find_longest_orf("").unwrap(), (String::new(), 0, 0));
}

#[test]
fn codon_usage_and_grouping() {
    let usage = calculate_codon_usage("ATGATGccc").unwrap();
    assert_eq!(usage, vec![(String::from("ATG"), 2), (String::from("CCC"), 1)]);
    assert_eq!(format_triplets("ATGCATG"), "ATG CAT G");
    assert_eq!(format_triplets("ATGCAT"), "ATG CAT");
    assert_eq!(format_triplets(""), "");
}

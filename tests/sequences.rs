use ribozap::codon::{
    calculate_amino_acid_length, count_complete_incomplete_codons, count_total_codons,
    dna_codon_to_amino_acid,
};
use ribozap::conversion::{
    dna_sequence_to_mrna, dna_to_mrna, get_complement, get_complementary_base,
    get_reverse_complement,
};
use ribozap::app::App;

#[test]
fn complementary_bases_in_either_case() {
    assert_eq!(get_complementary_base('A'), 'T');
    assert_eq!(get_complementary_base('t'), 'A');
    assert_eq!(get_complementary_base('G'), 'C');
    assert_eq!(get_complementary_base('c'), 'G');
    assert_eq!(get_complementary_base('N'), '?');
}

#[test]
fn transcription_of_bases() {
    assert_eq!(dna_to_mrna('A'), 'U');
    assert_eq!(dna_to_mrna('t'), 'A');
    assert_eq!(dna_to_mrna('G'), 'C');
    assert_eq!(dna_to_mrna('C'), 'G');
    assert_eq!(dna_to_mrna('x'), '?');
    assert_eq!(dna_sequence_to_mrna("ATGC"), "UACG");
    assert_eq!(dna_sequence_to_mrna(""), "");
}

#[test]
fn complement_keeps_order_and_reverse_complement_reverses() {
    assert_eq!(get_complement("AAGC"), "TTCG");
    assert_eq!(get_reverse_complement("AAGC"), "GCTT");
    assert_eq!(get_complement("acgtN"), "TGCA?");
    assert_eq!(get_reverse_complement(""), "");
}

#[test]
fn codons_translate_through_the_standard_code() {
    assert_eq!(dna_codon_to_amino_acid("ATG"), "M");
    assert_eq!(dna_codon_to_amino_acid("TGG"), "W");
    assert_eq!(dna_codon_to_amino_acid("TAA"), "*");
    assert_eq!(dna_codon_to_amino_acid("AUG"), "?");
    assert_eq!(dna_codon_to_amino_acid("atg"), "?");
    assert_eq!(dna_codon_to_amino_acid("AT"), "?");
    assert_eq!(dna_codon_to_amino_acid("ATGA"), "?");
}

#[test]
fn codon_counts() {
    assert_eq!(count_total_codons("ATGCATG"), 2);
    assert_eq!(count_complete_incomplete_codons("ATGCATG"), (2, 1));
    assert_eq!(count_complete_incomplete_codons("ATGCAT"), (2, 0));
    assert_eq!(calculate_amino_acid_length("AT"), 0);
    assert_eq!(calculate_amino_acid_length("ATGATG"), 2);
}

#[test]
fn typing_updates_companion_and_tracks() {
    let mut app = App::new();
    for c in ['A', 'T', 'G', 'C'] {
        app.on_key(c);
    }
    assert_eq!(app.input, "ATGC");
    assert_eq!(app.complementary, "TACG");
    assert_eq!(app.mrna, "UACG");
    assert_eq!(app.amino_acids, "Y _");
    assert_eq!(app.amino_acid_symbols, vec!['Y', '_']);
    assert_eq!(app.current_codon_position, 1);
    assert_eq!(app.get_current_partial_codon(), "G");
    assert!(app.protein_match_needed);
    app.on_backspace();
    assert_eq!(app.input, "ATG");
    assert_eq!(app.complementary, "TAC");
    assert_eq!(app.get_current_partial_codon(), "");
}

#[test]
fn typing_on_the_companion_strand_rederives_the_forward_strand() {
    let mut app = App::new();
    app.on_key('A');
    app.on_key('C');
    app.toggle_strand_mode();
    assert!(!app.is_positive_strand);
    assert!(!app.protein_match_needed);
    assert_eq!(app.input, "TG");
    assert_eq!(app.complementary, "AC");
    app.on_key('T');
    assert_eq!(app.complementary, "ACT");
    assert_eq!(app.input, "TGA");
    assert_eq!(app.mrna, "ACU");
}

#[test]
fn the_strand_being_typed_is_kept_as_typed() {
    let mut app = App::new();
    app.toggle_strand_mode();
    assert!(!app.is_positive_strand);
    app.on_key('a');
    app.on_key('x');
    assert_eq!(app.complementary, "ax");
    assert_eq!(app.input, "T?");
    app.on_backspace();
    assert_eq!(app.complementary, "a");
    assert_eq!(app.input, "T");
    app.toggle_strand_mode();
    assert!(app.is_positive_strand);
    assert_eq!(app.input, "a");
    assert_eq!(app.complementary, "T");
    app.toggle_strand_mode();
    assert_eq!(app.input, "T");
    assert_eq!(app.complementary, "a");
    app.on_key('g');
    app.on_backspace();
    assert_eq!(app.complementary, "a");
}

#[test]
fn bases_are_read_through_their_uppercase_form() {
    assert_eq!(get_complementary_base('\u{1E97}'), 'A');
    assert_eq!(get_complementary_base('\u{1E9A}'), 'T');
    assert_eq!(dna_to_mrna('\u{1E9A}'), 'U');
    assert_eq!(get_complementary_base('\u{00DF}'), '?');
}

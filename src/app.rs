//! The interactive session: the strand being typed, its companion strand,
//! transcription and translation tracks, the loaded catalog, and the match
//! shown for the current query, recomputed lazily once per frame.

use vstd::prelude::*;
use vstd::string::StrSliceExecFns;
use crate::text::{chars_of, string_of, push_char, pop_char};
use crate::conversion::{complement_seq, mrna_seq, get_complement, dna_sequence_to_mrna};
use crate::codon::{amino_symbols, spaced, mrna_amino_symbols, join_spaced};
use crate::dataset::{SmallProtein, DatasetProgress};
use crate::engine::{
    compute_best_match, recompute_due, needs_recompute, strand_confidence, confidence_of,
    match_holds, MatchResult, DEFAULT_RANKED,
};
use crate::dataset::{views_of, ProteinView};
use crate::loading::{Catalog, CatalogState, progress_spec, simulated_step};
use crate::search::SearchField;

verus! {

pub struct App {
    /// The forward strand, 5' to 3'.
    pub input: String,
    /// The base-by-base complement of `input`, in the same order.
    pub complementary: String,
    /// The mRNA transcribed from `input`.
    pub mrna: String,
    /// The amino acid track, symbols separated by spaces.
    pub amino_acids: String,
    /// The amino acid track, one symbol per codon.
    pub amino_acid_symbols: Vec<char>,
    /// How many bases of the last, partial codon have been typed.
    pub current_codon_position: usize,
    pub catalog: Catalog,
    pub closest_protein: Option<SmallProtein>,
    pub matching_positions: Vec<bool>,
    pub current_strand_confidence: u64,
    pub opposite_strand_confidence: u64,
    pub ranked_candidates: Vec<(SmallProtein, u64)>,
    /// Whether the user types into the forward strand.
    pub is_positive_strand: bool,
    pub last_input_length: usize,
    /// Whether the match must be recomputed before it is next shown.
    pub protein_match_needed: bool,
    pub show_protein_searcher: bool,
    pub searcher_input: String,
    pub searcher_field: SearchField,
    pub filtered_proteins: Vec<SmallProtein>,
    pub selected_protein_index: usize,
    pub selected_search_field: usize,
    /// The stored filters, at most one per field.
    pub search_filters: Vec<(SearchField, String)>,
    pub multi_search_mode: bool,
    pub show_protein_detail: bool,
    pub detailed_protein: Option<SmallProtein>,
}

/// The records of a catalog that a matching pass reads: those loaded, or none.
pub open spec fn catalog_views(c: Catalog) -> Seq<ProteinView> {
    if c.state is Loaded {
        views_of(c.state->Loaded_0@)
    } else {
        Seq::empty()
    }
}

impl App {
    /// The strands and tracks agree: the strand not being typed is the
    /// complement of the one being typed, and the tracks derive from the
    /// forward strand.
    pub open spec fn well_formed(&self) -> bool {
        &&& if self.is_positive_strand {
            self.complementary@ == complement_seq(self.input@)
        } else {
            self.input@ == complement_seq(self.complementary@)
        }
        &&& self.mrna@ == mrna_seq(self.input@)
        &&& self.amino_acid_symbols@ == amino_symbols(self.mrna@)
        &&& self.amino_acids@ == spaced(self.amino_acid_symbols@)
        &&& self.current_codon_position == self.mrna@.len() % 3
    }

    /// The match fields of `self` are what a matching pass yields for the
    /// strands, strand mode and catalog of `src`: the empty result for an
    /// empty query or no loaded records, otherwise the outcome of
    /// `compute_best_match`.
    pub open spec fn shows_match_of(self, src: App) -> bool {
        let recs = catalog_views(src.catalog);
        if src.input@.len() == 0 || recs.len() == 0 {
            &&& self.closest_protein is None
            &&& self.matching_positions@.len() == 0
            &&& self.current_strand_confidence == 0
            &&& self.opposite_strand_confidence == 0
            &&& self.ranked_candidates@.len() == 0
        } else {
            exists|m: MatchResult|
                {
                    &&& match_holds(
                        m,
                        recs,
                        src.input@,
                        src.complementary@,
                        src.is_positive_strand,
                        DEFAULT_RANKED,
                    )
                    &&& self.closest_protein == m.best_record
                    &&& self.matching_positions == m.position_mask
                    &&& self.current_strand_confidence == m.current_strand_confidence
                    &&& self.opposite_strand_confidence == m.opposite_strand_confidence
                    &&& self.ranked_candidates == m.ranked_candidates
                }
        }
    }

    /// `self` differs from `other` in the match fields at most.
    pub open spec fn same_apart_from_match(self, other: App) -> bool {
        self == App {
            closest_protein: self.closest_protein,
            matching_positions: self.matching_positions,
            current_strand_confidence: self.current_strand_confidence,
            opposite_strand_confidence: self.opposite_strand_confidence,
            ranked_candidates: self.ranked_candidates,
            ..other
        }
    }

    pub fn new() -> (r: App)
        ensures
            r.well_formed(),
            r.input@.len() == 0,
            r.is_positive_strand,
            !r.protein_match_needed,
            r.closest_protein is None,
            r.catalog.state is NotLoaded,
            !r.catalog.in_flight,
    {
        let r = App {
            input: String::new(),
            complementary: String::new(),
            mrna: String::new(),
            amino_acids: String::new(),
            amino_acid_symbols: Vec::new(),
            current_codon_position: 0,
            catalog: Catalog::new(),
            closest_protein: None,
            matching_positions: Vec::new(),
            current_strand_confidence: 0,
            opposite_strand_confidence: 0,
            ranked_candidates: Vec::new(),
            is_positive_strand: true,
            last_input_length: 0,
            protein_match_needed: false,
            show_protein_searcher: false,
            searcher_input: String::new(),
            searcher_field: SearchField::Species,
            filtered_proteins: Vec::new(),
            selected_protein_index: 0,
            selected_search_field: 0,
            search_filters: Vec::new(),
            multi_search_mode: false,
            show_protein_detail: false,
            detailed_protein: None,
        };
        proof {
            assert(complement_seq(r.input@) =~= Seq::<char>::empty());
            assert(mrna_seq(r.input@) =~= Seq::<char>::empty());
            assert(amino_symbols(r.mrna@) =~= Seq::<char>::empty());
        }
        r
    }

    /// Shows a progress event of the running ingestion.
    pub fn update_progress(&mut self, progress: DatasetProgress)
        ensures
            final(self).catalog == progress_spec(old(self).catalog, progress),
    {
        self.catalog.apply_progress(progress);
    }

    /// Derives the strand not being typed, and the tracks, from the strand
    /// being typed, which stays as it is; marks the match stale when the
    /// recompute rule asks.
    pub fn update_sequences(&mut self)
        ensures
            final(self).well_formed(),
            old(self).is_positive_strand ==> final(self).input@ == old(self).input@
                && final(self).complementary@ == complement_seq(old(self).input@),
            !old(self).is_positive_strand ==> final(self).complementary@ == old(self).complementary@
                && final(self).input@ == complement_seq(old(self).complementary@),
            final(self).is_positive_strand == old(self).is_positive_strand,
            final(self).last_input_length == final(self).input@.len(),
            final(self).protein_match_needed == (old(self).protein_match_needed || recompute_due(
                old(self).last_input_length,
                final(self).input@.len() as usize,
            )),
            final(self).catalog == old(self).catalog,
    {
        if self.is_positive_strand {
            self.complementary = get_complement(self.input.as_str());
        } else {
            self.input = get_complement(self.complementary.as_str());
        }
        self.mrna = dna_sequence_to_mrna(self.input.as_str());
        self.current_codon_position = self.mrna.unicode_len() % 3;
        self.update_amino_acids();
        let current_length = self.input.unicode_len();
        if needs_recompute(self.last_input_length, current_length) {
            self.protein_match_needed = true;
        }
        self.last_input_length = current_length;
    }

    fn update_amino_acids(&mut self)
        ensures
            final(self).amino_acid_symbols@ == amino_symbols(old(self).mrna@),
            final(self).amino_acids@ == spaced(final(self).amino_acid_symbols@),
            final(self).input == old(self).input,
            final(self).complementary == old(self).complementary,
            final(self).mrna == old(self).mrna,
            final(self).current_codon_position == old(self).current_codon_position,
            final(self).last_input_length == old(self).last_input_length,
            final(self).protein_match_needed == old(self).protein_match_needed,
            final(self).is_positive_strand == old(self).is_positive_strand,
            final(self).catalog == old(self).catalog,
    {
        self.amino_acid_symbols = mrna_amino_symbols(self.mrna.as_str());
        self.amino_acids = join_spaced(self.amino_acid_symbols.as_slice());
    }

    /// Appends a base to the strand being typed.
    pub fn on_key(&mut self, c: char)
        requires
            old(self).input@.len() < usize::MAX,
            old(self).complementary@.len() < usize::MAX,
        ensures
            final(self).well_formed(),
            old(self).is_positive_strand ==> final(self).input@ == old(self).input@.push(c),
            !old(self).is_positive_strand ==> final(self).complementary@ == old(self).complementary@.push(c),
            final(self).is_positive_strand == old(self).is_positive_strand,
            final(self).protein_match_needed == (old(self).protein_match_needed || recompute_due(
                old(self).last_input_length,
                final(self).input@.len() as usize,
            )),
    {
        if self.is_positive_strand {
            push_char(&mut self.input, c);
        } else {
            push_char(&mut self.complementary, c);
        }
        self.update_sequences();
    }

    /// Removes the last base of the strand being typed.
    pub fn on_backspace(&mut self)
        ensures
            final(self).well_formed(),
            old(self).is_positive_strand ==> final(self).input@ == (if old(self).input@.len() == 0 {
                old(self).input@
            } else {
                old(self).input@.drop_last()
            }),
            !old(self).is_positive_strand ==> final(self).complementary@ == (if old(
                self,
            ).complementary@.len() == 0 {
                old(self).complementary@
            } else {
                old(self).complementary@.drop_last()
            }),
            final(self).is_positive_strand == old(self).is_positive_strand,
            final(self).protein_match_needed == (old(self).protein_match_needed || recompute_due(
                old(self).last_input_length,
                final(self).input@.len() as usize,
            )),
    {
        if self.is_positive_strand {
            pop_char(&mut self.input);
        } else {
            pop_char(&mut self.complementary);
        }
        self.update_sequences();
    }

    /// Runs a matching pass over the loaded catalog and stores its outcome;
    /// nothing else changes.
    pub fn find_closest_protein(&mut self)
        ensures
            final(self).shows_match_of(*old(self)),
            final(self).same_apart_from_match(*old(self)),
    {
        let records = self.catalog.records();
        proof {
            if !(self.catalog.state is Loaded) {
                assert(views_of(records@) =~= Seq::<ProteinView>::empty());
            }
        }
        let result = compute_best_match(
            self.input.as_str(),
            self.complementary.as_str(),
            self.is_positive_strand,
            records,
            DEFAULT_RANKED,
        );
        let ghost whole = result;
        self.closest_protein = result.best_record;
        self.matching_positions = result.position_mask;
        self.current_strand_confidence = result.current_strand_confidence;
        self.opposite_strand_confidence = result.opposite_strand_confidence;
        self.ranked_candidates = result.ranked_candidates;
        proof {
            assert(self.closest_protein == whole.best_record);
        }
    }

    /// The strand confidence of a distribution of similarity scores.
    pub fn calculate_strand_confidence(&self, similarities: &[u64]) -> (r: u64)
        ensures
            r == confidence_of(similarities@),
    {
        strand_confidence(similarities)
    }

    /// Switches typing to the other strand: the two strands trade places,
    /// and the match is recomputed at once for the new strands.
    pub fn toggle_strand_mode(&mut self)
        requires
            old(self).well_formed(),
        ensures
            final(self).well_formed(),
            final(self).is_positive_strand == !old(self).is_positive_strand,
            final(self).input@ == old(self).complementary@,
            final(self).complementary@ == old(self).input@,
            final(self).shows_match_of(*final(self)),
            !final(self).protein_match_needed,
    {
        std::mem::swap(&mut self.input, &mut self.complementary);
        self.is_positive_strand = !self.is_positive_strand;
        self.update_sequences();
        self.protein_match_needed = false;
        let ghost mid = *self;
        self.find_closest_protein();
        proof {
            let recs = catalog_views(mid.catalog);
            if !(mid.input@.len() == 0 || recs.len() == 0) {
                let m = choose|m: MatchResult|
                    {
                        &&& match_holds(
                            m,
                            recs,
                            mid.input@,
                            mid.complementary@,
                            mid.is_positive_strand,
                            DEFAULT_RANKED,
                        )
                        &&& self.closest_protein == m.best_record
                        &&& self.matching_positions == m.position_mask
                        &&& self.current_strand_confidence == m.current_strand_confidence
                        &&& self.opposite_strand_confidence == m.opposite_strand_confidence
                        &&& self.ranked_candidates == m.ranked_candidates
                    };
                assert(match_holds(
                    m,
                    catalog_views(self.catalog),
                    self.input@,
                    self.complementary@,
                    self.is_positive_strand,
                    DEFAULT_RANKED,
                ));
            }
        }
    }

    /// Once per frame: runs the matching pass if an edit asked for one, and
    /// otherwise changes nothing.
    pub fn perform_protein_matching_if_needed(&mut self)
        ensures
            !final(self).protein_match_needed,
            old(self).protein_match_needed ==> final(self).shows_match_of(*old(self))
                && final(self).same_apart_from_match(App { protein_match_needed: false, ..*old(self) }),
            !old(self).protein_match_needed ==> *final(self) == *old(self),
    {
        if self.protein_match_needed {
            self.find_closest_protein();
            self.protein_match_needed = false;
        }
    }

    /// The bases typed so far of the codon in progress.
    pub fn get_current_partial_codon(&self) -> (r: String)
        ensures
            r@ == self.mrna@.skip(3 * (self.mrna@.len() / 3) as int),
    {
        let cs = chars_of(self.mrna.as_str());
        let n = cs.len();
        let start = (n / 3) * 3;
        let mut out: Vec<char> = Vec::new();
        let mut k: usize = start;
        while k < n
            invariant
                cs@ == self.mrna@,
                n == cs@.len(),
                start == 3 * (n / 3),
                start <= k <= n,
                out@ == cs@.subrange(start as int, k as int),
            decreases n - k,
        {
            out.push(cs[k]);
            proof {
                assert(cs@.subrange(start as int, k + 1) == cs@.subrange(start as int, k as int).push(
                    cs@[k as int],
                ));
            }
            k = k + 1;
        }
        string_of(out.as_slice())
    }
}


impl Default for App {
    fn default() -> (r: App)
        ensures
            r.well_formed(),
            r.input@.len() == 0,
            r.catalog.state is NotLoaded,
    {
        App::new()
    }
}

impl App {
    /// Advances the simulated loading sequence of the catalog by one step;
    /// returns whether the catalog is now to be read.
    pub fn simulate_loading_step(&mut self) -> (r: bool)
        ensures
            old(self).catalog.state is Loading ==> final(self).catalog.state == CatalogState::Loading(
                simulated_step(old(self).catalog.state->Loading_0).0,
            ) && r == simulated_step(old(self).catalog.state->Loading_0).1,
            !(old(self).catalog.state is Loading) ==> final(self).catalog == old(self).catalog && r,
    {
        self.catalog.simulate_loading_step()
    }
}

} // verus!

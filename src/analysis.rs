//! Composition statistics of a DNA sequence and of the protein it encodes.
//! Percentages are in score units, as in `matching`; masses in milli-daltons.

use vstd::prelude::*;
use crate::text::chars_of;
use crate::matching::FULL_SCORE;
use crate::conversion::{mrna_seq, dna_sequence_to_mrna};
use crate::codon::{
    amino_of, codon_at, is_dna_codon, translate_dna_to_amino, all_dna, translation_of,
    translate_codon, codon_string,
};
use crate::weights::{residue_mass, residues_mass, lemma_residues_mass_bounded, WATER_MDA, get_amino_acid_molecular_weight};

verus! {

/// How many characters of `s` occur in `set`.
pub open spec fn count_in(s: Seq<char>, set: Seq<char>) -> nat
    decreases s.len(),
{
    if s.len() == 0 {
        0
    } else {
        count_in(s.drop_last(), set) + if set.contains(s.last()) {
            1nat
        } else {
            0nat
        }
    }
}

pub proof fn lemma_count_in_bounded(s: Seq<char>, set: Seq<char>)
    ensures
        count_in(s, set) <= s.len(),
    decreases s.len(),
{
    if s.len() > 0 {
        lemma_count_in_bounded(s.drop_last(), set);
    }
}

/// `count` out of `total`, in score units, rounded down; zero of nothing.
pub open spec fn share(count: nat, total: nat) -> nat {
    if total == 0 {
        0
    } else {
        count * (FULL_SCORE as nat) / total
    }
}

/// The number of characters of `s` that occur in `set`.
pub fn count_members(s: &[char], set: &[char]) -> (r: usize)
    ensures
        r == count_in(s@, set@),
{
    let mut count: usize = 0;
    let mut i: usize = 0;
    while i < s.len()
        invariant
            i <= s@.len(),
            count == count_in(s@.take(i as int), set@),
            count <= i,
        decreases s@.len() - i,
    {
        proof {
            assert(s@.take(i + 1).drop_last() == s@.take(i as int));
            assert(s@.take(i + 1).last() == s@[i as int]);
        }
        let c = s[i];
        let mut found = false;
        let mut j: usize = 0;
        while j < set.len()
            invariant
                j <= set@.len(),
                found == exists|t: int| 0 <= t < j && set@[t] == c,
            decreases set@.len() - j,
        {
            if set[j] == c {
                found = true;
            }
            j = j + 1;
        }
        if found {
            count = count + 1;
        }
        i = i + 1;
    }
    proof {
        assert(s@.take(i as int) == s@);
    }
    count
}

/// `count` out of `total` in score units.
fn share_of(count: usize, total: usize) -> (r: u64)
    requires
        count <= total,
    ensures
        r == share(count as nat, total as nat),
{
    if total == 0 {
        return 0;
    }
    let wide: u128 = (count as u128) * (FULL_SCORE as u128);
    proof {
        let c = count as nat;
        let t = total as nat;
        let f = FULL_SCORE as nat;
        assert(c * f <= t * f) by (nonlinear_arith)
            requires
                c <= t,
        ;
        assert(c * f / t <= f) by (nonlinear_arith)
            requires
                c * f <= t * f,
                t > 0,
        ;
    }
    (wide / (total as u128)) as u64
}

fn content(dna: &str, set: &[char]) -> (r: u64)
    ensures
        r == share(count_in(dna@, set@), dna@.len()),
{
    let cs = chars_of(dna);
    let count = count_members(cs.as_slice(), set);
    proof {
        lemma_count_in_bounded(cs@, set@);
    }
    share_of(count, cs.len())
}

/// The share of `G` and `C`, in either case.
pub fn calculate_gc_content(dna: &str) -> (r: u64)
    ensures
        r == share(count_in(dna@, seq!['G', 'g', 'C', 'c']), dna@.len()),
{
    let set = ['G', 'g', 'C', 'c'];
    assert(set@ == seq!['G', 'g', 'C', 'c']);
    content(dna, &set)
}

/// The share of `A` and `T`, in either case.
pub fn calculate_at_content(dna: &str) -> (r: u64)
    ensures
        r == share(count_in(dna@, seq!['A', 'a', 'T', 't']), dna@.len()),
{
    let set = ['A', 'a', 'T', 't'];
    assert(set@ == seq!['A', 'a', 'T', 't']);
    content(dna, &set)
}

/// The share of purines, `A` and `G`, in either case.
pub fn calculate_purine_content(dna: &str) -> (r: u64)
    ensures
        r == share(count_in(dna@, seq!['A', 'a', 'G', 'g']), dna@.len()),
{
    let set = ['A', 'a', 'G', 'g'];
    assert(set@ == seq!['A', 'a', 'G', 'g']);
    content(dna, &set)
}

/// The share of pyrimidines, `C` and `T`, in either case.
pub fn calculate_pyrimidine_content(dna: &str) -> (r: u64)
    ensures
        r == share(count_in(dna@, seq!['C', 'c', 'T', 't']), dna@.len()),
{
    let set = ['C', 'c', 'T', 't'];
    assert(set@ == seq!['C', 'c', 'T', 't']);
    content(dna, &set)
}

/// Whether the sequence translates: a multiple of three uppercase bases.
pub open spec fn translates(dna: Seq<char>) -> bool {
    dna.len() % 3 == 0 && all_dna(dna)
}

/// The share of hydrophobic residues (`F L I M V A W`) in the translation;
/// zero for a sequence shorter than a codon or one that does not translate.
pub fn calculate_hydrophobicity_index(dna: &str) -> (r: u64)
    ensures
        dna@.len() < 3 || !translates(dna@) ==> r == 0,
        dna@.len() >= 3 && translates(dna@) ==> r == share(
            count_in(translation_of(dna@), seq!['F', 'L', 'I', 'M', 'V', 'A', 'W']),
            translation_of(dna@).len(),
        ),
{
    if dna.unicode_len() < 3 {
        return 0;
    }
    match translate_dna_to_amino(dna) {
        Ok(t) => {
            let set = ['F', 'L', 'I', 'M', 'V', 'A', 'W'];
            assert(set@ == seq!['F', 'L', 'I', 'M', 'V', 'A', 'W']);
            content(t.as_str(), &set)
        },
        Err(_) => 0,
    }
}

/// The positively (`K R`) and negatively (`D E`) charged residues of the
/// translation; none for a sequence shorter than a codon or one that does not
/// translate.
pub fn count_charged_residues(dna: &str) -> (r: (usize, usize))
    ensures
        dna@.len() < 3 || !translates(dna@) ==> r == (0usize, 0usize),
        dna@.len() >= 3 && translates(dna@) ==> r.0 == count_in(translation_of(dna@), seq!['K', 'R'])
            && r.1 == count_in(translation_of(dna@), seq!['D', 'E']),
{
    if dna.unicode_len() < 3 {
        return (0, 0);
    }
    match translate_dna_to_amino(dna) {
        Ok(t) => {
            let cs = chars_of(t.as_str());
            let positive = ['K', 'R'];
            let negative = ['D', 'E'];
            assert(positive@ == seq!['K', 'R']);
            assert(negative@ == seq!['D', 'E']);
            (count_members(cs.as_slice(), &positive), count_members(cs.as_slice(), &negative))
        },
        Err(_) => (0, 0),
    }
}

/// The residue mass of the `k`-th codon of an mRNA read as DNA codons: zero
/// unless it is three uppercase DNA bases.
pub open spec fn mrna_codon_mass(mrna: Seq<char>, k: int) -> nat {
    let c = codon_at(mrna, 3 * k);
    if is_dna_codon(c) {
        residue_mass(amino_of(c))
    } else {
        0
    }
}

pub open spec fn mrna_mass_upto(mrna: Seq<char>, k: int) -> nat
    decreases k,
{
    if k <= 0 {
        0
    } else {
        mrna_mass_upto(mrna, k - 1) + mrna_codon_mass(mrna, k - 1)
    }
}

/// An estimate of the encoded protein's mass, in milli-daltons: zero below
/// one codon; the translation's residues plus water when the sequence
/// translates; otherwise the residues of those codons of its mRNA that read as
/// DNA codons, plus water.
pub fn estimate_molecular_weight(dna: &str) -> (r: u128)
    ensures
        dna@.len() < 3 ==> r == 0,
        dna@.len() >= 3 && translates(dna@) ==> r == residues_mass(translation_of(dna@)) + WATER_MDA,
        dna@.len() >= 3 && !translates(dna@) ==> r == mrna_mass_upto(
            mrna_seq(dna@),
            (dna@.len() / 3) as int,
        ) + WATER_MDA,
{
    if dna.unicode_len() < 3 {
        return 0;
    }
    match translate_dna_to_amino(dna) {
        Ok(t) => {
            let cs = chars_of(t.as_str());
            let mut total: u128 = 0;
            let mut i: usize = 0;
            while i < cs.len()
                invariant
                    i <= cs@.len(),
                    total == residues_mass(cs@.take(i as int)),
                decreases cs@.len() - i,
            {
                proof {
                    assert(cs@.take(i + 1).drop_last() == cs@.take(i as int));
                    lemma_residues_mass_bounded(cs@.take(i as int));
                    assert(i * 186080 <= usize::MAX * 186080) by (nonlinear_arith)
                        requires
                            i <= usize::MAX,
                    ;
                }
                total = total + get_amino_acid_molecular_weight(cs[i]) as u128;
                i = i + 1;
            }
            proof {
                assert(cs@.take(i as int) == cs@);
                lemma_residues_mass_bounded(cs@);
                assert(cs@.len() * 186080 <= usize::MAX * 186080) by (nonlinear_arith)
                    requires
                        cs@.len() <= usize::MAX,
                ;
            }
            total + WATER_MDA as u128
        },
        Err(_) => {
            let mrna = chars_of(dna_sequence_to_mrna(dna).as_str());
            let n = mrna.len();
            let mut total: u128 = 0;
            let mut k: usize = 0;
            while k < n / 3
                invariant
                    mrna@ == mrna_seq(dna@),
                    n == mrna@.len(),
                    k <= n / 3,
                    total == mrna_mass_upto(mrna@, k as int),
                    total <= k * 186080,
                decreases n / 3 - k,
            {
                let codon = codon_string(&mrna, 3 * k);
                let w: u64 = match translate_codon(codon.as_str()) {
                    Some(a) => get_amino_acid_molecular_weight(a),
                    None => 0,
                };
                proof {
                    assert(k * 186080 + 186080 <= usize::MAX * 186080) by (nonlinear_arith)
                        requires
                            k < usize::MAX,
                    ;
                }
                total = total + w as u128;
                k = k + 1;
            }
            total + WATER_MDA as u128
        },
    }
}

} // verus!

//! Residue masses of the standard amino acids, in milli-daltons, and the mass
//! of a protein chain.

use vstd::prelude::*;
use crate::text::chars_of;

verus! {

/// The mass of one water molecule, in milli-daltons, added once per chain.
pub const WATER_MDA: u64 = 18015;

/// The residue mass of an amino acid by its one-letter code, in
/// milli-daltons; zero for a stop or an unknown code.
pub open spec fn residue_mass(c: char) -> nat {
    if c == 'A' { 71040 }
    else if c == 'R' { 156100 }
    else if c == 'N' { 114040 }
    else if c == 'D' { 115030 }
    else if c == 'C' { 103010 }
    else if c == 'E' { 129040 }
    else if c == 'Q' { 128060 }
    else if c == 'G' { 57020 }
    else if c == 'H' { 137060 }
    else if c == 'I' { 113080 }
    else if c == 'L' { 113080 }
    else if c == 'K' { 128090 }
    else if c == 'M' { 131040 }
    else if c == 'F' { 147070 }
    else if c == 'P' { 97050 }
    else if c == 'S' { 87030 }
    else if c == 'T' { 101050 }
    else if c == 'W' { 186080 }
    else if c == 'Y' { 163060 }
    else if c == 'V' { 99070 }
    else { 0 }
}

/// The summed residue masses of a sequence of one-letter codes.
pub open spec fn residues_mass(s: Seq<char>) -> nat
    decreases s.len(),
{
    if s.len() == 0 {
        0
    } else {
        residues_mass(s.drop_last()) + residue_mass(s.last())
    }
}

pub proof fn lemma_residues_mass_bounded(s: Seq<char>)
    ensures
        residues_mass(s) <= s.len() * 186080,
    decreases s.len(),
{
    if s.len() > 0 {
        lemma_residues_mass_bounded(s.drop_last());
    }
}

pub fn get_amino_acid_molecular_weight(amino_acid: char) -> (r: u64)
    ensures
        r == residue_mass(amino_acid),
{
    match amino_acid {
        'A' => 71040,
        'R' => 156100,
        'N' => 114040,
        'D' => 115030,
        'C' => 103010,
        'E' => 129040,
        'Q' => 128060,
        'G' => 57020,
        'H' => 137060,
        'I' => 113080,
        'L' => 113080,
        'K' => 128090,
        'M' => 131040,
        'F' => 147070,
        'P' => 97050,
        'S' => 87030,
        'T' => 101050,
        'W' => 186080,
        'Y' => 163060,
        'V' => 99070,
        _ => 0,
    }
}

/// The twenty standard amino acids with their residue masses.
pub fn get_all_molecular_weights() -> (r: Vec<(char, u64)>)
    ensures
        r@.len() == 20,
        forall|i: int| 0 <= i < 20 ==> (#[trigger] r@[i]).1 == residue_mass(r@[i].0) && r@[i].1 > 0,
        forall|i: int, j: int| 0 <= i < j < 20 ==> (#[trigger] r@[i]).0 != (#[trigger] r@[j]).0,
{
    let codes = ['A', 'R', 'N', 'D', 'C', 'E', 'Q', 'G', 'H', 'I', 'L', 'K', 'M', 'F', 'P', 'S', 'T', 'W', 'Y', 'V'];
    let mut out: Vec<(char, u64)> = Vec::new();
    let mut i: usize = 0;
    while i < 20
        invariant
            codes@ == seq!['A', 'R', 'N', 'D', 'C', 'E', 'Q', 'G', 'H', 'I', 'L', 'K', 'M', 'F', 'P', 'S', 'T', 'W', 'Y', 'V'],
            i <= 20,
            out@.len() == i,
            forall|k: int| 0 <= k < i ==> (#[trigger] out@[k]) == (codes@[k], residue_mass(codes@[k]) as u64),
        decreases 20 - i,
    {
        let c = codes[i];
        out.push((c, get_amino_acid_molecular_weight(c)));
        i = i + 1;
    }
    out
}

/// The mass of a protein chain: its residue masses plus one water.
pub fn calculate_protein_molecular_weight(amino_acid_sequence: &str) -> (r: u128)
    ensures
        r == residues_mass(amino_acid_sequence@) + WATER_MDA,
{
    let cs = chars_of(amino_acid_sequence);
    let mut total: u128 = 0;
    let mut i: usize = 0;
    while i < cs.len()
        invariant
            cs@ == amino_acid_sequence@,
            i <= cs@.len(),
            total == residues_mass(cs@.take(i as int)),
        decreases cs@.len() - i,
    {
        proof {
            let t = cs@.take(i + 1);
            assert(t.drop_last() == cs@.take(i as int));
            lemma_residues_mass_bounded(cs@.take(i as int));
            assert(i * 186080 <= usize::MAX * 186080) by (nonlinear_arith)
                requires
                    i <= usize::MAX,
            ;
        }
        total = total + get_amino_acid_molecular_weight(cs[i]) as u128;
        i = i + 1;
    }
    proof {
        assert(cs@.take(i as int) == cs@);
        lemma_residues_mass_bounded(cs@);
        assert(cs@.len() * 186080 <= usize::MAX * 186080) by (nonlinear_arith)
            requires
                cs@.len() <= usize::MAX,
        ;
    }
    total + WATER_MDA as u128
}

} // verus!

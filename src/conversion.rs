//! Base-pairing rules: DNA complement and DNA-to-mRNA transcription, per base
//! and over whole sequences.

use vstd::prelude::*;
use crate::text::{chars_of, string_of, upper_first, upper_first_of};

verus! {

/// The Watson-Crick partner of an uppercase DNA base; `?` for anything else.
pub open spec fn complement_upper(c: char) -> char {
    if c == 'A' {
        'T'
    } else if c == 'T' {
        'A'
    } else if c == 'G' {
        'C'
    } else if c == 'C' {
        'G'
    } else {
        '?'
    }
}

/// The mRNA base transcribed from an uppercase DNA template base; `?` for
/// anything else.
pub open spec fn mrna_upper(c: char) -> char {
    if c == 'A' {
        'U'
    } else if c == 'T' {
        'A'
    } else if c == 'G' {
        'C'
    } else if c == 'C' {
        'G'
    } else {
        '?'
    }
}

/// The partner of a base, read through the first character of its uppercase
/// form.
pub open spec fn complement_base(c: char) -> char {
    complement_upper(upper_first_of(c))
}

/// The mRNA base for a template base, read through the first character of
/// its uppercase form.
pub open spec fn mrna_base(c: char) -> char {
    mrna_upper(upper_first_of(c))
}

/// Each base of `s` replaced by its complement, in the same order.
pub open spec fn complement_seq(s: Seq<char>) -> Seq<char> {
    s.map_values(|c: char| complement_base(c))
}

/// Each base of `s` transcribed to mRNA, in the same order.
pub open spec fn mrna_seq(s: Seq<char>) -> Seq<char> {
    s.map_values(|c: char| mrna_base(c))
}

/// Complements of the bases of `s`, read from its last base to its first.
pub open spec fn reverse_complement_seq(s: Seq<char>) -> Seq<char> {
    Seq::new(s.len(), |i: int| complement_base(s[s.len() - 1 - i]))
}

pub fn get_complementary_base(base: char) -> (r: char)
    ensures
        r == complement_base(base),
{
    match upper_first(base) {
        'A' => 'T',
        'T' => 'A',
        'G' => 'C',
        'C' => 'G',
        _ => '?',
    }
}

pub fn dna_to_mrna(base: char) -> (r: char)
    ensures
        r == mrna_base(base),
{
    match upper_first(base) {
        'A' => 'U',
        'T' => 'A',
        'G' => 'C',
        'C' => 'G',
        _ => '?',
    }
}

pub fn dna_sequence_to_mrna(dna: &str) -> (r: String)
    ensures
        r@ == mrna_seq(dna@),
{
    let bases = chars_of(dna);
    let mut out: Vec<char> = Vec::new();
    let mut i: usize = 0;
    while i < bases.len()
        invariant
            bases@ == dna@,
            i <= bases.len(),
            out@ == mrna_seq(bases@.take(i as int)),
        decreases bases.len() - i,
    {
        out.push(dna_to_mrna(bases[i]));
        proof {
            assert(bases@.take(i + 1) == bases@.take(i as int).push(bases@[i as int]));
        }
        i = i + 1;
    }
    proof {
        assert(bases@.take(i as int) == bases@);
    }
    string_of(out.as_slice())
}

pub fn get_complement(dna: &str) -> (r: String)
    ensures
        r@ == complement_seq(dna@),
{
    let bases = chars_of(dna);
    let mut out: Vec<char> = Vec::new();
    let mut i: usize = 0;
    while i < bases.len()
        invariant
            bases@ == dna@,
            i <= bases.len(),
            out@ == complement_seq(bases@.take(i as int)),
        decreases bases.len() - i,
    {
        out.push(get_complementary_base(bases[i]));
        proof {
            assert(bases@.take(i + 1) == bases@.take(i as int).push(bases@[i as int]));
        }
        i = i + 1;
    }
    proof {
        assert(bases@.take(i as int) == bases@);
    }
    string_of(out.as_slice())
}

pub fn get_reverse_complement(dna: &str) -> (r: String)
    ensures
        r@ == reverse_complement_seq(dna@),
{
    let bases = chars_of(dna);
    let n = bases.len();
    let mut out: Vec<char> = Vec::new();
    let mut i: usize = 0;
    while i < n
        invariant
            bases@ == dna@,
            n == bases.len(),
            i <= n,
            out@.len() == i,
            forall|k: int| 0 <= k < i ==> out@[k] == complement_base(bases@[n - 1 - k]),
        decreases n - i,
    {
        out.push(get_complementary_base(bases[n - 1 - i]));
        i = i + 1;
    }
    proof {
        assert(out@ == reverse_complement_seq(dna@));
    }
    string_of(out.as_slice())
}

} // verus!

//! Codons: translation of DNA codons through the standard genetic code, the
//! amino acid track of an mRNA, and counts of codons in a sequence.

use vstd::prelude::*;
use vstd::string::StrSliceExecFns;
use crate::text::{chars_of, string_of, upper_of, uppercase};
use crate::conversion::{get_reverse_complement, reverse_complement_seq};

verus! {

/// The amino acid letter that the standard genetic code assigns to a DNA
/// codon, `*` for a stop codon.
pub uninterp spec fn amino_of(codon: Seq<char>) -> char;

pub open spec fn is_dna_base(c: char) -> bool {
    c == 'A' || c == 'C' || c == 'G' || c == 'T'
}

/// Three characters, each an uppercase DNA base.
pub open spec fn is_dna_codon(c: Seq<char>) -> bool {
    c.len() == 3 && forall|i: int| 0 <= i < 3 ==> is_dna_base(#[trigger] c[i])
}

/// Relies on bio_seq's `Seq<Dna>` parser, which accepts exactly the bytes
/// `A`, `C`, `G` and `T`, and on `STANDARD.to_amino`, which translates a
/// three-base sequence to one amino acid.
#[verifier::external_body]
pub(crate) fn translate_codon(codon: &str) -> (r: Option<char>)
    requires
        codon@.len() == 3,
    ensures
        r is Some <==> is_dna_codon(codon@),
        r is Some ==> r->0 == amino_of(codon@),
{
    match codon.parse::<bio_seq::seq::Seq<bio_seq::codec::dna::Dna>>() {
        Ok(seq) => Some(
            bio_seq::codec::Codec::to_char(
                bio_seq::translation::TranslationTable::to_amino(
                    &bio_seq::translation::STANDARD,
                    &seq,
                ),
            ),
        ),
        Err(_) => None,
    }
}

/// The symbol shown for a DNA codon: its amino acid, or `?` when it is not
/// three uppercase DNA bases.
pub open spec fn codon_symbol(codon: Seq<char>) -> char {
    if is_dna_codon(codon) {
        amino_of(codon)
    } else {
        '?'
    }
}

/// Translates one DNA codon to its amino acid letter; `?` for anything that
/// is not three uppercase DNA bases.
pub fn dna_codon_to_amino_acid(codon: &str) -> (r: String)
    ensures
        r@ == seq![codon_symbol(codon@)],
{
    let mut sym = '?';
    if codon.unicode_len() == 3 {
        match translate_codon(codon) {
            Some(a) => {
                sym = a;
            },
            None => {},
        }
    }
    let one = [sym];
    assert(one@ == seq![sym]);
    string_of(&one)
}

/// An mRNA base read back as DNA: `U` becomes `T`.
pub open spec fn rna_to_dna_base(c: char) -> char {
    if c == 'U' {
        'T'
    } else {
        c
    }
}

/// The symbol shown for the `k`-th complete codon of an mRNA.
pub open spec fn mrna_codon_symbol(mrna: Seq<char>, k: int) -> char {
    codon_symbol(mrna.subrange(3 * k, 3 * k + 3).map_values(|c: char| rna_to_dna_base(c)))
}

/// The amino acid track of an mRNA: one symbol per complete codon, then `_`
/// when a partial codon is left over.
pub open spec fn amino_symbols(mrna: Seq<char>) -> Seq<char> {
    let whole = Seq::new(mrna.len() / 3, |k: int| mrna_codon_symbol(mrna, k));
    if mrna.len() % 3 != 0 {
        whole.push('_')
    } else {
        whole
    }
}

/// Symbols separated by single spaces.
pub open spec fn spaced(s: Seq<char>) -> Seq<char>
    decreases s.len(),
{
    if s.len() == 0 {
        Seq::empty()
    } else if s.len() == 1 {
        seq![s[0]]
    } else {
        spaced(s.drop_last()).push(' ').push(s.last())
    }
}

/// The amino acid symbols of an mRNA, one per codon.
pub fn mrna_amino_symbols(mrna: &str) -> (r: Vec<char>)
    ensures
        r@ == amino_symbols(mrna@),
{
    let cs = chars_of(mrna);
    let n = cs.len();
    let mut out: Vec<char> = Vec::new();
    let mut k: usize = 0;
    while k < n / 3
        invariant
            cs@ == mrna@,
            n == cs@.len(),
            k <= n / 3,
            out@.len() == k,
            forall|t: int| 0 <= t < k ==> out@[t] == mrna_codon_symbol(mrna@, t),
        decreases n / 3 - k,
    {
        let i = 3 * k;
        let d = [
            if cs[i] == 'U' { 'T' } else { cs[i] },
            if cs[i + 1] == 'U' { 'T' } else { cs[i + 1] },
            if cs[i + 2] == 'U' { 'T' } else { cs[i + 2] },
        ];
        let codon = string_of(&d);
        proof {
            assert(d@ =~= mrna@.subrange(3 * k as int, 3 * k + 3).map_values(|c: char| rna_to_dna_base(c)));
        }
        let sym = match translate_codon(codon.as_str()) {
            Some(a) => a,
            None => '?',
        };
        out.push(sym);
        k = k + 1;
    }
    if n % 3 != 0 {
        out.push('_');
    }
    proof {
        assert(out@ =~= amino_symbols(mrna@));
    }
    out
}

/// The symbols joined by single spaces.
pub fn join_spaced(s: &[char]) -> (r: String)
    ensures
        r@ == spaced(s@),
{
    let mut out: Vec<char> = Vec::new();
    let mut i: usize = 0;
    while i < s.len()
        invariant
            i <= s@.len(),
            out@ == spaced(s@.take(i as int)),
        decreases s@.len() - i,
    {
        proof {
            let t = s@.take(i + 1);
            assert(t.drop_last() == s@.take(i as int));
            assert(t.last() == s@[i as int]);
            if i == 0 {
                assert(t == seq![s@[0]]);
            }
        }
        if i > 0 {
            out.push(' ');
        }
        out.push(s[i]);
        i = i + 1;
    }
    proof {
        assert(s@.take(i as int) == s@);
    }
    string_of(out.as_slice())
}

pub fn count_total_codons(dna: &str) -> (r: usize)
    ensures
        r == dna@.len() / 3,
{
    dna.unicode_len() / 3
}

pub fn count_complete_incomplete_codons(dna: &str) -> (r: (usize, usize))
    ensures
        r.0 == dna@.len() / 3,
        r.1 == if dna@.len() % 3 > 0 { 1usize } else { 0usize },
{
    let n = dna.unicode_len();
    let complete = n / 3;
    let incomplete: usize = if n % 3 > 0 {
        1
    } else {
        0
    };
    (complete, incomplete)
}

pub fn calculate_amino_acid_length(dna: &str) -> (r: usize)
    ensures
        r == dna@.len() / 3,
{
    let n = dna.unicode_len();
    if n < 3 {
        return 0;
    }
    n / 3
}


/// Why a DNA sequence could not be translated.
#[derive(Clone, Copy, Debug, PartialEq, Eq, Structural)]
pub enum TranslationError {
    LengthNotMultipleOfThree,
    InvalidSequence,
}

/// Every character is an uppercase DNA base.
pub open spec fn all_dna(s: Seq<char>) -> bool {
    forall|i: int| 0 <= i < s.len() ==> is_dna_base(#[trigger] s[i])
}

/// The codon that starts at position `i`.
pub open spec fn codon_at(s: Seq<char>, i: int) -> Seq<char> {
    s.subrange(i, i + 3)
}

/// The amino acids of the consecutive codons of `s`.
pub open spec fn translation_of(s: Seq<char>) -> Seq<char> {
    Seq::new(s.len() / 3, |k: int| amino_of(codon_at(s, 3 * k)))
}

/// The codon of three characters at `i`, as a string.
pub(crate) fn codon_string(cs: &Vec<char>, i: usize) -> (r: String)
    requires
        i + 3 <= cs@.len(),
    ensures
        r@ == codon_at(cs@, i as int),
{
    let n = cs.len();
    assert(i + 3 <= n);
    let d = [cs[i], cs[i + 1], cs[i + 2]];
    assert(d@ =~= codon_at(cs@, i as int));
    string_of(&d)
}

/// Translates a DNA sequence codon by codon: its length must be a multiple
/// of three and every character an uppercase base.
pub fn translate_dna_to_amino(dna: &str) -> (r: Result<String, TranslationError>)
    ensures
        dna@.len() % 3 != 0 ==> r == Err::<String, TranslationError>(
            TranslationError::LengthNotMultipleOfThree,
        ),
        dna@.len() % 3 == 0 && !all_dna(dna@) ==> r == Err::<String, TranslationError>(
            TranslationError::InvalidSequence,
        ),
        dna@.len() % 3 == 0 && all_dna(dna@) ==> r is Ok && r->Ok_0@ == translation_of(dna@),
{
    let cs = chars_of(dna);
    let n = cs.len();
    if n % 3 != 0 {
        return Err(TranslationError::LengthNotMultipleOfThree);
    }
    let mut i: usize = 0;
    while i < n
        invariant
            cs@ == dna@,
            n == cs@.len(),
            n % 3 == 0,
            i <= n,
            forall|k: int| 0 <= k < i ==> is_dna_base(#[trigger] cs@[k]),
        decreases n - i,
    {
        let c = cs[i];
        if !(c == 'A' || c == 'C' || c == 'G' || c == 'T') {
            assert(!is_dna_base(cs@[i as int]));
            return Err(TranslationError::InvalidSequence);
        }
        i = i + 1;
    }
    let mut out: Vec<char> = Vec::new();
    let mut k: usize = 0;
    while k < n / 3
        invariant
            cs@ == dna@,
            n == cs@.len(),
            n % 3 == 0,
            all_dna(cs@),
            k <= n / 3,
            out@.len() == k,
            forall|t: int| 0 <= t < k ==> out@[t] == amino_of(codon_at(cs@, 3 * t)),
        decreases n / 3 - k,
    {
        let codon = codon_string(&cs, 3 * k);
        proof {
            assert forall|t: int| 0 <= t < 3 implies is_dna_base(#[trigger] codon@[t]) by {
                assert(codon@[t] == cs@[3 * k + t]);
            }
        }
        match translate_codon(codon.as_str()) {
            Some(a) => out.push(a),
            None => return Err(TranslationError::InvalidSequence),
        }
        k = k + 1;
    }
    proof {
        assert(out@ =~= translation_of(dna@));
    }
    Ok(string_of(out.as_slice()))
}

pub open spec fn is_start_codon(c: Seq<char>) -> bool {
    c == seq!['A', 'T', 'G'] || c == seq!['A', 'U', 'G']
}

pub open spec fn is_stop_codon(c: Seq<char>) -> bool {
    c == seq!['T', 'A', 'A'] || c == seq!['T', 'A', 'G'] || c == seq!['T', 'G', 'A']
}

/// How many of the windows starting before `n` satisfy `p`.
pub open spec fn count_windows(s: Seq<char>, n: int, p: spec_fn(Seq<char>) -> bool) -> nat
    decreases n,
{
    if n <= 0 {
        0
    } else {
        count_windows(s, n - 1, p) + if p(codon_at(s, n - 1)) {
            1nat
        } else {
            0nat
        }
    }
}

fn window_is(cs: &Vec<char>, i: usize, x: char, y: char, z: char) -> (r: bool)
    requires
        i + 3 <= cs@.len(),
    ensures
        r == (codon_at(cs@, i as int) == seq![x, y, z]),
{
    let n = cs.len();
    assert(i + 3 <= n);
    let r = cs[i] == x && cs[i + 1] == y && cs[i + 2] == z;
    if r {
        assert(codon_at(cs@, i as int) =~= seq![x, y, z]);
    } else {
        assert(codon_at(cs@, i as int)[0] == cs@[i as int]);
        assert(codon_at(cs@, i as int)[1] == cs@[i + 1]);
        assert(codon_at(cs@, i as int)[2] == cs@[i + 2]);
        assert(seq![x, y, z][0] == x && seq![x, y, z][1] == y && seq![x, y, z][2] == z);
    }
    r
}

fn is_start_at(cs: &Vec<char>, i: usize) -> (r: bool)
    requires
        i + 3 <= cs@.len(),
    ensures
        r == is_start_codon(codon_at(cs@, i as int)),
{
    window_is(cs, i, 'A', 'T', 'G') || window_is(cs, i, 'A', 'U', 'G')
}

fn is_stop_at(cs: &Vec<char>, i: usize) -> (r: bool)
    requires
        i + 3 <= cs@.len(),
    ensures
        r == is_stop_codon(codon_at(cs@, i as int)),
{
    window_is(cs, i, 'T', 'A', 'A') || window_is(cs, i, 'T', 'A', 'G') || window_is(cs, i, 'T', 'G', 'A')
}

/// The number of positions of the uppercase sequence where a start codon
/// (`ATG` or `AUG`) begins, overlapping windows included.
pub fn count_start_codons(dna: &str) -> (r: usize)
    ensures
        upper_of(dna@).len() < 3 ==> r == 0,
        upper_of(dna@).len() >= 3 ==> r == count_windows(
            upper_of(dna@),
            upper_of(dna@).len() - 2,
            |c: Seq<char>| is_start_codon(c),
        ),
{
    let cs = chars_of(uppercase(dna).as_str());
    let n = cs.len();
    if n < 3 {
        return 0;
    }
    let mut count: usize = 0;
    let mut i: usize = 0;
    while i + 2 < n
        invariant
            n == cs@.len() >= 3,
            i <= n - 2,
            count == count_windows(cs@, i as int, |c: Seq<char>| is_start_codon(c)),
            count <= i,
        decreases n - i,
    {
        if is_start_at(&cs, i) {
            count = count + 1;
        }
        i = i + 1;
    }
    count
}

/// The number of positions of the uppercase sequence where a stop codon
/// (`TAA`, `TAG` or `TGA`) begins, overlapping windows included.
pub fn count_stop_codons(dna: &str) -> (r: usize)
    ensures
        upper_of(dna@).len() < 3 ==> r == 0,
        upper_of(dna@).len() >= 3 ==> r == count_windows(
            upper_of(dna@),
            upper_of(dna@).len() - 2,
            |c: Seq<char>| is_stop_codon(c),
        ),
{
    let cs = chars_of(uppercase(dna).as_str());
    let n = cs.len();
    if n < 3 {
        return 0;
    }
    let mut count: usize = 0;
    let mut i: usize = 0;
    while i + 2 < n
        invariant
            n == cs@.len() >= 3,
            i <= n - 2,
            count == count_windows(cs@, i as int, |c: Seq<char>| is_stop_codon(c)),
            count <= i,
        decreases n - i,
    {
        if is_stop_at(&cs, i) {
            count = count + 1;
        }
        i = i + 1;
    }
    count
}

/// The three forward frames of `s` (those that are not empty), then the
/// three frames of its reverse complement.
pub open spec fn frames_of(s: Seq<char>) -> Seq<Seq<char>> {
    let k = if s.len() < 3 {
        s.len()
    } else {
        3
    };
    let rc = reverse_complement_seq(s);
    Seq::new(k, |o: int| s.skip(o)) + Seq::new(k, |o: int| rc.skip(o))
}

/// The characters of `cs` from `from` on.
fn tail_from(cs: &Vec<char>, from: usize) -> (r: Vec<char>)
    requires
        from <= cs@.len(),
    ensures
        r@ == cs@.skip(from as int),
{
    let mut out: Vec<char> = Vec::new();
    let mut i: usize = from;
    while i < cs.len()
        invariant
            from <= i <= cs@.len(),
            out@ == cs@.subrange(from as int, i as int),
        decreases cs@.len() - i,
    {
        out.push(cs[i]);
        proof {
            assert(cs@.subrange(from as int, i + 1) == cs@.subrange(from as int, i as int).push(cs@[i as int]));
        }
        i = i + 1;
    }
    out
}

/// The six reading frames of a sequence: it and its reverse complement from
/// offsets 0, 1 and 2, where the sequence is long enough.
pub fn find_reading_frames(dna: &str) -> (r: Vec<String>)
    ensures
        r@.len() == frames_of(dna@).len(),
        forall|i: int| 0 <= i < r@.len() ==> (#[trigger] r@[i])@ == frames_of(dna@)[i],
{
    let cs = chars_of(dna);
    let rc = chars_of(get_reverse_complement(dna).as_str());
    let n = cs.len();
    let k: usize = if n < 3 {
        n
    } else {
        3
    };
    let ghost fr = frames_of(dna@);
    let mut out: Vec<String> = Vec::new();
    let mut o: usize = 0;
    while o < k
        invariant
            cs@ == dna@,
            rc@ == reverse_complement_seq(dna@),
            fr == frames_of(dna@),
            n == cs@.len(),
            k == (if n < 3 { n } else { 3 }),
            o <= k,
            out@.len() == o,
            forall|i: int| 0 <= i < o ==> (#[trigger] out@[i])@ == fr[i],
        decreases k - o,
    {
        out.push(string_of(tail_from(&cs, o).as_slice()));
        o = o + 1;
    }
    let mut o: usize = 0;
    while o < k
        invariant
            cs@ == dna@,
            rc@ == reverse_complement_seq(dna@),
            fr == frames_of(dna@),
            n == cs@.len() == rc@.len(),
            k == (if n < 3 { n } else { 3 }),
            o <= k,
            out@.len() == k + o,
            forall|i: int| 0 <= i < k + o ==> (#[trigger] out@[i])@ == fr[i],
        decreases k - o,
    {
        out.push(string_of(tail_from(&rc, o).as_slice()));
        o = o + 1;
    }
    out
}


/// The translations of the frames that translate, in frame order.
pub open spec fn translated_frames(fs: Seq<Seq<char>>) -> Seq<Seq<char>>
    decreases fs.len(),
{
    if fs.len() == 0 {
        Seq::empty()
    } else {
        let rest = translated_frames(fs.drop_last());
        let f = fs.last();
        if f.len() % 3 == 0 && all_dna(f) {
            rest.push(translation_of(f))
        } else {
            rest
        }
    }
}

/// The translations of those of the six reading frames that translate.
pub fn translate_all_reading_frames(dna: &str) -> (r: Result<Vec<String>, String>)
    ensures
        r is Ok,
        r->Ok_0@.len() == translated_frames(frames_of(dna@)).len(),
        forall|i: int| 0 <= i < r->Ok_0@.len() ==> (#[trigger] r->Ok_0@[i])@ == translated_frames(frames_of(dna@))[i],
{
    let frames = find_reading_frames(dna);
    let ghost fs = frames_of(dna@);
    let mut out: Vec<String> = Vec::new();
    let mut i: usize = 0;
    while i < frames.len()
        invariant
            fs == frames_of(dna@),
            frames@.len() == fs.len(),
            forall|t: int| 0 <= t < frames@.len() ==> (#[trigger] frames@[t])@ == fs[t],
            i <= frames@.len(),
            out@.len() == translated_frames(fs.take(i as int)).len(),
            forall|t: int| 0 <= t < out@.len() ==> (#[trigger] out@[t])@ == translated_frames(fs.take(i as int))[t],
        decreases frames@.len() - i,
    {
        proof {
            assert(fs.take(i + 1).drop_last() == fs.take(i as int));
            assert(fs.take(i + 1).last() == fs[i as int]);
        }
        match translate_dna_to_amino(frames[i].as_str()) {
            Ok(t) => {
                out.push(t);
            },
            Err(_) => {},
        }
        i = i + 1;
    }
    proof {
        assert(fs.take(i as int) == fs);
    }
    Ok(out)
}

/// After `k` codons of `s`: how many open reading frames closed, and whether
/// one is open. A frame opens at `ATG` and closes at the next stop codon.
pub open spec fn orf_scan(s: Seq<char>, k: int) -> (nat, bool)
    decreases k,
{
    if k <= 0 {
        (0, false)
    } else {
        let (count, open) = orf_scan(s, k - 1);
        let c = codon_at(s, 3 * (k - 1));
        if c == seq!['A', 'T', 'G'] && !open {
            (count, true)
        } else if is_stop_codon(c) && open {
            (count + 1, false)
        } else {
            (count, open)
        }
    }
}

/// The number of open reading frames in the first frame of the uppercase
/// sequence.
pub fn count_orfs(dna: &str) -> (r: usize)
    ensures
        r == orf_scan(upper_of(dna@), (upper_of(dna@).len() / 3) as int).0,
{
    let cs = chars_of(uppercase(dna).as_str());
    let n = cs.len();
    let mut count: usize = 0;
    let mut open = false;
    let mut k: usize = 0;
    while k < n / 3
        invariant
            n == cs@.len(),
            k <= n / 3,
            (count as nat, open) == orf_scan(cs@, k as int),
            count <= k,
        decreases n / 3 - k,
    {
        let i = 3 * k;
        if window_is(&cs, i, 'A', 'T', 'G') && !open {
            open = true;
        } else if is_stop_at(&cs, i) && open {
            count = count + 1;
            open = false;
        }
        k = k + 1;
    }
    count
}

/// The state of the search for the longest open reading frame.
pub struct OrfState {
    pub open: bool,
    pub orf_start: nat,
    pub current: Seq<char>,
    pub best: Seq<char>,
    pub best_start: nat,
    pub best_end: nat,
}

/// One codon of the search, at position `i` of its frame: `ATG` opens a frame
/// with `M`; a stop closes it and keeps it when it is strictly longer than
/// the best so far; inside a frame other codons add their amino acid.
pub open spec fn orf_step(st: OrfState, c: Seq<char>, i: nat) -> OrfState {
    if c == seq!['A', 'T', 'G'] && !st.open {
        OrfState { open: true, orf_start: i, current: seq!['M'], ..st }
    } else if is_stop_codon(c) && st.open {
        if st.current.len() > st.best.len() {
            OrfState {
                open: false,
                current: Seq::empty(),
                best: st.current,
                best_start: st.orf_start,
                best_end: i + 3,
                ..st
            }
        } else {
            OrfState { open: false, current: Seq::empty(), ..st }
        }
    } else if st.open && is_dna_codon(c) && amino_of(c) != '*' {
        OrfState { current: st.current.push(amino_of(c)), ..st }
    } else {
        st
    }
}

/// The search after the first `k` codons of frame `f`.
pub open spec fn orf_scan_frame(st: OrfState, f: Seq<char>, k: int) -> OrfState
    decreases k,
{
    if k <= 0 {
        st
    } else {
        orf_step(orf_scan_frame(st, f, k - 1), codon_at(f, 3 * (k - 1)), (3 * (k - 1)) as nat)
    }
}

/// The search over the first `n` frames; each frame starts closed, the best
/// frame found carries over.
pub open spec fn orf_scan_frames(fs: Seq<Seq<char>>, n: int) -> OrfState
    decreases n,
{
    if n <= 0 {
        OrfState {
            open: false,
            orf_start: 0,
            current: Seq::empty(),
            best: Seq::empty(),
            best_start: 0,
            best_end: 0,
        }
    } else {
        let prev = orf_scan_frames(fs, n - 1);
        let f = fs[n - 1];
        orf_scan_frame(OrfState { open: false, orf_start: 0, current: Seq::empty(), ..prev }, f, (f.len() / 3) as int)
    }
}

/// The reading frames in uppercase.
pub open spec fn upper_frames(dna: Seq<char>) -> Seq<Seq<char>> {
    frames_of(dna).map_values(|f: Seq<char>| upper_of(f))
}

/// The longest open reading frame over the six frames, as amino acids, with
/// its start and end in its frame: the first one found among equally long.
pub fn find_longest_orf(dna: &str) -> (r: Result<(String, usize, usize), String>)
    ensures
        r is Ok,
        ({
            let st = orf_scan_frames(upper_frames(dna@), upper_frames(dna@).len() as int);
            &&& r->Ok_0.0@ == st.best
            &&& r->Ok_0.1 == st.best_start
            &&& r->Ok_0.2 == st.best_end
        }),
{
    let frames = find_reading_frames(dna);
    let ghost fs = upper_frames(dna@);
    let mut best: Vec<char> = Vec::new();
    let mut best_start: usize = 0;
    let mut best_end: usize = 0;
    let mut f: usize = 0;
    while f < frames.len()
        invariant
            fs == upper_frames(dna@),
            frames@.len() == fs.len(),
            forall|t: int| 0 <= t < frames@.len() ==> upper_of((#[trigger] frames@[t])@) == fs[t],
            f <= frames@.len(),
            ({
                let st = orf_scan_frames(fs, f as int);
                &&& best@ == st.best
                &&& best_start == st.best_start
                &&& best_end == st.best_end
            }),
        decreases frames@.len() - f,
    {
        let cs = chars_of(uppercase(frames[f].as_str()).as_str());
        let n = cs.len();
        let ghost prev = orf_scan_frames(fs, f as int);
        let ghost init = OrfState { open: false, orf_start: 0, current: Seq::empty(), ..prev };
        let mut open = false;
        let mut orf_start: usize = 0;
        let mut current: Vec<char> = Vec::new();
        let mut k: usize = 0;
        while k < n / 3
            invariant
                n == cs@.len(),
                k <= n / 3,
                ({
                    let st = orf_scan_frame(init, cs@, k as int);
                    &&& open == st.open
                    &&& orf_start == st.orf_start
                    &&& current@ == st.current
                    &&& best@ == st.best
                    &&& best_start == st.best_start
                    &&& best_end == st.best_end
                }),
                orf_start + 3 <= n || !open,
            decreases n / 3 - k,
        {
            let i = 3 * k;
            if window_is(&cs, i, 'A', 'T', 'G') && !open {
                open = true;
                orf_start = i;
                current = Vec::new();
                current.push('M');
                proof {
                    assert(current@ == seq!['M']);
                }
            } else if is_stop_at(&cs, i) && open {
                if current.len() > best.len() {
                    best = current;
                    best_start = orf_start;
                    best_end = i + 3;
                }
                current = Vec::new();
                open = false;
            } else if open {
                let codon = codon_string(&cs, i);
                match translate_codon(codon.as_str()) {
                    Some(a) => {
                        if a != '*' {
                            current.push(a);
                        }
                    },
                    None => {},
                }
            }
            k = k + 1;
        }
        proof {
            assert(fs[f as int] == cs@);
        }
        f = f + 1;
    }
    Ok((string_of(best.as_slice()), best_start, best_end))
}


/// The position of the entry for codon `c` in a usage table, if any.
pub open spec fn usage_index(u: Seq<(Seq<char>, nat)>, c: Seq<char>) -> int
    decreases u.len(),
{
    if u.len() == 0 {
        -1
    } else if u.last().0 == c {
        u.len() - 1
    } else {
        usage_index(u.drop_last(), c)
    }
}

/// The usage table after the first `k` codons of `s`: each distinct codon in
/// order of first appearance, with how often it occurs.
pub open spec fn usage_of(s: Seq<char>, k: int) -> Seq<(Seq<char>, nat)>
    decreases k,
{
    if k <= 0 {
        Seq::empty()
    } else {
        let u = usage_of(s, k - 1);
        let c = codon_at(s, 3 * (k - 1));
        let at = usage_index(u, c);
        if at < 0 {
            u.push((c, 1nat))
        } else {
            u.update(at, (c, u[at].1 + 1))
        }
    }
}

pub proof fn lemma_usage_index(u: Seq<(Seq<char>, nat)>, c: Seq<char>)
    ensures
        -1 <= usage_index(u, c) < u.len(),
        usage_index(u, c) >= 0 ==> u[usage_index(u, c)].0 == c,
        usage_index(u, c) < 0 ==> forall|i: int| 0 <= i < u.len() ==> (#[trigger] u[i]).0 != c,
    decreases u.len(),
{
    if u.len() > 0 {
        lemma_usage_index(u.drop_last(), c);
        if u.last().0 != c {
            assert forall|i: int| 0 <= i < u.len() - 1 implies (#[trigger] u[i]).0 == u.drop_last()[i].0 by {}
        }
    }
}

pub open spec fn usage_view(v: Seq<(String, usize)>) -> Seq<(Seq<char>, nat)> {
    v.map_values(|e: (String, usize)| (e.0@, e.1 as nat))
}

/// How often each codon of the first frame of the uppercase sequence occurs,
/// codons in order of first appearance.
pub fn calculate_codon_usage(dna: &str) -> (r: Result<Vec<(String, usize)>, String>)
    ensures
        r is Ok,
        usage_view(r->Ok_0@) == usage_of(upper_of(dna@), (upper_of(dna@).len() / 3) as int),
{
    let cs = chars_of(uppercase(dna).as_str());
    let n = cs.len();
    let mut table: Vec<(String, usize)> = Vec::new();
    let mut k: usize = 0;
    while k < n / 3
        invariant
            n == cs@.len(),
            k <= n / 3,
            usage_view(table@) == usage_of(cs@, k as int),
            forall|t: int| 0 <= t < table@.len() ==> (#[trigger] table@[t]).1 <= k,
            forall|i: int, j: int| 0 <= i < j < table@.len() ==> (#[trigger] table@[i]).0@ != (#[trigger] table@[j]).0@,
        decreases n / 3 - k,
    {
        let codon = codon_string(&cs, 3 * k);
        let ghost u = usage_of(cs@, k as int);
        proof {
            lemma_usage_index(u, codon@);
        }
        let mut at: usize = 0;
        while at < table.len() && !(table[at].0 == codon)
            invariant
                usage_view(table@) == u,
                at <= table@.len(),
                forall|t: int| 0 <= t < at ==> (#[trigger] table@[t]).0@ != codon@,
            decreases table@.len() - at,
        {
            at = at + 1;
        }
        if at < table.len() {
            proof {
                assert(u[at as int].0 == table@[at as int].0@);
                assert forall|i: int, j: int| 0 <= i < j < u.len() implies (#[trigger] u[i]).0 != (#[trigger] u[j]).0 by {
                    assert(u[i].0 == table@[i].0@);
                    assert(u[j].0 == table@[j].0@);
                }
                lemma_usage_index_first(u, codon@, at as int);
            }
            let count = table[at].1;
            table.set(at, (codon, count + 1));
        } else {
            proof {
                assert forall|i: int| 0 <= i < u.len() implies (#[trigger] u[i]).0 != codon@ by {
                    assert(u[i].0 == table@[i].0@);
                }
                lemma_usage_index_none(u, codon@);
            }
            table.push((codon, 1));
        }
        proof {
            assert(usage_view(table@) =~= usage_of(cs@, k + 1));
        }
        k = k + 1;
    }
    Ok(table)
}

pub proof fn lemma_usage_index_none(u: Seq<(Seq<char>, nat)>, c: Seq<char>)
    requires
        forall|i: int| 0 <= i < u.len() ==> (#[trigger] u[i]).0 != c,
    ensures
        usage_index(u, c) == -1,
    decreases u.len(),
{
    if u.len() > 0 {
        assert(u.last().0 != c);
        assert forall|i: int| 0 <= i < u.len() - 1 implies (#[trigger] u.drop_last()[i]).0 != c by {
            assert(u.drop_last()[i] == u[i]);
        }
        lemma_usage_index_none(u.drop_last(), c);
    }
}

/// When the codons of a table are distinct up to `at` from the front, the
/// first entry for `c` is the one `usage_index` finds.
pub proof fn lemma_usage_index_first(u: Seq<(Seq<char>, nat)>, c: Seq<char>, at: int)
    requires
        0 <= at < u.len(),
        u[at].0 == c,
        forall|i: int, j: int| 0 <= i < j < u.len() ==> (#[trigger] u[i]).0 != (#[trigger] u[j]).0,
    ensures
        usage_index(u, c) == at,
    decreases u.len(),
{
    if at < u.len() - 1 {
        assert(u.last().0 != c);
        assert forall|i: int, j: int| 0 <= i < j < u.len() - 1 implies (#[trigger] u.drop_last()[i]).0
            != (#[trigger] u.drop_last()[j]).0 by {
            assert(u.drop_last()[i] == u[i]);
            assert(u.drop_last()[j] == u[j]);
        }
        lemma_usage_index_first(u.drop_last(), c, at);
    }
}


/// The first `k` characters of `s`, with a space after every third one that
/// is not the last of `s`.
pub open spec fn triplets_upto(s: Seq<char>, k: int) -> Seq<char>
    decreases k,
{
    if k <= 0 {
        Seq::empty()
    } else {
        let t = triplets_upto(s, k - 1).push(s[k - 1]);
        if k % 3 == 0 && k < s.len() {
            t.push(' ')
        } else {
            t
        }
    }
}

/// A sequence grouped in codons: a space after every third character, none
/// at the end.
pub fn format_triplets(sequence: &str) -> (r: String)
    ensures
        r@ == triplets_upto(sequence@, sequence@.len() as int),
{
    let cs = chars_of(sequence);
    let n = cs.len();
    let mut out: Vec<char> = Vec::new();
    let mut count: usize = 0;
    while count < n
        invariant
            n == cs@.len(),
            count <= n,
            out@ == triplets_upto(cs@, count as int),
        decreases n - count,
    {
        out.push(cs[count]);
        count = count + 1;
        if count % 3 == 0 && count < n {
            out.push(' ');
        }
    }
    string_of(out.as_slice())
}

} // verus!

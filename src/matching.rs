//! Position-wise comparison of sequences: similarity scores, per-position
//! match masks and the longest common subsequence.
//!
//! Scores are fixed-point percentages: `SCORE_UNIT` stands for one percent,
//! so identical sequences score `FULL_SCORE`.

use vstd::prelude::*;
use crate::text::{chars_of, string_of, upper_of, uppercase};

verus! {

/// One percent, in score units.
pub const SCORE_UNIT: u64 = 1_000_000;

/// A hundred percent, in score units.
pub const FULL_SCORE: u64 = 100_000_000;

/// The length of the shorter of two sequences.
pub open spec fn shorter_len(a: Seq<char>, b: Seq<char>) -> nat {
    if a.len() <= b.len() {
        a.len()
    } else {
        b.len()
    }
}

/// The number of positions below `n` at which `a` and `b` hold the same character.
pub open spec fn matches_upto(a: Seq<char>, b: Seq<char>, n: int) -> nat
    decreases n,
{
    if n <= 0 {
        0
    } else {
        matches_upto(a, b, n - 1) + if a[n - 1] == b[n - 1] {
            1nat
        } else {
            0nat
        }
    }
}

/// The share of equal positions over the shorter length, in score units,
/// rounded down; zero when either sequence is empty.
pub open spec fn similarity_score(a: Seq<char>, b: Seq<char>) -> nat {
    let n = shorter_len(a, b);
    if n == 0 {
        0
    } else {
        matches_upto(a, b, n as int) * (FULL_SCORE as nat) / n
    }
}

/// One flag per position of the shorter sequence: whether the characters there are equal.
pub open spec fn match_mask(a: Seq<char>, b: Seq<char>) -> Seq<bool> {
    Seq::new(shorter_len(a, b), |i: int| a[i] == b[i])
}

pub proof fn lemma_matches_upto_bounded(a: Seq<char>, b: Seq<char>, n: int)
    ensures
        n >= 0 ==> matches_upto(a, b, n) <= n,
    decreases n,
{
    if n > 0 {
        lemma_matches_upto_bounded(a, b, n - 1);
    }
}

pub proof fn lemma_matches_upto_self(a: Seq<char>, n: int)
    ensures
        n >= 0 ==> matches_upto(a, a, n) == n,
    decreases n,
{
    if n > 0 {
        lemma_matches_upto_self(a, n - 1);
    }
}

/// A score never exceeds a full match.
pub proof fn lemma_similarity_bounded(a: Seq<char>, b: Seq<char>)
    ensures
        similarity_score(a, b) <= FULL_SCORE,
{
    let n = shorter_len(a, b);
    if n > 0 {
        lemma_matches_upto_bounded(a, b, n as int);
        let m = matches_upto(a, b, n as int);
        let f = FULL_SCORE as nat;
        assert(m * f <= n * f) by (nonlinear_arith)
            requires
                m <= n,
        ;
        assert(m * f / n <= f) by (nonlinear_arith)
            requires
                m * f <= n * f,
                n > 0,
        ;
    }
}

/// Exact position-wise similarity of two character sequences, in score units.
pub fn score_positions(a: &[char], b: &[char]) -> (r: u64)
    ensures
        r == similarity_score(a@, b@),
        r <= FULL_SCORE,
{
    let n: usize = if a.len() <= b.len() {
        a.len()
    } else {
        b.len()
    };
    if n == 0 {
        return 0;
    }
    let mut count: usize = 0;
    let mut i: usize = 0;
    while i < n
        invariant
            n == shorter_len(a@, b@),
            i <= n,
            count == matches_upto(a@, b@, i as int),
            count <= i,
        decreases n - i,
    {
        if a[i] == b[i] {
            count = count + 1;
        }
        i = i + 1;
    }
    proof {
        lemma_similarity_bounded(a@, b@);
        lemma_matches_upto_bounded(a@, b@, n as int);
    }
    let wide: u128 = (count as u128) * (FULL_SCORE as u128);
    assert(wide == count * FULL_SCORE);
    ((wide / (n as u128)) as u64)
}

/// Exact per-position comparison of two character sequences.
pub fn mask_positions(a: &[char], b: &[char]) -> (r: Vec<bool>)
    ensures
        r@ == match_mask(a@, b@),
{
    let n: usize = if a.len() <= b.len() {
        a.len()
    } else {
        b.len()
    };
    let mut out: Vec<bool> = Vec::new();
    let mut i: usize = 0;
    while i < n
        invariant
            n == shorter_len(a@, b@),
            i <= n,
            out@.len() == i,
            forall|k: int| 0 <= k < i ==> out@[k] == (a@[k] == b@[k]),
        decreases n - i,
    {
        out.push(a[i] == b[i]);
        i = i + 1;
    }
    proof {
        assert(out@ == match_mask(a@, b@));
    }
    out
}

/// Position-wise similarity of two DNA sequences, ignoring case: the share of
/// positions, over the shorter length, whose uppercase characters agree.
pub fn calculate_dna_similarity(seq1: &str, seq2: &str) -> (r: u64)
    ensures
        r == similarity_score(upper_of(seq1@), upper_of(seq2@)),
        r <= FULL_SCORE,
        seq1@.len() == 0 || seq2@.len() == 0 ==> r == 0,
        seq1@ == seq2@ && seq1@.len() > 0 ==> r == FULL_SCORE,
{
    let a = chars_of(uppercase(seq1).as_str());
    let b = chars_of(uppercase(seq2).as_str());
    proof {
        if seq1@ == seq2@ && seq1@.len() > 0 {
            lemma_similarity_reflexive(a@);
        }
    }
    score_positions(a.as_slice(), b.as_slice())
}

/// Position-wise similarity of two amino acid sequences, case-sensitive.
pub fn calculate_amino_acid_similarity(seq1: &str, seq2: &str) -> (r: u64)
    ensures
        r == similarity_score(seq1@, seq2@),
        r <= FULL_SCORE,
{
    let a = chars_of(seq1);
    let b = chars_of(seq2);
    score_positions(a.as_slice(), b.as_slice())
}

/// For each position of the shorter sequence, whether the uppercase characters agree.
pub fn identify_matching_positions(seq1: &str, seq2: &str) -> (r: Vec<bool>)
    ensures
        r@ == match_mask(upper_of(seq1@), upper_of(seq2@)),
{
    let a = chars_of(uppercase(seq1).as_str());
    let b = chars_of(uppercase(seq2).as_str());
    mask_positions(a.as_slice(), b.as_slice())
}

/// Any non-empty sequence is a full match of itself.
pub proof fn lemma_similarity_reflexive(a: Seq<char>)
    requires
        a.len() > 0,
    ensures
        similarity_score(a, a) == FULL_SCORE,
{
    lemma_matches_upto_self(a, a.len() as int);
    let n = a.len();
    assert(n * (FULL_SCORE as nat) / n == FULL_SCORE as nat) by (nonlinear_arith)
        requires
            n > 0,
    ;
}

/// An empty sequence scores zero against anything.
pub proof fn lemma_similarity_empty(b: Seq<char>)
    ensures
        similarity_score(Seq::<char>::empty(), b) == 0,
{
}


/// The length of a longest common subsequence of `a` and `b`.
pub open spec fn lcs_len(a: Seq<char>, b: Seq<char>) -> nat
    decreases a.len() + b.len(),
{
    if a.len() == 0 || b.len() == 0 {
        0
    } else if a.last() == b.last() {
        lcs_len(a.drop_last(), b.drop_last()) + 1
    } else {
        let x = lcs_len(a.drop_last(), b);
        let y = lcs_len(a, b.drop_last());
        if x >= y {
            x
        } else {
            y
        }
    }
}

/// The longest common subsequence that is found by walking back from the
/// ends: equal last characters are kept, otherwise the shorter side is
/// dropped from `a` when that keeps strictly more, and from `b` otherwise.
pub open spec fn lcs_of(a: Seq<char>, b: Seq<char>) -> Seq<char>
    decreases a.len() + b.len(),
{
    if a.len() == 0 || b.len() == 0 {
        Seq::empty()
    } else if a.last() == b.last() {
        lcs_of(a.drop_last(), b.drop_last()).push(a.last())
    } else if lcs_len(a.drop_last(), b) > lcs_len(a, b.drop_last()) {
        lcs_of(a.drop_last(), b)
    } else {
        lcs_of(a, b.drop_last())
    }
}

pub proof fn lemma_lcs_len_bounded(a: Seq<char>, b: Seq<char>)
    ensures
        lcs_len(a, b) <= a.len(),
        lcs_len(a, b) <= b.len(),
    decreases a.len() + b.len(),
{
    if a.len() > 0 && b.len() > 0 {
        lemma_lcs_len_bounded(a.drop_last(), b.drop_last());
        lemma_lcs_len_bounded(a.drop_last(), b);
        lemma_lcs_len_bounded(a, b.drop_last());
    }
}

/// The subsequence that the walk finds is a longest one.
pub proof fn lemma_lcs_of_len(a: Seq<char>, b: Seq<char>)
    ensures
        lcs_of(a, b).len() == lcs_len(a, b),
    decreases a.len() + b.len(),
{
    if a.len() > 0 && b.len() > 0 {
        lemma_lcs_of_len(a.drop_last(), b.drop_last());
        lemma_lcs_of_len(a.drop_last(), b);
        lemma_lcs_of_len(a, b.drop_last());
    }
}


/// Whether `s` can be read off `t` by deleting characters: matching from the
/// ends, a last character of `t` that differs from the last of `s` is skipped.
pub open spec fn is_subsequence(s: Seq<char>, t: Seq<char>) -> bool
    decreases t.len(),
{
    if s.len() == 0 {
        true
    } else if t.len() == 0 {
        false
    } else if s.last() == t.last() {
        is_subsequence(s.drop_last(), t.drop_last())
    } else {
        is_subsequence(s, t.drop_last())
    }
}

proof fn lemma_subsequence_drop_last(s: Seq<char>, t: Seq<char>)
    requires
        s.len() > 0,
        is_subsequence(s, t),
    ensures
        is_subsequence(s.drop_last(), t),
    decreases t.len(), 1int,
{
    if t.len() > 0 {
        assert(t.drop_last().push(t.last()) == t);
        if s.last() == t.last() {
            lemma_subsequence_extend(s.drop_last(), t.drop_last(), t.last());
        } else {
            lemma_subsequence_drop_last(s, t.drop_last());
            lemma_subsequence_extend(s.drop_last(), t.drop_last(), t.last());
        }
    }
}

/// A subsequence stays one when the sequence grows at its end.
proof fn lemma_subsequence_extend(s: Seq<char>, t: Seq<char>, x: char)
    requires
        is_subsequence(s, t),
    ensures
        is_subsequence(s, t.push(x)),
    decreases t.len(), 2int,
{
    let u = t.push(x);
    assert(u.drop_last() == t);
    assert(u.last() == x);
    if s.len() > 0 && s.last() == x {
        lemma_subsequence_drop_last(s, t);
    }
}

/// No common subsequence is longer than `lcs_len`.
pub proof fn lemma_lcs_len_is_longest(s: Seq<char>, a: Seq<char>, b: Seq<char>)
    requires
        is_subsequence(s, a),
        is_subsequence(s, b),
    ensures
        s.len() <= lcs_len(a, b),
    decreases a.len() + b.len(),
{
    if s.len() > 0 && a.len() > 0 && b.len() > 0 {
        if a.last() == b.last() {
            if s.last() == a.last() {
                lemma_lcs_len_is_longest(s.drop_last(), a.drop_last(), b.drop_last());
            } else {
                lemma_lcs_len_is_longest(s, a.drop_last(), b.drop_last());
            }
        } else if s.last() != a.last() {
            lemma_lcs_len_is_longest(s, a.drop_last(), b);
        } else {
            lemma_lcs_len_is_longest(s, a, b.drop_last());
        }
    }
}

/// The walk's result is a subsequence of both sequences.
pub proof fn lemma_lcs_of_common(a: Seq<char>, b: Seq<char>)
    ensures
        is_subsequence(lcs_of(a, b), a),
        is_subsequence(lcs_of(a, b), b),
    decreases a.len() + b.len(),
{
    if a.len() > 0 && b.len() > 0 {
        if a.last() == b.last() {
            let r = lcs_of(a.drop_last(), b.drop_last());
            lemma_lcs_of_common(a.drop_last(), b.drop_last());
            assert(r.push(a.last()).drop_last() == r);
        } else if lcs_len(a.drop_last(), b) > lcs_len(a, b.drop_last()) {
            lemma_lcs_of_common(a.drop_last(), b);
            lemma_subsequence_extend(lcs_of(a.drop_last(), b), a.drop_last(), a.last());
            assert(a.drop_last().push(a.last()) == a);
        } else {
            lemma_lcs_of_common(a, b.drop_last());
            lemma_subsequence_extend(lcs_of(a, b.drop_last()), b.drop_last(), b.last());
            assert(b.drop_last().push(b.last()) == b);
        }
    }
}

proof fn lemma_take_step(s: Seq<char>, i: int)
    requires
        0 < i <= s.len(),
    ensures
        s.take(i).drop_last() == s.take(i - 1),
        s.take(i).last() == s[i - 1],
        s.take(i).len() == i,
{
}

/// The table of longest common subsequence lengths of all prefixes.
fn lcs_table(a: &Vec<char>, b: &Vec<char>) -> (r: Vec<Vec<usize>>)
    ensures
        r@.len() == a@.len() + 1,
        forall|i: int| 0 <= i <= a@.len() ==> (#[trigger] r@[i])@.len() == b@.len() + 1,
        forall|i: int, j: int|
            0 <= i <= a@.len() && 0 <= j <= b@.len() ==> (#[trigger] r@[i]@[j]) == lcs_len(
                a@.take(i),
                b@.take(j),
            ),
{
    let n = a.len();
    let m = b.len();
    let mut rows: Vec<Vec<usize>> = Vec::new();
    let mut first: Vec<usize> = Vec::new();
    first.push(0);
    let mut j: usize = 0;
    while j < m
        invariant
            m == b@.len(),
            j <= m,
            first@.len() == j + 1,
            forall|t: int| 0 <= t <= j ==> first@[t] == 0,
        decreases m - j,
    {
        first.push(0);
        j = j + 1;
    }
    proof {
        assert forall|t: int| 0 <= t <= m implies first@[t] == lcs_len(a@.take(0), b@.take(t)) by {
            assert(a@.take(0).len() == 0);
        }
    }
    rows.push(first);
    let mut i: usize = 0;
    while i < n
        invariant
            n == a@.len(),
            m == b@.len(),
            i <= n,
            rows@.len() == i + 1,
            forall|ii: int| 0 <= ii <= i ==> (#[trigger] rows@[ii])@.len() == m + 1,
            forall|ii: int, jj: int|
                0 <= ii <= i && 0 <= jj <= m ==> (#[trigger] rows@[ii]@[jj]) == lcs_len(
                    a@.take(ii),
                    b@.take(jj),
                ),
        decreases n - i,
    {
        let mut row: Vec<usize> = Vec::new();
        row.push(0);
        proof {
            assert(b@.take(0).len() == 0);
        }
        let mut j: usize = 0;
        while j < m
            invariant
                n == a@.len(),
                m == b@.len(),
                i < n,
                j <= m,
                rows@.len() == i + 1,
                forall|ii: int| 0 <= ii <= i ==> (#[trigger] rows@[ii])@.len() == m + 1,
                forall|ii: int, jj: int|
                    0 <= ii <= i && 0 <= jj <= m ==> (#[trigger] rows@[ii]@[jj]) == lcs_len(
                        a@.take(ii),
                        b@.take(jj),
                    ),
                row@.len() == j + 1,
                forall|jj: int| 0 <= jj <= j ==> (#[trigger] row@[jj]) == lcs_len(a@.take(i + 1), b@.take(jj)),
            decreases m - j,
        {
            let prev = &rows[i];
            proof {
                lemma_take_step(a@, i + 1);
                lemma_take_step(b@, j + 1);
                lemma_lcs_len_bounded(a@.take(i as int), b@.take(j as int));
                assert(prev@[j as int] == lcs_len(a@.take(i as int), b@.take(j as int)));
                assert(prev@[j + 1] == lcs_len(a@.take(i as int), b@.take(j + 1)));
            }
            let v = if a[i] == b[j] {
                prev[j] + 1
            } else if prev[j + 1] >= row[j] {
                prev[j + 1]
            } else {
                row[j]
            };
            row.push(v);
            j = j + 1;
        }
        rows.push(row);
        i = i + 1;
    }
    rows
}

/// A longest common subsequence of two sequences, ignoring case: the walk
/// of `lcs_of` over their uppercase forms.
pub fn find_longest_common_subsequence(seq1: &str, seq2: &str) -> (r: String)
    ensures
        r@ == lcs_of(upper_of(seq1@), upper_of(seq2@)),
        r@.len() == lcs_len(upper_of(seq1@), upper_of(seq2@)),
        is_subsequence(r@, upper_of(seq1@)),
        is_subsequence(r@, upper_of(seq2@)),
        forall|s: Seq<char>|
            is_subsequence(s, upper_of(seq1@)) && is_subsequence(s, upper_of(seq2@)) ==> s.len()
                <= r@.len(),
{
    let a = chars_of(uppercase(seq1).as_str());
    let b = chars_of(uppercase(seq2).as_str());
    let dp = lcs_table(&a, &b);
    let mut rev: Vec<char> = Vec::new();
    let mut i: usize = a.len();
    let mut j: usize = b.len();
    let ghost mut suffix: Seq<char> = Seq::empty();
    proof {
        assert(a@.take(a@.len() as int) == a@);
        assert(b@.take(b@.len() as int) == b@);
        assert(lcs_of(a@, b@) + suffix =~= lcs_of(a@, b@));
    }
    while i > 0 && j > 0
        invariant
            dp@.len() == a@.len() + 1,
            forall|ii: int| 0 <= ii <= a@.len() ==> (#[trigger] dp@[ii])@.len() == b@.len() + 1,
            forall|ii: int, jj: int|
                0 <= ii <= a@.len() && 0 <= jj <= b@.len() ==> (#[trigger] dp@[ii]@[jj]) == lcs_len(
                    a@.take(ii),
                    b@.take(jj),
                ),
            i <= a@.len(),
            j <= b@.len(),
            lcs_of(a@, b@) == lcs_of(a@.take(i as int), b@.take(j as int)) + suffix,
            rev@.len() == suffix.len(),
            forall|k: int| 0 <= k < rev@.len() ==> rev@[k] == suffix[suffix.len() - 1 - k],
        decreases i + j,
    {
        proof {
            lemma_take_step(a@, i as int);
            lemma_take_step(b@, j as int);
        }
        if a[i - 1] == b[j - 1] {
            let c = a[i - 1];
            proof {
                let x = lcs_of(a@.take(i - 1), b@.take(j - 1));
                assert(lcs_of(a@.take(i as int), b@.take(j as int)) == x.push(c));
                assert(x.push(c) + suffix =~= x + (seq![c] + suffix));
                suffix = seq![c] + suffix;
            }
            rev.push(c);
            i = i - 1;
            j = j - 1;
        } else if dp[i - 1][j] > dp[i][j - 1] {
            i = i - 1;
        } else {
            j = j - 1;
        }
    }
    proof {
        assert(lcs_of(a@.take(i as int), b@.take(j as int)) == Seq::<char>::empty());
        assert(lcs_of(a@, b@) =~= suffix);
        assert(a@.take(a@.len() as int) == a@);
        assert(b@.take(b@.len() as int) == b@);
        lemma_lcs_of_len(a@, b@);
        lemma_lcs_of_common(a@, b@);
        assert forall|s: Seq<char>| is_subsequence(s, a@) && is_subsequence(s, b@) implies s.len()
            <= lcs_len(a@, b@) by {
            lemma_lcs_len_is_longest(s, a@, b@);
        }
    }
    let mut out: Vec<char> = Vec::new();
    let len = rev.len();
    let mut k: usize = 0;
    while k < len
        invariant
            len == rev@.len() == suffix.len(),
            forall|t: int| 0 <= t < rev@.len() ==> rev@[t] == suffix[suffix.len() - 1 - t],
            k <= len,
            out@ == suffix.take(k as int),
        decreases len - k,
    {
        out.push(rev[len - 1 - k]);
        proof {
            assert(suffix.take(k + 1) == suffix.take(k as int).push(suffix[k as int]));
        }
        k = k + 1;
    }
    proof {
        assert(suffix.take(k as int) == suffix);
    }
    string_of(out.as_slice())
}


/// The window of `k` characters that starts at `i`.
pub open spec fn window(s: Seq<char>, i: int, k: int) -> Seq<char> {
    s.subrange(i, i + k)
}

/// The distinct windows of length `k` that start before `n`, in order of
/// first appearance.
pub open spec fn distinct_windows(s: Seq<char>, k: int, n: int) -> Seq<Seq<char>>
    decreases n,
{
    if n <= 0 {
        Seq::empty()
    } else {
        let d = distinct_windows(s, k, n - 1);
        let w = window(s, n - 1, k);
        if d.contains(w) {
            d
        } else {
            d.push(w)
        }
    }
}

/// All distinct k-mers of `s`, in order of first appearance.
pub open spec fn kmers(s: Seq<char>, k: nat) -> Seq<Seq<char>> {
    if s.len() < k {
        Seq::empty()
    } else {
        distinct_windows(s, k as int, s.len() - k + 1)
    }
}

/// How many of the first `n` entries of `a` also occur in `b`.
pub open spec fn shared_upto(a: Seq<Seq<char>>, b: Seq<Seq<char>>, n: int) -> nat
    decreases n,
{
    if n <= 0 {
        0
    } else {
        shared_upto(a, b, n - 1) + if b.contains(a[n - 1]) {
            1nat
        } else {
            0nat
        }
    }
}

/// The Jaccard index of the k-mer sets of two sequences, in score units:
/// shared k-mers over all distinct k-mers of either.
pub open spec fn kmer_score(a: Seq<char>, b: Seq<char>, k: nat) -> nat {
    let ka = kmers(a, k);
    let kb = kmers(b, k);
    let shared = shared_upto(ka, kb, ka.len() as int);
    let either = ka.len() + kb.len() - shared;
    if either <= 0 {
        0
    } else {
        shared * (FULL_SCORE as nat) / (either as nat)
    }
}

proof fn lemma_shared_bounded(a: Seq<Seq<char>>, b: Seq<Seq<char>>, n: int)
    ensures
        n >= 0 ==> shared_upto(a, b, n) <= n,
    decreases n,
{
    if n > 0 {
        lemma_shared_bounded(a, b, n - 1);
    }
}


/// How many of the first `n` entries of `a` equal `x`.
pub open spec fn occurrences_upto(a: Seq<Seq<char>>, x: Seq<char>, n: int) -> nat
    decreases n,
{
    if n <= 0 {
        0
    } else {
        occurrences_upto(a, x, n - 1) + if a[n - 1] == x {
            1nat
        } else {
            0nat
        }
    }
}

proof fn lemma_distinct_windows_unique(s: Seq<char>, k: int, n: int)
    ensures
        distinct_windows(s, k, n).no_duplicates(),
    decreases n,
{
    if n > 0 {
        lemma_distinct_windows_unique(s, k, n - 1);
    }
}

proof fn lemma_occurrence_witness(a: Seq<Seq<char>>, x: Seq<char>, n: int)
    requires
        0 <= n <= a.len(),
        occurrences_upto(a, x, n) >= 1,
    ensures
        exists|j: int| 0 <= j < n && a[j] == x,
    decreases n,
{
    if a[n - 1] != x {
        lemma_occurrence_witness(a, x, n - 1);
    }
}

proof fn lemma_occurrences_at_most_one(a: Seq<Seq<char>>, x: Seq<char>, n: int)
    requires
        a.no_duplicates(),
        0 <= n <= a.len(),
    ensures
        occurrences_upto(a, x, n) <= 1,
    decreases n,
{
    if n > 0 {
        lemma_occurrences_at_most_one(a, x, n - 1);
        if a[n - 1] == x && occurrences_upto(a, x, n - 1) >= 1 {
            lemma_occurrence_witness(a, x, n - 1);
        }
    }
}

proof fn lemma_shared_split(a: Seq<Seq<char>>, b: Seq<Seq<char>>, n: int)
    requires
        b.len() > 0,
        0 <= n <= a.len(),
    ensures
        shared_upto(a, b, n) <= shared_upto(a, b.drop_last(), n) + occurrences_upto(a, b.last(), n),
    decreases n,
{
    if n > 0 {
        lemma_shared_split(a, b, n - 1);
        if b.contains(a[n - 1]) && a[n - 1] != b.last() {
            let j = choose|j: int| 0 <= j < b.len() && b[j] == a[n - 1];
            assert(b.drop_last()[j] == b[j]);
        }
    }
}

/// Distinct entries of `a` found in `b` are no more than the entries of `b`.
proof fn lemma_shared_within(a: Seq<Seq<char>>, b: Seq<Seq<char>>, n: int)
    requires
        a.no_duplicates(),
        0 <= n <= a.len(),
    ensures
        shared_upto(a, b, n) <= b.len(),
    decreases b.len(),
{
    if b.len() == 0 {
        lemma_shared_none(a, b, n);
    } else {
        lemma_shared_split(a, b, n);
        lemma_shared_within(a, b.drop_last(), n);
        lemma_occurrences_at_most_one(a, b.last(), n);
    }
}

proof fn lemma_shared_none(a: Seq<Seq<char>>, b: Seq<Seq<char>>, n: int)
    requires
        b.len() == 0,
    ensures
        shared_upto(a, b, n) == 0,
    decreases n,
{
    if n > 0 {
        lemma_shared_none(a, b, n - 1);
    }
}

/// Whether `v` holds `w`.
fn holds_window(v: &Vec<Vec<char>>, w: &Vec<char>) -> (r: bool)
    ensures
        r == v@.map_values(|x: Vec<char>| x@).contains(w@),
{
    let ghost vs = v@.map_values(|x: Vec<char>| x@);
    let mut i: usize = 0;
    while i < v.len()
        invariant
            vs == v@.map_values(|x: Vec<char>| x@),
            i <= v@.len(),
            forall|t: int| 0 <= t < i ==> vs[t] != w@,
        decreases v@.len() - i,
    {
        let x = &v[i];
        let mut same = x.len() == w.len();
        let mut j: usize = 0;
        while same && j < w.len()
            invariant
                i < v@.len(),
                x@ == v@[i as int]@,
                j <= w@.len(),
                same ==> x@.len() == w@.len(),
                same == (x@.len() == w@.len() && forall|t: int| 0 <= t < j ==> x@[t] == w@[t]),
            decreases w@.len() - j,
        {
            if x[j] != w[j] {
                same = false;
            }
            j = j + 1;
        }
        if same {
            proof {
                assert(x@ =~= w@);
                assert(vs[i as int] == w@);
            }
            return true;
        }
        proof {
            if x@.len() == w@.len() {
                let t = choose|t: int| 0 <= t < j && x@[t] != w@[t];
                assert(x@[t] != w@[t]);
            }
            assert(vs[i as int] == x@);
        }
        i = i + 1;
    }
    false
}

/// The distinct k-mers of `cs`, in order of first appearance.
fn kmer_list(cs: &Vec<char>, k: usize) -> (r: Vec<Vec<char>>)
    requires
        k <= cs@.len(),
    ensures
        r@.map_values(|x: Vec<char>| x@) == kmers(cs@, k as nat),
{
    let len = cs.len();
    let last = len - k;
    let mut out: Vec<Vec<char>> = Vec::new();
    let mut i: usize = 0;
    let mut done = false;
    while !done
        invariant
            len == cs@.len(),
            k <= len,
            last == len - k,
            i <= last,
            out@.map_values(|x: Vec<char>| x@) == distinct_windows(
                cs@,
                k as int,
                if done { last + 1 } else { i as int },
            ),
        decreases last - i + (if done { 0int } else { 1int }),
    {
        let mut w: Vec<char> = Vec::new();
        let mut j: usize = 0;
        while j < k
            invariant
                len == cs@.len(),
                i + k <= len,
                j <= k,
                w@ == cs@.subrange(i as int, i + j),
            decreases k - j,
        {
            w.push(cs[i + j]);
            proof {
                assert(cs@.subrange(i as int, i + j + 1) == cs@.subrange(i as int, i + j).push(cs@[i + j]));
            }
            j = j + 1;
        }
        if !holds_window(&out, &w) {
            let ghost before = out@;
            out.push(w);
            proof {
                assert(out@.map_values(|x: Vec<char>| x@) =~= before.map_values(|x: Vec<char>| x@).push(w@));
            }
        }
        if i == last {
            done = true;
        } else {
            i = i + 1;
        }
    }
    out
}

/// Similarity by shared k-mers, ignoring case: the Jaccard index of the sets
/// of length-`K` windows of the two uppercase sequences, in score units; zero
/// when either sequence is shorter than `K`.
pub fn calculate_kmer_similarity<const K: usize>(seq1: &str, seq2: &str) -> (r: u64)
    ensures
        seq1@.len() < K || seq2@.len() < K ==> r == 0,
        seq1@.len() >= K && seq2@.len() >= K ==> r == kmer_score(upper_of(seq1@), upper_of(seq2@), K as nat),
{
    let raw1 = chars_of(seq1);
    let raw2 = chars_of(seq2);
    if raw1.len() < K || raw2.len() < K {
        return 0;
    }
    let a = chars_of(uppercase(seq1).as_str());
    let b = chars_of(uppercase(seq2).as_str());
    let ka = if a.len() < K { Vec::new() } else { kmer_list(&a, K) };
    let kb = if b.len() < K { Vec::new() } else { kmer_list(&b, K) };
    let ghost sa = ka@.map_values(|x: Vec<char>| x@);
    let ghost sb = kb@.map_values(|x: Vec<char>| x@);
    proof {
        assert(sa == kmers(a@, K as nat)) by {
            if a@.len() < K {
                assert(sa =~= Seq::<Seq<char>>::empty());
            }
        }
        assert(sb == kmers(b@, K as nat)) by {
            if b@.len() < K {
                assert(sb =~= Seq::<Seq<char>>::empty());
            }
        }
    }
    let mut shared: usize = 0;
    let mut i: usize = 0;
    while i < ka.len()
        invariant
            sa == ka@.map_values(|x: Vec<char>| x@),
            sb == kb@.map_values(|x: Vec<char>| x@),
            i <= ka@.len(),
            shared == shared_upto(sa, sb, i as int),
            shared <= i,
        decreases ka@.len() - i,
    {
        if holds_window(&kb, &ka[i]) {
            shared = shared + 1;
        }
        i = i + 1;
    }
    proof {
        lemma_shared_bounded(sa, sb, sa.len() as int);
        if a@.len() >= K {
            lemma_distinct_windows_unique(a@, K as int, a@.len() - K + 1);
        }
        lemma_shared_within(sa, sb, sa.len() as int);
    }
    let all: u128 = ka.len() as u128 + kb.len() as u128 - shared as u128;
    if all == 0 {
        return 0;
    }
    proof {
        let s = shared as nat;
        let u = all as nat;
        let f = FULL_SCORE as nat;
        assert(s <= u);
        assert(s * f <= u * f) by (nonlinear_arith)
            requires
                s <= u,
        ;
        assert(s * f / u <= f) by (nonlinear_arith)
            requires
                s * f <= u * f,
                u > 0,
        ;
    }
    let wide: u128 = (shared as u128) * (FULL_SCORE as u128);
    ((wide / all) as u64)
}

} // verus!

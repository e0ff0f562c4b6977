//! The matching engine: scores every catalog record against the query and its
//! companion strand, picks the best candidate, ranks the leading ones and
//! estimates which strand the query more likely is; plus the rule that
//! decides when an edited query must be scored again.

use vstd::prelude::*;
use crate::text::{chars_of, upper_of, uppercase};
use crate::matching::{score_positions, mask_positions, similarity_score, match_mask, FULL_SCORE};
use crate::dataset::{SmallProtein, ProteinView, Strand, views_of};

verus! {

/// How many of the best scores a strand confidence averages.
pub const CONFIDENCE_TOP: usize = 5;

/// How many ranked candidates a match keeps unless told otherwise.
pub const DEFAULT_RANKED: usize = 10;

/// The index of the first entry with the highest score among the first `n`.
pub open spec fn first_max_upto(s: Seq<(usize, u64)>, n: int) -> int
    decreases n,
{
    if n <= 1 {
        0
    } else {
        let b = first_max_upto(s, n - 1);
        if s[n - 1].1 > s[b].1 {
            n - 1
        } else {
            b
        }
    }
}

/// The index of the first entry with the highest score.
pub open spec fn first_max(s: Seq<(usize, u64)>) -> int {
    first_max_upto(s, s.len() as int)
}

/// The `k` entries with the highest scores, highest first; among equal scores
/// the earlier entry comes first.
pub open spec fn top_entries(s: Seq<(usize, u64)>, k: nat) -> Seq<(usize, u64)>
    decreases k,
{
    if k == 0 || s.len() == 0 {
        Seq::empty()
    } else {
        let m = first_max(s);
        seq![s[m]] + top_entries(s.remove(m), (k - 1) as nat)
    }
}

/// Each score paired with its position.
pub open spec fn indexed(s: Seq<u64>) -> Seq<(usize, u64)> {
    Seq::new(s.len(), |i: int| (i as usize, s[i]))
}

pub open spec fn sum_scores(s: Seq<(usize, u64)>) -> nat
    decreases s.len(),
{
    if s.len() == 0 {
        0
    } else {
        sum_scores(s.drop_last()) + s.last().1 as nat
    }
}

pub open spec fn min_nat(a: nat, b: nat) -> nat {
    if a <= b {
        a
    } else {
        b
    }
}

/// The mean of the five highest scores (of all of them when there are fewer),
/// rounded down; zero for no scores.
pub open spec fn confidence_of(s: Seq<u64>) -> nat {
    let k = min_nat(CONFIDENCE_TOP as nat, s.len());
    if k == 0 {
        0
    } else {
        sum_scores(top_entries(indexed(s), k)) / k
    }
}

pub proof fn lemma_first_max_upto(s: Seq<(usize, u64)>, n: int)
    requires
        1 <= n <= s.len(),
    ensures
        0 <= first_max_upto(s, n) < n,
        forall|j: int| 0 <= j < n ==> (#[trigger] s[j]).1 <= s[first_max_upto(s, n)].1,
        forall|j: int| 0 <= j < first_max_upto(s, n) ==> (#[trigger] s[j]).1 < s[first_max_upto(s, n)].1,
    decreases n,
{
    if n > 1 {
        lemma_first_max_upto(s, n - 1);
    }
}

pub proof fn lemma_top_entries(s: Seq<(usize, u64)>, k: nat)
    ensures
        top_entries(s, k).len() == min_nat(k, s.len()),
        forall|j: int| 0 <= j < top_entries(s, k).len() ==> s.contains(#[trigger] top_entries(s, k)[j]),
    decreases k,
{
    if k > 0 && s.len() > 0 {
        let m = first_max(s);
        lemma_first_max_upto(s, s.len() as int);
        let rest = s.remove(m);
        lemma_top_entries(rest, (k - 1) as nat);
        let t = top_entries(s, k);
        let tr = top_entries(rest, (k - 1) as nat);
        assert(t == seq![s[m]] + tr);
        assert forall|j: int| 0 <= j < t.len() implies s.contains(#[trigger] t[j]) by {
            if j == 0 {
                assert(s[m] == t[j]);
            } else {
                assert(t[j] == tr[j - 1]);
                assert(rest.contains(tr[j - 1]));
                let w = choose|w: int| 0 <= w < rest.len() && rest[w] == tr[j - 1];
                if w < m {
                    assert(s[w] == rest[w]);
                } else {
                    assert(s[w + 1] == rest[w]);
                }
            }
        }
    }
}

pub proof fn lemma_sum_push(t: Seq<(usize, u64)>, x: (usize, u64))
    ensures
        sum_scores(t.push(x)) == sum_scores(t) + x.1,
{
    assert(t.push(x).drop_last() == t);
}


/// The entries that `top_entries` picks come highest score first.
pub proof fn lemma_top_entries_ordered(s: Seq<(usize, u64)>, k: nat)
    ensures
        forall|i: int, j: int|
            0 <= i < j < top_entries(s, k).len() ==> (#[trigger] top_entries(s, k)[i]).1 >= (
            #[trigger] top_entries(s, k)[j]).1,
    decreases k,
{
    if k > 0 && s.len() > 0 {
        let m = first_max(s);
        lemma_first_max_upto(s, s.len() as int);
        let rest = s.remove(m);
        lemma_top_entries_ordered(rest, (k - 1) as nat);
        lemma_top_entries(rest, (k - 1) as nat);
        let t = top_entries(s, k);
        let tr = top_entries(rest, (k - 1) as nat);
        assert(t == seq![s[m]] + tr);
        assert forall|j: int| 0 <= j < tr.len() implies s[m].1 >= (#[trigger] tr[j]).1 by {
            assert(rest.contains(tr[j]));
            let w = choose|w: int| 0 <= w < rest.len() && rest[w] == tr[j];
            if w < m {
                assert(s[w] == rest[w]);
            } else {
                assert(s[w + 1] == rest[w]);
            }
        }
        assert forall|i: int, j: int| 0 <= i < j < t.len() implies (#[trigger] t[i]).1 >= (#[trigger] t[j]).1 by {
            if i == 0 {
                assert(t[j] == tr[j - 1]);
            } else {
                assert(t[i] == tr[i - 1] && t[j] == tr[j - 1]);
            }
        }
    }
}

/// The position of the first entry with the highest score.
pub fn first_max_index(s: &Vec<(usize, u64)>) -> (r: usize)
    requires
        s@.len() > 0,
    ensures
        r == first_max(s@),
        r < s@.len(),
{
    let mut best: usize = 0;
    let mut i: usize = 1;
    while i < s.len()
        invariant
            1 <= i <= s@.len(),
            best == first_max_upto(s@, i as int),
            best < i,
        decreases s@.len() - i,
    {
        if s[i].1 > s[best].1 {
            best = i;
        }
        i = i + 1;
    }
    proof {
        lemma_first_max_upto(s@, s@.len() as int);
    }
    best
}

/// The `k` entries with the highest scores, highest first, earlier entries
/// first among equal scores.
pub fn select_top(entries: Vec<(usize, u64)>, k: usize) -> (r: Vec<(usize, u64)>)
    ensures
        r@ == top_entries(entries@, k as nat),
{
    let ghost all = entries@;
    let mut rest = entries;
    let mut out: Vec<(usize, u64)> = Vec::new();
    let mut taken: usize = 0;
    while taken < k && rest.len() > 0
        invariant
            taken <= k,
            out@ + top_entries(rest@, (k - taken) as nat) == top_entries(all, k as nat),
        decreases k - taken,
    {
        let m = first_max_index(&rest);
        let ghost before = rest@;
        let ghost done = out@;
        let x = rest.remove(m);
        out.push(x);
        proof {
            let left = (k - taken) as nat;
            assert(top_entries(before, left) == seq![x] + top_entries(rest@, (left - 1) as nat));
            assert(out@ + top_entries(rest@, (left - 1) as nat) =~= done + (seq![x] + top_entries(
                rest@,
                (left - 1) as nat,
            )));
        }
        taken = taken + 1;
    }
    out
}


/// Each score of `s` paired with its position, as an executable list.
pub fn index_scores(s: &[u64]) -> (r: Vec<(usize, u64)>)
    ensures
        r@ == indexed(s@),
{
    let mut out: Vec<(usize, u64)> = Vec::new();
    let mut i: usize = 0;
    while i < s.len()
        invariant
            i <= s@.len(),
            out@ == indexed(s@).take(i as int),
        decreases s@.len() - i,
    {
        out.push((i, s[i]));
        proof {
            assert(indexed(s@).take(i + 1) == indexed(s@).take(i as int).push((i, s@[i as int])));
        }
        i = i + 1;
    }
    proof {
        assert(indexed(s@).take(i as int) == indexed(s@));
    }
    out
}

/// How strongly a distribution of similarity scores points at its strand:
/// the mean of its five highest scores (of all of them when there are
/// fewer), rounded down, or zero for an empty distribution.
pub fn strand_confidence(similarities: &[u64]) -> (r: u64)
    ensures
        r == confidence_of(similarities@),
{
    let n = similarities.len();
    let k: usize = if n < CONFIDENCE_TOP {
        n
    } else {
        CONFIDENCE_TOP
    };
    if k == 0 {
        return 0;
    }
    let entries = index_scores(similarities);
    let top = select_top(entries, k);
    proof {
        lemma_top_entries(indexed(similarities@), k as nat);
    }
    let mut sum: u128 = 0;
    let mut i: usize = 0;
    while i < top.len()
        invariant
            top@.len() == k <= CONFIDENCE_TOP,
            i <= top@.len(),
            sum == sum_scores(top@.take(i as int)),
            sum <= i * (u64::MAX as nat),
        decreases top@.len() - i,
    {
        proof {
            lemma_sum_push(top@.take(i as int), top@[i as int]);
            assert(top@.take(i + 1) == top@.take(i as int).push(top@[i as int]));
        }
        sum = sum + top[i].1 as u128;
        i = i + 1;
    }
    proof {
        assert(top@.take(i as int) == top@);
        let kk = k as nat;
        let m = u64::MAX as nat;
        let total = sum as nat;
        assert(total / kk <= m) by (nonlinear_arith)
            requires
                total <= kk * m,
                kk > 0,
        ;
    }
    (sum / (k as u128)) as u64
}

/// Whether a query that changed from `previous` to `current` characters must
/// be scored again: always while it is short, on its first character, and
/// after a jump of three or more characters.
pub open spec fn recompute_due(previous: usize, current: usize) -> bool {
    current < 10 || previous == 0 || (if current >= previous {
        current - previous
    } else {
        previous - current
    }) >= 3
}

pub fn needs_recompute(previous_length: usize, current_length: usize) -> (r: bool)
    ensures
        r == recompute_due(previous_length, current_length),
{
    let diff = if current_length >= previous_length {
        current_length - previous_length
    } else {
        previous_length - current_length
    };
    current_length < 10 || previous_length == 0 || diff >= 3
}

/// The query that a record is compared with: the companion strand for a
/// minus-strand record, the forward strand for any other.
pub open spec fn relevant_query(rec: ProteinView, forward: Seq<char>, companion: Seq<char>) -> Seq<char> {
    if rec.strand == Strand::Minus {
        companion
    } else {
        forward
    }
}

/// The score of every record against one strand of the query.
pub open spec fn strand_scores(recs: Seq<ProteinView>, query: Seq<char>) -> Seq<u64> {
    Seq::new(recs.len(), |i: int| similarity_score(upper_of(query), upper_of(recs[i].rna_seq)) as u64)
}

/// The score of every record against the strand that its annotation selects.
pub open spec fn relevant_scores(recs: Seq<ProteinView>, forward: Seq<char>, companion: Seq<char>) -> Seq<u64> {
    Seq::new(
        recs.len(),
        |i: int|
            similarity_score(
                upper_of(relevant_query(recs[i], forward, companion)),
                upper_of(recs[i].rna_seq),
            ) as u64,
    )
}

/// The outcome of one matching pass.
pub struct MatchResult {
    pub best_record: Option<SmallProtein>,
    pub best_index: Option<usize>,
    pub best_similarity: u64,
    pub position_mask: Vec<bool>,
    pub current_strand_confidence: u64,
    pub opposite_strand_confidence: u64,
    pub ranked_candidates: Vec<(SmallProtein, u64)>,
}

impl MatchResult {
    /// A result that names no candidate.
    pub open spec fn spec_is_empty(&self) -> bool {
        &&& self.best_record is None
        &&& self.best_index is None
        &&& self.best_similarity == 0
        &&& self.position_mask@.len() == 0
        &&& self.current_strand_confidence == 0
        &&& self.opposite_strand_confidence == 0
        &&& self.ranked_candidates@.len() == 0
    }

    pub fn empty() -> (r: MatchResult)
        ensures
            r.spec_is_empty(),
    {
        MatchResult {
            best_record: None,
            best_index: None,
            best_similarity: 0,
            position_mask: Vec::new(),
            current_strand_confidence: 0,
            opposite_strand_confidence: 0,
            ranked_candidates: Vec::new(),
        }
    }
}

/// What a matching pass over `recs` yields for a non-empty query: the first
/// record with the highest relevant score, its mask, the confidences of the
/// two strands and the ranked leaders.
pub open spec fn match_holds(
    r: MatchResult,
    recs: Seq<ProteinView>,
    forward: Seq<char>,
    companion: Seq<char>,
    forward_active: bool,
    top_k: usize,
) -> bool {
    let rel = relevant_scores(recs, forward, companion);
    let fwd = strand_scores(recs, forward);
    let rev = strand_scores(recs, companion);
    let top = top_entries(indexed(rel), top_k as nat);
    &&& r.best_index is Some
    &&& {
        let b = r.best_index->0 as int;
        &&& 0 <= b < recs.len()
        &&& forall|j: int| 0 <= j < recs.len() ==> rel[j] <= rel[b]
        &&& forall|j: int| 0 <= j < b ==> rel[j] < rel[b]
        &&& r.best_record is Some && r.best_record->0@ == recs[b]
        &&& r.best_similarity == rel[b]
        &&& r.position_mask@ == match_mask(
            upper_of(relevant_query(recs[b], forward, companion)),
            upper_of(recs[b].rna_seq),
        )
    }
    &&& r.current_strand_confidence == confidence_of(if forward_active { fwd } else { rev })
    &&& r.opposite_strand_confidence == confidence_of(if forward_active { rev } else { fwd })
    &&& r.ranked_candidates@.len() == top.len()
    &&& forall|j: int|
        0 <= j < top.len() ==> {
            &&& (#[trigger] r.ranked_candidates@[j]).0@ == recs[top[j].0 as int]
            &&& r.ranked_candidates@[j].1 == top[j].1
        }
}

/// Scores every record against the query (`forward`) and its companion
/// strand. An empty query or an empty catalog gives the empty result.
pub fn compute_best_match(
    forward: &str,
    companion: &str,
    forward_active: bool,
    records: &[SmallProtein],
    top_k: usize,
) -> (r: MatchResult)
    ensures
        forward@.len() == 0 || records@.len() == 0 ==> r.spec_is_empty(),
        forward@.len() > 0 && records@.len() > 0 ==> match_holds(
            r,
            views_of(records@),
            forward@,
            companion@,
            forward_active,
            top_k,
        ),
{
    if forward.is_empty() || records.len() == 0 {
        return MatchResult::empty();
    }
    let ghost recs = views_of(records@);
    let ghost rel_s = relevant_scores(recs, forward@, companion@);
    let ghost fwd_s = strand_scores(recs, forward@);
    let ghost rev_s = strand_scores(recs, companion@);
    let fq = chars_of(uppercase(forward).as_str());
    let cq = chars_of(uppercase(companion).as_str());
    let mut fwd_scores: Vec<u64> = Vec::new();
    let mut rev_scores: Vec<u64> = Vec::new();
    let mut rel_scores: Vec<u64> = Vec::new();
    let mut best: usize = 0;
    let mut i: usize = 0;
    while i < records.len()
        invariant
            recs == views_of(records@),
            rel_s == relevant_scores(recs, forward@, companion@),
            fwd_s == strand_scores(recs, forward@),
            rev_s == strand_scores(recs, companion@),
            fq@ == upper_of(forward@),
            cq@ == upper_of(companion@),
            i <= records@.len(),
            fwd_scores@ == fwd_s.take(i as int),
            rev_scores@ == rev_s.take(i as int),
            rel_scores@ == rel_s.take(i as int),
            i > 0 ==> best < i,
            forall|j: int| 0 <= j < i ==> rel_s[j] <= rel_s[best as int],
            forall|j: int| 0 <= j < best ==> rel_s[j] < rel_s[best as int],
        decreases records@.len() - i,
    {
        let rna = chars_of(uppercase(records[i].rna_seq.as_str()).as_str());
        let fs = score_positions(fq.as_slice(), rna.as_slice());
        let rs = score_positions(cq.as_slice(), rna.as_slice());
        let rel = match records[i].strand {
            Strand::Minus => rs,
            Strand::Plus => fs,
        };
        proof {
            assert(recs[i as int] == records@[i as int]@);
            assert(fwd_s.take(i + 1) == fwd_s.take(i as int).push(fs));
            assert(rev_s.take(i + 1) == rev_s.take(i as int).push(rs));
            assert(rel_s.take(i + 1) == rel_s.take(i as int).push(rel));
        }
        if i == 0 || rel > rel_scores[best] {
            best = i;
        }
        fwd_scores.push(fs);
        rev_scores.push(rs);
        rel_scores.push(rel);
        i = i + 1;
    }
    proof {
        assert(fwd_scores@ == fwd_s);
        assert(rev_scores@ == rev_s);
        assert(rel_scores@ == rel_s);
        assert(recs[best as int] == records@[best as int]@);
    }
    let best_rec = &records[best];
    let best_rna = chars_of(uppercase(best_rec.rna_seq.as_str()).as_str());
    let mask = match best_rec.strand {
        Strand::Minus => mask_positions(cq.as_slice(), best_rna.as_slice()),
        Strand::Plus => mask_positions(fq.as_slice(), best_rna.as_slice()),
    };
    let fwd_conf = strand_confidence(fwd_scores.as_slice());
    let rev_conf = strand_confidence(rev_scores.as_slice());
    let top = select_top(index_scores(rel_scores.as_slice()), top_k);
    proof {
        lemma_top_entries(indexed(rel_s), top_k as nat);
    }
    let mut ranked: Vec<(SmallProtein, u64)> = Vec::new();
    let mut j: usize = 0;
    while j < top.len()
        invariant
            recs == views_of(records@),
            top@ == top_entries(indexed(rel_s), top_k as nat),
            rel_s.len() == records@.len(),
            forall|t: int| 0 <= t < top@.len() ==> indexed(rel_s).contains(#[trigger] top@[t]),
            j <= top@.len(),
            ranked@.len() == j,
            forall|t: int|
                0 <= t < j ==> {
                    &&& (#[trigger] ranked@[t]).0@ == recs[top@[t].0 as int]
                    &&& ranked@[t].1 == top@[t].1
                },
        decreases top@.len() - j,
    {
        let (idx, score) = top[j];
        proof {
            assert(indexed(rel_s).contains(top@[j as int]));
            let w = choose|w: int| 0 <= w < indexed(rel_s).len() && indexed(rel_s)[w] == top@[j as int];
            assert(indexed(rel_s)[w] == (w as usize, rel_s[w]));
            assert(recs[idx as int] == records@[idx as int]@);
        }
        ranked.push((records[idx].snapshot(), score));
        j = j + 1;
    }
    let (current, opposite) = if forward_active {
        (fwd_conf, rev_conf)
    } else {
        (rev_conf, fwd_conf)
    };
    MatchResult {
        best_record: Some(best_rec.snapshot()),
        best_index: Some(best),
        best_similarity: rel_scores[best],
        position_mask: mask,
        current_strand_confidence: current,
        opposite_strand_confidence: opposite,
        ranked_candidates: ranked,
    }
}

} // verus!

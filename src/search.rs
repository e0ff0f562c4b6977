//! The catalog browser: which field is searched, the stored filters, the
//! criteria that a record must meet, and the selection among the results.

use vstd::prelude::*;
use crate::app::App;
use crate::dataset::{SmallProtein, ProteinView, Strand, unsigned_literal, parse_usize};
use crate::text::{chars_of, lower_of, lowercase, occurs_in, contains_chars, push_char, pop_char};

verus! {

/// A field that the browser can search.
#[derive(Clone, Copy, Debug, PartialEq, Eq, Hash, Structural)]
pub enum SearchField {
    Species,
    Id,
    Chromosome,
    Strand,
    StartCodon,
    MinLength,
    MaxLength,
    MinPhyloCSF,
    MaxPhyloCSF,
}

/// How many fields the browser cycles through.
pub const SEARCH_FIELDS: usize = 9;

/// The field at a position of the cycle; the first field past its end.
pub open spec fn field_at(i: usize) -> SearchField {
    if i == 0 {
        SearchField::Species
    } else if i == 1 {
        SearchField::Id
    } else if i == 2 {
        SearchField::Chromosome
    } else if i == 3 {
        SearchField::Strand
    } else if i == 4 {
        SearchField::StartCodon
    } else if i == 5 {
        SearchField::MinLength
    } else if i == 6 {
        SearchField::MaxLength
    } else if i == 7 {
        SearchField::MinPhyloCSF
    } else if i == 8 {
        SearchField::MaxPhyloCSF
    } else {
        SearchField::Species
    }
}

pub fn search_field_at(i: usize) -> (r: SearchField)
    ensures
        r == field_at(i),
{
    match i {
        0 => SearchField::Species,
        1 => SearchField::Id,
        2 => SearchField::Chromosome,
        3 => SearchField::Strand,
        4 => SearchField::StartCodon,
        5 => SearchField::MinLength,
        6 => SearchField::MaxLength,
        7 => SearchField::MinPhyloCSF,
        8 => SearchField::MaxPhyloCSF,
        _ => SearchField::Species,
    }
}

/// The text that a strand annotation is searched by.
pub open spec fn strand_text(s: Strand) -> Seq<char> {
    if s == Strand::Minus {
        seq!['-']
    } else {
        seq!['+']
    }
}

/// The text of a record that a text field searches.
pub open spec fn field_text(p: ProteinView, f: SearchField) -> Seq<char> {
    match f {
        SearchField::Species => p.species,
        SearchField::Id => p.id,
        SearchField::Chromosome => p.chromosome,
        SearchField::Strand => strand_text(p.strand),
        _ => p.start_codon,
    }
}

/// The number a bound field holds, if it reads as one.
pub open spec fn bound_of(value: Seq<char>) -> Option<nat> {
    match unsigned_literal(value) {
        Some(v) => if v <= usize::MAX {
            Some(v)
        } else {
            None
        },
        None => None,
    }
}

/// Whether a record meets a criterion: text fields match when the value
/// occurs in the field, ignoring case; a length bound that does not read as a
/// number accepts every record. The conservation-score bounds compare
/// floating-point numbers and are decided outside the library.
pub open spec fn criterion_holds(p: ProteinView, f: SearchField, value: Seq<char>) -> Option<bool> {
    match f {
        SearchField::MinLength => Some(
            match bound_of(value) {
                Some(v) => p.length >= v,
                None => true,
            },
        ),
        SearchField::MaxLength => Some(
            match bound_of(value) {
                Some(v) => p.length <= v,
                None => true,
            },
        ),
        SearchField::MinPhyloCSF => None,
        SearchField::MaxPhyloCSF => None,
        _ => Some(occurs_in(lower_of(field_text(p, f)), lower_of(value))),
    }
}

/// The value stored for a field, if any.
pub open spec fn filter_value(v: Seq<(SearchField, String)>, f: SearchField) -> Option<Seq<char>>
    decreases v.len(),
{
    if v.len() == 0 {
        None
    } else if v.last().0 == f {
        Some(v.last().1@)
    } else {
        filter_value(v.drop_last(), f)
    }
}

/// At most one stored filter per field.
pub open spec fn filters_distinct(v: Seq<(SearchField, String)>) -> bool {
    forall|i: int, j: int| 0 <= i < j < v.len() ==> (#[trigger] v[i]).0 != (#[trigger] v[j]).0
}

pub proof fn lemma_filter_value_found(v: Seq<(SearchField, String)>, i: int)
    requires
        filters_distinct(v),
        0 <= i < v.len(),
    ensures
        filter_value(v, v[i].0) == Some(v[i].1@),
    decreases v.len(),
{
    if i < v.len() - 1 {
        assert(v.last().0 != v[i].0);
        assert forall|a: int, b: int| 0 <= a < b < v.len() - 1 implies (#[trigger] v.drop_last()[a]).0
            != (#[trigger] v.drop_last()[b]).0 by {
            assert(v.drop_last()[a] == v[a] && v.drop_last()[b] == v[b]);
        }
        lemma_filter_value_found(v.drop_last(), i);
    }
}

pub proof fn lemma_filter_value_absent(v: Seq<(SearchField, String)>, f: SearchField)
    requires
        forall|i: int| 0 <= i < v.len() ==> (#[trigger] v[i]).0 != f,
    ensures
        filter_value(v, f) is None,
    decreases v.len(),
{
    if v.len() > 0 {
        assert(v.last().0 != f);
        assert forall|i: int| 0 <= i < v.len() - 1 implies (#[trigger] v.drop_last()[i]).0 != f by {
            assert(v.drop_last()[i] == v[i]);
        }
        lemma_filter_value_absent(v.drop_last(), f);
    }
}

pub proof fn lemma_filter_value_other(v: Seq<(SearchField, String)>, f: SearchField, g: SearchField)
    requires
        filters_distinct(v),
        f != g,
    ensures
        filter_value(v, g) is Some <==> exists|i: int| 0 <= i < v.len() && (#[trigger] v[i]).0 == g,
        forall|i: int| 0 <= i < v.len() && (#[trigger] v[i]).0 == g ==> filter_value(v, g) == Some(v[i].1@),
{
    assert forall|i: int| 0 <= i < v.len() && (#[trigger] v[i]).0 == g implies filter_value(v, g) == Some(
        v[i].1@,
    ) by {
        lemma_filter_value_found(v, i);
    }
    if !exists|i: int| 0 <= i < v.len() && (#[trigger] v[i]).0 == g {
        lemma_filter_value_absent(v, g);
    }
}

/// The position of the stored filter for `f`, or the number of filters.
fn filter_position(v: &Vec<(SearchField, String)>, f: SearchField) -> (r: usize)
    ensures
        r <= v@.len(),
        r < v@.len() ==> v@[r as int].0 == f,
        r == v@.len() ==> forall|i: int| 0 <= i < v@.len() ==> (#[trigger] v@[i]).0 != f,
{
    let mut i: usize = 0;
    while i < v.len() && v[i].0 != f
        invariant
            i <= v@.len(),
            forall|k: int| 0 <= k < i ==> (#[trigger] v@[k]).0 != f,
        decreases v@.len() - i,
    {
        i = i + 1;
    }
    i
}

impl App {
    /// Opens or closes the browser; opening it starts from an empty query on
    /// the first field.
    pub fn toggle_protein_searcher(&mut self)
        ensures
            final(self).show_protein_searcher == !old(self).show_protein_searcher,
            final(self).show_protein_searcher ==> final(self).searcher_input@.len() == 0
                && final(self).selected_protein_index == 0 && final(self).selected_search_field == 0,
            !final(self).show_protein_searcher ==> final(self).searcher_input == old(self).searcher_input,
            final(self).searcher_field == old(self).searcher_field,
            final(self).search_filters == old(self).search_filters,
    {
        self.show_protein_searcher = !self.show_protein_searcher;
        if self.show_protein_searcher {
            self.searcher_input = String::new();
            self.selected_protein_index = 0;
            self.selected_search_field = 0;
        }
    }

    pub fn searcher_on_key(&mut self, c: char)
        ensures
            old(self).show_protein_searcher ==> final(self).searcher_input@ == old(self).searcher_input@.push(c),
            !old(self).show_protein_searcher ==> final(self).searcher_input == old(self).searcher_input,
            final(self).show_protein_searcher == old(self).show_protein_searcher,
    {
        if self.show_protein_searcher {
            push_char(&mut self.searcher_input, c);
        }
    }

    pub fn searcher_on_backspace(&mut self)
        ensures
            old(self).show_protein_searcher && old(self).searcher_input@.len() > 0
                ==> final(self).searcher_input@ == old(self).searcher_input@.drop_last(),
            !old(self).show_protein_searcher || old(self).searcher_input@.len() == 0
                ==> final(self).searcher_input@ == old(self).searcher_input@,
            final(self).show_protein_searcher == old(self).show_protein_searcher,
    {
        if self.show_protein_searcher {
            pop_char(&mut self.searcher_input);
        }
    }

    fn update_search_field(&mut self)
        ensures
            final(self).searcher_field == field_at(old(self).selected_search_field),
            final(self).selected_search_field == old(self).selected_search_field,
            final(self).show_protein_searcher == old(self).show_protein_searcher,
            final(self).searcher_input == old(self).searcher_input,
    {
        self.searcher_field = search_field_at(self.selected_search_field);
    }

    /// Moves to the next field, wrapping after the last, with an empty query.
    pub fn searcher_next_field(&mut self)
        ensures
            old(self).show_protein_searcher ==> final(self).selected_search_field == (
            old(self).selected_search_field + 1) % (SEARCH_FIELDS as int) && final(self).searcher_field
                == field_at(final(self).selected_search_field) && final(self).searcher_input@.len() == 0,
            !old(self).show_protein_searcher ==> final(self).selected_search_field == old(
                self,
            ).selected_search_field && final(self).searcher_input == old(self).searcher_input,
    {
        if self.show_protein_searcher {
            self.selected_search_field = (self.selected_search_field % SEARCH_FIELDS + 1) % SEARCH_FIELDS;
            self.update_search_field();
            self.searcher_input = String::new();
        }
    }

    /// Moves to the previous field, wrapping before the first, with an empty
    /// query.
    pub fn searcher_prev_field(&mut self)
        ensures
            old(self).show_protein_searcher ==> final(self).selected_search_field == (if old(
                self,
            ).selected_search_field == 0 {
                (SEARCH_FIELDS - 1) as int
            } else {
                old(self).selected_search_field - 1
            }) && final(self).searcher_field == field_at(final(self).selected_search_field)
                && final(self).searcher_input@.len() == 0,
            !old(self).show_protein_searcher ==> final(self).selected_search_field == old(
                self,
            ).selected_search_field && final(self).searcher_input == old(self).searcher_input,
    {
        if self.show_protein_searcher {
            self.selected_search_field = if self.selected_search_field == 0 {
                SEARCH_FIELDS - 1
            } else {
                self.selected_search_field - 1
            };
            self.update_search_field();
            self.searcher_input = String::new();
        }
    }

    /// Selects the next result, wrapping after the last.
    pub fn searcher_next_protein(&mut self)
        ensures
            old(self).show_protein_searcher && old(self).filtered_proteins@.len() > 0
                ==> final(self).selected_protein_index == (old(self).selected_protein_index + 1) % (old(
                self,
            ).filtered_proteins@.len() as int),
            !(old(self).show_protein_searcher && old(self).filtered_proteins@.len() > 0)
                ==> final(self).selected_protein_index == old(self).selected_protein_index,
            final(self).filtered_proteins == old(self).filtered_proteins,
    {
        if self.show_protein_searcher && self.filtered_proteins.len() > 0 {
            let n = self.filtered_proteins.len();
            let i = self.selected_protein_index;
            proof {
                let ii = i as int;
                let nn = n as int;
                vstd::arithmetic::div_mod::lemma_add_mod_noop(ii, 1, nn);
                vstd::arithmetic::div_mod::lemma_mod_twice(ii + 1, nn);
                if nn == 1 {
                    assert((ii % 1 + 1) % 1 == 0);
                    assert((ii + 1) % 1 == 0);
                } else {
                    vstd::arithmetic::div_mod::lemma_small_mod(1, nn as nat);
                }
            }
            self.selected_protein_index = (i % n + 1) % n;
        }
    }

    /// Selects the previous result, wrapping before the first.
    pub fn searcher_prev_protein(&mut self)
        ensures
            old(self).show_protein_searcher && old(self).filtered_proteins@.len() > 0
                ==> final(self).selected_protein_index == (if old(self).selected_protein_index == 0 {
                old(self).filtered_proteins@.len() - 1
            } else {
                old(self).selected_protein_index - 1
            }),
            !(old(self).show_protein_searcher && old(self).filtered_proteins@.len() > 0)
                ==> final(self).selected_protein_index == old(self).selected_protein_index,
            final(self).filtered_proteins == old(self).filtered_proteins,
    {
        if self.show_protein_searcher && self.filtered_proteins.len() > 0 {
            self.selected_protein_index = if self.selected_protein_index == 0 {
                self.filtered_proteins.len() - 1
            } else {
                self.selected_protein_index - 1
            };
        }
    }

    /// Opens the detail view of the selected result.
    pub fn select_current_protein(&mut self)
        ensures
            ({
                let ok = old(self).show_protein_searcher && old(self).selected_protein_index < old(
                    self,
                ).filtered_proteins@.len();
                &&& ok ==> final(self).show_protein_detail && final(self).detailed_protein is Some
                    && final(self).detailed_protein->0@ == old(
                    self,
                ).filtered_proteins@[old(self).selected_protein_index as int]@
                &&& !ok ==> final(self).show_protein_detail == old(self).show_protein_detail
                    && final(self).detailed_protein == old(self).detailed_protein
            }),
    {
        if self.show_protein_searcher && self.selected_protein_index < self.filtered_proteins.len() {
            self.detailed_protein = Some(self.filtered_proteins[self.selected_protein_index].snapshot());
            self.show_protein_detail = true;
        }
    }

    /// Leaves the detail view.
    pub fn return_to_search(&mut self)
        ensures
            !final(self).show_protein_detail,
            final(self).detailed_protein is None,
            final(self).show_protein_searcher == old(self).show_protein_searcher,
    {
        self.show_protein_detail = false;
        self.detailed_protein = None;
    }

    /// Takes the record in the detail view as the match shown, and closes
    /// the browser.
    pub fn select_detailed_protein(&mut self)
        ensures
            old(self).detailed_protein is Some ==> final(self).closest_protein is Some
                && final(self).closest_protein->0@ == old(self).detailed_protein->0@
                && !final(self).show_protein_searcher && !final(self).show_protein_detail
                && final(self).detailed_protein is None,
            old(self).detailed_protein is None ==> final(self).closest_protein == old(self).closest_protein
                && final(self).show_protein_searcher == old(self).show_protein_searcher,
    {
        match &self.detailed_protein {
            Some(p) => {
                let copy = p.snapshot();
                self.closest_protein = Some(copy);
                self.show_protein_searcher = false;
                self.show_protein_detail = false;
                self.detailed_protein = None;
            },
            None => {},
        }
    }

    /// Stores `value` as the filter of `field`, replacing the one there was.
    fn set_filter(&mut self, field: SearchField, value: String)
        requires
            filters_distinct(old(self).search_filters@),
        ensures
            filters_distinct(final(self).search_filters@),
            filter_value(final(self).search_filters@, field) == Some(value@),
            forall|g: SearchField| g != field ==> filter_value(final(self).search_filters@, g) == filter_value(
                old(self).search_filters@,
                g,
            ),
            final(self).searcher_input == old(self).searcher_input,
            final(self).searcher_field == old(self).searcher_field,
            final(self).multi_search_mode == old(self).multi_search_mode,
    {
        let ghost before = self.search_filters@;
        let at = filter_position(&self.search_filters, field);
        if at < self.search_filters.len() {
            self.search_filters.set(at, (field, value));
        } else {
            self.search_filters.push((field, value));
        }
        proof {
            let after = self.search_filters@;
            assert(filters_distinct(after));
            let k = if at < before.len() { at as int } else { before.len() as int };
            assert(after[k] == (field, value));
            lemma_filter_value_found(after, k);
            assert forall|g: SearchField| g != field implies filter_value(after, g) == filter_value(before, g) by {
                lemma_filter_value_other(after, field, g);
                lemma_filter_value_other(before, field, g);
                if exists|i: int| 0 <= i < after.len() && (#[trigger] after[i]).0 == g {
                    let i = choose|i: int| 0 <= i < after.len() && (#[trigger] after[i]).0 == g;
                    assert(before[i] == after[i]);
                } else {
                    assert forall|i: int| 0 <= i < before.len() implies (#[trigger] before[i]).0 != g by {
                        assert(after[i].0 == before[i].0 || i == k);
                    }
                }
            }
        }
    }

    /// Switches between one query and several combined filters. Entering the
    /// combined mode stores the current query as a filter; leaving it drops
    /// all filters.
    pub fn toggle_multi_search_mode(&mut self)
        requires
            filters_distinct(old(self).search_filters@),
        ensures
            filters_distinct(final(self).search_filters@),
            final(self).multi_search_mode == !old(self).multi_search_mode,
            final(self).multi_search_mode ==> final(self).searcher_input@.len() == 0,
            final(self).multi_search_mode && old(self).searcher_input@.len() > 0 ==> filter_value(
                final(self).search_filters@,
                old(self).searcher_field,
            ) == Some(old(self).searcher_input@),
            !final(self).multi_search_mode ==> final(self).search_filters@.len() == 0
                && final(self).searcher_input == old(self).searcher_input,
    {
        self.multi_search_mode = !self.multi_search_mode;
        if self.multi_search_mode {
            if self.searcher_input.unicode_len() > 0 {
                let v = self.searcher_input.clone();
                self.set_filter(self.searcher_field, v);
            }
            self.searcher_input = String::new();
        } else {
            self.search_filters = Vec::new();
        }
    }

    /// Stores the current query as the filter of the current field.
    pub fn add_current_filter(&mut self)
        requires
            filters_distinct(old(self).search_filters@),
        ensures
            filters_distinct(final(self).search_filters@),
            old(self).searcher_input@.len() > 0 ==> filter_value(
                final(self).search_filters@,
                old(self).searcher_field,
            ) == Some(old(self).searcher_input@) && final(self).searcher_input@.len() == 0,
            old(self).searcher_input@.len() == 0 ==> final(self).search_filters == old(self).search_filters,
    {
        if self.searcher_input.unicode_len() > 0 {
            let v = self.searcher_input.clone();
            self.set_filter(self.searcher_field, v);
            self.searcher_input = String::new();
        }
    }

    /// Drops the filter of the current field.
    pub fn clear_current_filter(&mut self)
        requires
            filters_distinct(old(self).search_filters@),
        ensures
            filters_distinct(final(self).search_filters@),
            filter_value(final(self).search_filters@, old(self).searcher_field) is None,
            forall|g: SearchField| g != old(self).searcher_field ==> filter_value(final(self).search_filters@, g)
                == filter_value(old(self).search_filters@, g),
    {
        let ghost before = self.search_filters@;
        let at = filter_position(&self.search_filters, self.searcher_field);
        if at < self.search_filters.len() {
            self.search_filters.remove(at);
        }
        proof {
            let after = self.search_filters@;
            let f = self.searcher_field;
            assert(filters_distinct(after)) by {
                assert forall|i: int, j: int| 0 <= i < j < after.len() implies (#[trigger] after[i]).0
                    != (#[trigger] after[j]).0 by {
                    let bi = if at < before.len() && i >= at { i + 1 } else { i };
                    let bj = if at < before.len() && j >= at { j + 1 } else { j };
                    assert(after[i] == before[bi] && after[j] == before[bj]);
                }
            }
            assert forall|i: int| 0 <= i < after.len() implies (#[trigger] after[i]).0 != f by {
                let bi = if at < before.len() && i >= at { i + 1 } else { i };
                assert(after[i] == before[bi]);
            }
            lemma_filter_value_absent(after, f);
            assert forall|g: SearchField| g != f implies filter_value(after, g) == filter_value(before, g) by {
                lemma_filter_value_other(after, f, g);
                lemma_filter_value_other(before, f, g);
                if exists|i: int| 0 <= i < before.len() && (#[trigger] before[i]).0 == g {
                    let i = choose|i: int| 0 <= i < before.len() && (#[trigger] before[i]).0 == g;
                    let ai = if at < before.len() && i > at { i - 1 } else { i };
                    assert(after[ai] == before[i]);
                } else {
                    assert forall|i: int| 0 <= i < after.len() implies (#[trigger] after[i]).0 != g by {
                        let bi = if at < before.len() && i >= at { i + 1 } else { i };
                        assert(after[i] == before[bi]);
                    }
                }
            }
        }
    }

    /// Drops every filter and the current query.
    pub fn clear_all_filters(&mut self)
        ensures
            final(self).search_filters@.len() == 0,
            final(self).searcher_input@.len() == 0,
    {
        self.search_filters = Vec::new();
        self.searcher_input = String::new();
    }

    /// The stored filters.
    pub fn get_active_filters(&self) -> (r: Vec<(SearchField, String)>)
        ensures
            r@.len() == self.search_filters@.len(),
            forall|i: int| 0 <= i < r@.len() ==> (#[trigger] r@[i]).0 == self.search_filters@[i].0 && r@[i].1@
                == self.search_filters@[i].1@,
    {
        let mut out: Vec<(SearchField, String)> = Vec::new();
        let mut i: usize = 0;
        while i < self.search_filters.len()
            invariant
                i <= self.search_filters@.len(),
                out@.len() == i,
                forall|k: int| 0 <= k < i ==> (#[trigger] out@[k]).0 == self.search_filters@[k].0 && out@[k].1@
                    == self.search_filters@[k].1@,
            decreases self.search_filters@.len() - i,
        {
            let (f, v) = (self.search_filters[i].0, self.search_filters[i].1.clone());
            out.push((f, v));
            i = i + 1;
        }
        out
    }

    /// The criteria a record must meet to be listed: in the combined mode
    /// every stored filter and the current query if there is one; otherwise
    /// the current query alone, or nothing when it is empty.
    pub fn search_criteria(&self) -> (r: Vec<(SearchField, String)>)
        ensures
            self.multi_search_mode ==> r@.len() == self.search_filters@.len() + (if self.searcher_input@.len()
                > 0 {
                1int
            } else {
                0int
            }),
            self.multi_search_mode ==> forall|i: int| 0 <= i < self.search_filters@.len() ==> (#[trigger] r@[i]).0
                == self.search_filters@[i].0 && r@[i].1@ == self.search_filters@[i].1@,
            self.searcher_input@.len() > 0 ==> r@.last().0 == self.searcher_field && r@.last().1@
                == self.searcher_input@,
            !self.multi_search_mode ==> r@.len() == (if self.searcher_input@.len() > 0 {
                1int
            } else {
                0int
            }),
    {
        let mut out: Vec<(SearchField, String)> = if self.multi_search_mode {
            self.get_active_filters()
        } else {
            Vec::new()
        };
        if self.searcher_input.unicode_len() > 0 {
            out.push((self.searcher_field, self.searcher_input.clone()));
        }
        out
    }

    /// Whether a record meets one criterion; `None` for the conservation-score
    /// bounds, which compare floating-point numbers.
    pub fn matches_field_criteria(&self, protein: &SmallProtein, field: SearchField, value: &str) -> (r:
        Option<bool>)
        ensures
            r == criterion_holds(protein@, field, value@),
    {
        match field {
            SearchField::MinLength => Some(
                match parse_usize(value) {
                    Some(v) => protein.length >= v,
                    None => true,
                },
            ),
            SearchField::MaxLength => Some(
                match parse_usize(value) {
                    Some(v) => protein.length <= v,
                    None => true,
                },
            ),
            SearchField::MinPhyloCSF => None,
            SearchField::MaxPhyloCSF => None,
            _ => {
                let strand_sign: [char; 1] = match protein.strand {
                    Strand::Minus => ['-'],
                    Strand::Plus => ['+'],
                };
                let strand = crate::text::string_of(&strand_sign);
                let text: &str = match field {
                    SearchField::Species => protein.species.as_str(),
                    SearchField::Id => protein.id.as_str(),
                    SearchField::Chromosome => protein.chromosome.as_str(),
                    SearchField::Strand => strand.as_str(),
                    _ => protein.start_codon.as_str(),
                };
                proof {
                    assert(strand_sign@ == strand_text(protein.strand));
                }
                let hay = chars_of(lowercase(text).as_str());
                let needle = chars_of(lowercase(value).as_str());
                Some(contains_chars(hay.as_slice(), needle.as_slice()))
            },
        }
    }

    /// Takes the records that met the criteria as the browser's results; the
    /// selection goes back to the first one when it falls past the end.
    pub fn set_filtered_proteins(&mut self, filtered: Vec<SmallProtein>)
        ensures
            final(self).filtered_proteins == filtered,
            final(self).selected_protein_index == (if old(self).selected_protein_index >= filtered@.len() {
                0
            } else {
                old(self).selected_protein_index
            }),
    {
        self.filtered_proteins = filtered;
        if self.selected_protein_index >= self.filtered_proteins.len() {
            self.selected_protein_index = 0;
        }
    }

    /// The label of the field being searched.
    pub fn get_search_field_name(&self) -> &'static str {
        match self.searcher_field {
            SearchField::Species => "Species",
            SearchField::Id => "ID",
            SearchField::Chromosome => "Chromosome",
            SearchField::Strand => "Strand",
            SearchField::StartCodon => "Start Codon",
            SearchField::MinLength => "Min Length",
            SearchField::MaxLength => "Max Length",
            SearchField::MinPhyloCSF => "Min PhyloCSF",
            SearchField::MaxPhyloCSF => "Max PhyloCSF",
        }
    }
}

} // verus!

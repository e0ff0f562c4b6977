//! The catalog record model and the tab-separated catalog format: splitting a
//! row into fields, tolerant numeric fields, rows that are kept or skipped,
//! and the progress events of an ingestion run.

use vstd::prelude::*;
use crate::text::{chars_of, string_of};
use vstd::string::StrSliceExecFns;

verus! {

/// The annotated strand of a catalog record.
#[derive(Clone, Copy, Debug, PartialEq, Eq, Structural)]
pub enum Strand {
    Plus,
    Minus,
}

/// One catalog entry, as read from a row of the catalog file.
#[derive(Clone, Debug)]
pub struct SmallProtein {
    pub species: String,
    pub id: String,
    pub rna_seq: String,
    pub aa_seq: String,
    pub length: usize,
    pub chromosome: String,
    pub start: usize,
    pub stop: usize,
    pub strand: Strand,
    pub blocks: String,
    pub start_codon: String,
    /// The conservation score as written in the row, or `0` where the row
    /// holds a placeholder.
    pub phylo_csf_mean: String,
}

/// What a `SmallProtein` holds, with its texts as character sequences.
pub struct ProteinView {
    pub species: Seq<char>,
    pub id: Seq<char>,
    pub rna_seq: Seq<char>,
    pub aa_seq: Seq<char>,
    pub length: usize,
    pub chromosome: Seq<char>,
    pub start: usize,
    pub stop: usize,
    pub strand: Strand,
    pub blocks: Seq<char>,
    pub start_codon: Seq<char>,
    pub phylo_csf_mean: Seq<char>,
}

impl View for SmallProtein {
    type V = ProteinView;

    open spec fn view(&self) -> ProteinView {
        ProteinView {
            species: self.species@,
            id: self.id@,
            rna_seq: self.rna_seq@,
            aa_seq: self.aa_seq@,
            length: self.length,
            chromosome: self.chromosome@,
            start: self.start,
            stop: self.stop,
            strand: self.strand,
            blocks: self.blocks@,
            start_codon: self.start_codon@,
            phylo_csf_mean: self.phylo_csf_mean@,
        }
    }
}

impl SmallProtein {
    /// An independent copy of this record.
    pub fn snapshot(&self) -> (r: SmallProtein)
        ensures
            r@ == self@,
    {
        SmallProtein {
            species: self.species.clone(),
            id: self.id.clone(),
            rna_seq: self.rna_seq.clone(),
            aa_seq: self.aa_seq.clone(),
            length: self.length,
            chromosome: self.chromosome.clone(),
            start: self.start,
            stop: self.stop,
            strand: self.strand,
            blocks: self.blocks.clone(),
            start_codon: self.start_codon.clone(),
            phylo_csf_mean: self.phylo_csf_mean.clone(),
        }
    }
}

/// A stage of an ingestion run, as reported to the foreground.
#[derive(Clone, Debug)]
pub enum DatasetProgress {
    CheckingCache,
    Downloading { bytes_downloaded: u64, total_bytes: Option<u64> },
    Extracting,
    Parsing { lines_parsed: usize },
    Complete,
    Error(String),
}

impl DatasetProgress {
    /// Whether this event ends an ingestion run.
    pub open spec fn spec_is_terminal(&self) -> bool {
        self is Complete || self is Error
    }

    #[verifier::when_used_as_spec(spec_is_terminal)]
    pub fn is_terminal(&self) -> (r: bool)
        ensures
            r == self.spec_is_terminal(),
    {
        match self {
            DatasetProgress::Complete => true,
            DatasetProgress::Error(_) => true,
            _ => false,
        }
    }
}

/// The pieces of `s` between occurrences of `sep`: `n` separators give
/// `n + 1` pieces, some of them possibly empty.
pub open spec fn split_on(s: Seq<char>, sep: char) -> Seq<Seq<char>>
    decreases s.len(),
{
    if s.len() == 0 {
        seq![Seq::<char>::empty()]
    } else {
        let rest = split_on(s.drop_last(), sep);
        if s.last() == sep {
            rest.push(Seq::<char>::empty())
        } else {
            rest.update(rest.len() - 1, rest.last().push(s.last()))
        }
    }
}

/// The fields of a row: the text between consecutive tab characters.
pub open spec fn split_tabs(s: Seq<char>) -> Seq<Seq<char>> {
    split_on(s, '\t')
}

pub proof fn lemma_split_on_nonempty(s: Seq<char>, sep: char)
    ensures
        split_on(s, sep).len() >= 1,
    decreases s.len(),
{
    if s.len() > 0 {
        lemma_split_on_nonempty(s.drop_last(), sep);
    }
}

pub open spec fn texts_of(v: Seq<String>) -> Seq<Seq<char>> {
    v.map_values(|f: String| f@)
}

/// The pieces of `text` between occurrences of `sep`.
pub fn split_text(text: &str, sep: char) -> (r: Vec<String>)
    ensures
        texts_of(r@) == split_on(text@, sep),
{
    let cs = chars_of(text);
    let mut fields: Vec<String> = Vec::new();
    let mut current: Vec<char> = Vec::new();
    let mut i: usize = 0;
    while i < cs.len()
        invariant
            cs@ == text@,
            i <= cs.len(),
            texts_of(fields@).push(current@) == split_on(cs@.take(i as int), sep),
        decreases cs.len() - i,
    {
        let c = cs[i];
        proof {
            let t = cs@.take(i + 1);
            assert(t.drop_last() == cs@.take(i as int));
            assert(t.last() == c);
            lemma_split_on_nonempty(cs@.take(i as int), sep);
        }
        if c == sep {
            let ghost before = fields@;
            let f = string_of(current.as_slice());
            fields.push(f);
            current = Vec::new();
            proof {
                assert(texts_of(fields@) =~= texts_of(before).push(f@));
            }
        } else {
            current.push(c);
        }
        i = i + 1;
    }
    let f = string_of(current.as_slice());
    fields.push(f);
    proof {
        assert(cs@.take(i as int) == cs@);
        assert(texts_of(fields@) =~= texts_of(fields@.drop_last()).push(f@));
    }
    fields
}

/// The tab-separated fields of a row.
pub fn split_fields(line: &str) -> (r: Vec<String>)
    ensures
        texts_of(r@) == split_tabs(line@),
{
    split_text(line, '\t')
}

/// The characters with the Unicode `White_Space` property.
pub open spec fn is_white_space(c: char) -> bool {
    let u = c as u32;
    (9 <= u <= 13) || u == 32 || u == 0x85 || u == 0xa0 || u == 0x1680 || (0x2000 <= u <= 0x200a)
        || u == 0x2028 || u == 0x2029 || u == 0x202f || u == 0x205f || u == 0x3000
}

pub open spec fn trim_leading(s: Seq<char>) -> Seq<char>
    decreases s.len(),
{
    if s.len() > 0 && is_white_space(s[0]) {
        trim_leading(s.drop_first())
    } else {
        s
    }
}

pub open spec fn trim_trailing(s: Seq<char>) -> Seq<char>
    decreases s.len(),
{
    if s.len() > 0 && is_white_space(s.last()) {
        trim_trailing(s.drop_last())
    } else {
        s
    }
}

/// `s` without its leading and trailing white space.
pub open spec fn trim_ws(s: Seq<char>) -> Seq<char> {
    trim_trailing(trim_leading(s))
}

pub fn white_space(c: char) -> (r: bool)
    ensures
        r == is_white_space(c),
{
    let u = c as u32;
    (9 <= u && u <= 13) || u == 32 || u == 0x85 || u == 0xa0 || u == 0x1680 || (0x2000 <= u && u
        <= 0x200a) || u == 0x2028 || u == 0x2029 || u == 0x202f || u == 0x205f || u == 0x3000
}

/// The characters of `s` without leading and trailing white space.
pub fn trim_chars(s: &[char]) -> (r: Vec<char>)
    ensures
        r@ == trim_ws(s@),
{
    let n = s.len();
    let mut lo: usize = 0;
    assert(s@.skip(0) == s@);
    while lo < n && white_space(s[lo])
        invariant
            lo <= n == s@.len(),
            trim_leading(s@) == trim_leading(s@.skip(lo as int)),
        decreases n - lo,
    {
        proof {
            assert(s@.skip(lo as int).drop_first() == s@.skip(lo + 1));
        }
        lo = lo + 1;
    }
    let ghost mid = s@.skip(lo as int);
    assert(trim_leading(mid) == mid);
    let mut hi: usize = n;
    while hi > lo && white_space(s[hi - 1])
        invariant
            lo <= hi <= n == s@.len(),
            mid == s@.skip(lo as int),
            trim_trailing(mid) == trim_trailing(s@.subrange(lo as int, hi as int)),
        decreases hi,
    {
        proof {
            assert(s@.subrange(lo as int, hi as int).drop_last() == s@.subrange(lo as int, hi - 1));
        }
        hi = hi - 1;
    }
    assert(mid == s@.subrange(lo as int, n as int));
    let mut out: Vec<char> = Vec::new();
    let mut k: usize = lo;
    while k < hi
        invariant
            lo <= k <= hi <= n == s@.len(),
            out@ == s@.subrange(lo as int, k as int),
        decreases hi - k,
    {
        out.push(s[k]);
        proof {
            assert(s@.subrange(lo as int, k + 1) == s@.subrange(lo as int, k as int).push(s@[k as int]));
        }
        k = k + 1;
    }
    out
}

pub open spec fn is_decimal_digit(c: char) -> bool {
    '0' as u32 <= c as u32 <= '9' as u32
}

/// The number that a string of decimal digits denotes.
pub open spec fn digits_value(s: Seq<char>) -> nat
    decreases s.len(),
{
    if s.len() == 0 {
        0
    } else {
        digits_value(s.drop_last()) * 10 + (s.last() as u32 - '0' as u32) as nat
    }
}

/// Every character is a decimal digit.
pub open spec fn all_digits(d: Seq<char>) -> bool {
    forall|i: int| 0 <= i < d.len() ==> is_decimal_digit(#[trigger] d[i])
}

/// The value of an unsigned integer literal in the form that Rust's integer
/// parsing accepts: an optional `+` followed by one or more decimal digits.
pub open spec fn unsigned_literal(s: Seq<char>) -> Option<nat> {
    let d = if s.len() > 0 && s[0] == '+' {
        s.drop_first()
    } else {
        s
    };
    if d.len() > 0 && all_digits(d) {
        Some(digits_value(d))
    } else {
        None
    }
}

/// Relies on `usize`'s `FromStr`: an optional `+` and then decimal digits only,
/// refused when empty, when any other character occurs, or when the value
/// does not fit.
#[verifier::external_body]
pub(crate) fn parse_usize(s: &str) -> (r: Option<usize>)
    ensures
        r == (match unsigned_literal(s@) {
            Some(v) => if v <= usize::MAX {
                Some(v as usize)
            } else {
                None::<usize>
            },
            None => None::<usize>,
        }),
{
    s.parse::<usize>().ok()
}

/// The value of a numeric field: its trimmed text read as an unsigned
/// integer, or zero where that text is empty, a placeholder or malformed.
pub open spec fn numeric_field(t: Seq<char>) -> usize {
    match unsigned_literal(trim_ws(t)) {
        Some(v) => if v <= usize::MAX {
            v as usize
        } else {
            0
        },
        None => 0,
    }
}

/// Reads a numeric field of a catalog row; anything that is not an unsigned
/// integer reads as zero.
pub fn parse_usize_field(field: &str) -> (r: usize)
    ensures
        r == numeric_field(field@),
{
    let cs = chars_of(field);
    let trimmed = string_of(trim_chars(cs.as_slice()).as_slice());
    match parse_usize(trimmed.as_str()) {
        Some(v) => v,
        None => 0,
    }
}

/// Whether `c` is the uppercase letter `w` or its ASCII lowercase form.
pub open spec fn same_letter(c: char, w: char) -> bool {
    c == w || (97 <= c as u32 <= 122 && c as u32 == w as u32 + 32)
}

/// Whether `t` spells the uppercase word `w`, ignoring ASCII case.
pub open spec fn spells(t: Seq<char>, w: Seq<char>) -> bool {
    t.len() == w.len() && forall|i: int| 0 <= i < t.len() ==> same_letter(#[trigger] t[i], w[i])
}

/// The empty token, and the tokens that stand for a missing value, in any case.
pub open spec fn is_placeholder(t: Seq<char>) -> bool {
    t.len() == 0 || spells(t, seq!['N', 'A']) || spells(t, seq!['N', 'U', 'L', 'L']) || spells(t, seq!['N', '/', 'A'])
        || spells(t, seq!['-']) || spells(t, seq!['.']) || spells(t, seq!['N', 'A', 'N'])
}

fn spells_word(t: &[char], w: &[char]) -> (r: bool)
    ensures
        r == spells(t@, w@),
{
    if t.len() != w.len() {
        return false;
    }
    let mut i: usize = 0;
    while i < t.len()
        invariant
            t@.len() == w@.len(),
            i <= t.len(),
            forall|k: int| 0 <= k < i ==> same_letter(#[trigger] t@[k], w@[k]),
        decreases t.len() - i,
    {
        let c = t[i];
        let cu = c as u32;
        let wu = w[i] as u32;
        let same = c == w[i] || (97 <= cu && cu <= 122 && cu - 32 == wu);
        if !same {
            assert(!same_letter(t@[i as int], w@[i as int]));
            return false;
        }
        i = i + 1;
    }
    true
}

/// Whether `t` is one of the placeholder tokens.
pub fn placeholder(t: &[char]) -> (r: bool)
    ensures
        r == is_placeholder(t@),
{
    let na = ['N', 'A'];
    let null = ['N', 'U', 'L', 'L'];
    let n_a = ['N', '/', 'A'];
    let dash = ['-'];
    let dot = ['.'];
    let nan = ['N', 'A', 'N'];
    assert(na@ == seq!['N', 'A']);
    assert(null@ == seq!['N', 'U', 'L', 'L']);
    assert(n_a@ == seq!['N', '/', 'A']);
    assert(dash@ == seq!['-']);
    assert(dot@ == seq!['.']);
    assert(nan@ == seq!['N', 'A', 'N']);
    t.len() == 0 || spells_word(t, &na) || spells_word(t, &null) || spells_word(t, &n_a) || spells_word(t, &dash)
        || spells_word(t, &dot) || spells_word(t, &nan)
}

/// The text kept for the conservation score: the trimmed field, or `0` for an
/// empty field or a placeholder.
pub open spec fn score_text(t: Seq<char>) -> Seq<char> {
    if is_placeholder(trim_ws(t)) {
        seq!['0']
    } else {
        trim_ws(t)
    }
}

pub fn parse_score_field(field: &str) -> (r: String)
    ensures
        r@ == score_text(field@),
{
    let cs = chars_of(field);
    let trimmed = trim_chars(cs.as_slice());
    if placeholder(trimmed.as_slice()) {
        let zero = ['0'];
        string_of(&zero)
    } else {
        string_of(trimmed.as_slice())
    }
}

/// `-` marks the minus strand; any other annotation reads as plus.
pub open spec fn strand_of(t: Seq<char>) -> Strand {
    if t == seq!['-'] {
        Strand::Minus
    } else {
        Strand::Plus
    }
}

pub fn parse_strand(field: &str) -> (r: Strand)
    ensures
        r == strand_of(field@),
{
    let cs = chars_of(field);
    if cs.len() == 1 && cs[0] == '-' {
        assert(cs@ == seq!['-']);
        Strand::Minus
    } else {
        Strand::Plus
    }
}

/// The number of fields a row needs to hold a record.
pub const RECORD_FIELDS: usize = 12;

/// The record that the first twelve fields of a row describe, in the column
/// order species, id, RNA, amino acids, length, chromosome, start, stop,
/// strand, blocks, start codon, conservation score.
pub open spec fn record_of(f: Seq<Seq<char>>) -> ProteinView {
    ProteinView {
        species: f[0],
        id: f[1],
        rna_seq: f[2],
        aa_seq: f[3],
        length: numeric_field(f[4]),
        chromosome: f[5],
        start: numeric_field(f[6]),
        stop: numeric_field(f[7]),
        strand: strand_of(f[8]),
        blocks: f[9],
        start_codon: f[10],
        phylo_csf_mean: score_text(f[11]),
    }
}

/// The record a row holds: none when it has fewer than twelve fields.
pub open spec fn row_record(line: Seq<char>) -> Option<ProteinView> {
    let f = split_tabs(line);
    if f.len() < RECORD_FIELDS {
        None
    } else {
        Some(record_of(f))
    }
}

/// Reads one data row of the catalog; a row with fewer than twelve
/// tab-separated fields yields no record.
pub fn parse_record_line(line: &str) -> (r: Option<SmallProtein>)
    ensures
        r is None <==> row_record(line@) is None,
        r is Some ==> row_record(line@) == Some(r->0@),
{
    let fields = split_fields(line);
    proof {
        assert(texts_of(fields@).len() == fields@.len());
    }
    if fields.len() < RECORD_FIELDS {
        return None;
    }
    proof {
        assert forall|k: int| 0 <= k < fields@.len() implies texts_of(fields@)[k] == fields@[k]@ by {}
    }
    let rec = SmallProtein {
        species: fields[0].clone(),
        id: fields[1].clone(),
        rna_seq: fields[2].clone(),
        aa_seq: fields[3].clone(),
        length: parse_usize_field(fields[4].as_str()),
        chromosome: fields[5].clone(),
        start: parse_usize_field(fields[6].as_str()),
        stop: parse_usize_field(fields[7].as_str()),
        strand: parse_strand(fields[8].as_str()),
        blocks: fields[9].clone(),
        start_codon: fields[10].clone(),
        phylo_csf_mean: parse_score_field(fields[11].as_str()),
    };
    Some(rec)
}



/// A line without the carriage return that may end it.
pub open spec fn strip_cr(l: Seq<char>) -> Seq<char> {
    if l.len() > 0 && l.last() == '\r' {
        l.drop_last()
    } else {
        l
    }
}

/// The lines of a text: the pieces between newlines, each without a final
/// carriage return, and without the empty piece that a final newline leaves.
pub open spec fn text_lines(s: Seq<char>) -> Seq<Seq<char>> {
    let parts = split_on(s, '\n');
    let parts = if parts.last().len() == 0 {
        parts.drop_last()
    } else {
        parts
    };
    parts.map_values(|l: Seq<char>| strip_cr(l))
}

/// The records that a sequence of data rows holds, in order; rows that hold
/// none are skipped.
pub open spec fn records_of_rows(rows: Seq<Seq<char>>) -> Seq<ProteinView>
    decreases rows.len(),
{
    if rows.len() == 0 {
        Seq::empty()
    } else {
        let rest = records_of_rows(rows.drop_last());
        match row_record(rows.last()) {
            Some(r) => rest.push(r),
            None => rest,
        }
    }
}

/// The records of a catalog text: its lines after the header line.
pub open spec fn catalog_records(text: Seq<char>) -> Seq<ProteinView> {
    let lines = text_lines(text);
    if lines.len() == 0 {
        Seq::empty()
    } else {
        records_of_rows(lines.drop_first())
    }
}

pub open spec fn views_of(v: Seq<SmallProtein>) -> Seq<ProteinView> {
    v.map_values(|p: SmallProtein| p@)
}

/// How often the parser reports progress, in records.
pub const PROGRESS_EVERY: usize = 1000;

/// Reads a catalog one line at a time: the first line is the header, every
/// later line a data row.
pub struct CatalogParser {
    pub header_seen: bool,
    pub records: Vec<SmallProtein>,
}

impl CatalogParser {
    pub fn new() -> (r: CatalogParser)
        ensures
            !r.header_seen,
            r.records@.len() == 0,
    {
        CatalogParser { header_seen: false, records: Vec::new() }
    }

    /// Takes the next line of the catalog. Returns a `Parsing` event when the
    /// line added a record and the count of records reached a multiple of a
    /// thousand.
    pub fn feed_line(&mut self, line: &str) -> (r: Option<DatasetProgress>)
        requires
            old(self).records@.len() < usize::MAX,
        ensures
            final(self).header_seen,
            !old(self).header_seen ==> views_of(final(self).records@) == views_of(old(self).records@),
            old(self).header_seen ==> views_of(final(self).records@) == match row_record(line@) {
                Some(rec) => views_of(old(self).records@).push(rec),
                None => views_of(old(self).records@),
            },
            r == (if old(self).header_seen && row_record(line@) is Some
                && final(self).records@.len() % (PROGRESS_EVERY as nat) == 0 {
                Some(DatasetProgress::Parsing { lines_parsed: final(self).records@.len() as usize })
            } else {
                None::<DatasetProgress>
            }),
    {
        if !self.header_seen {
            self.header_seen = true;
            return None;
        }
        match parse_record_line(line) {
            Some(rec) => {
                let ghost before = self.records@;
                self.records.push(rec);
                proof {
                    assert(views_of(self.records@) =~= views_of(before).push(rec@));
                }
                let n = self.records.len();
                if n % PROGRESS_EVERY == 0 {
                    Some(DatasetProgress::Parsing { lines_parsed: n })
                } else {
                    None
                }
            },
            None => None,
        }
    }
}

/// Parses a whole catalog text: the header line, then one record for every
/// row with at least twelve tab-separated fields, in order.
pub fn parse_catalog(text: &str) -> (r: Vec<SmallProtein>)
    ensures
        views_of(r@) == catalog_records(text@),
{
    let parts = split_text(text, '\n');
    let mut count = parts.len();
    proof {
        assert(texts_of(parts@).len() == parts@.len());
        lemma_split_on_nonempty(text@, '\n');
    }
    if parts[count - 1].unicode_len() == 0 {
        count = count - 1;
    }
    let ghost lines = text_lines(text@);
    proof {
        assert(lines.len() == count);
        assert forall|k: int| 0 <= k < count implies lines[k] == strip_cr(#[trigger] parts@[k]@) by {
            assert(texts_of(parts@)[k] == parts@[k]@);
        }
    }
    let mut records: Vec<SmallProtein> = Vec::new();
    if count == 0 {
        return records;
    }
    let mut i: usize = 1;
    while i < count
        invariant
            1 <= i <= count <= parts@.len(),
            lines.len() == count,
            forall|k: int| 0 <= k < count ==> lines[k] == strip_cr(#[trigger] parts@[k]@),
            views_of(records@) == records_of_rows(lines.subrange(1, i as int)),
        decreases count - i,
    {
        let line = strip_line_end(parts[i].as_str());
        proof {
            let rows = lines.subrange(1, i + 1);
            assert(rows.drop_last() == lines.subrange(1, i as int));
            assert(rows.last() == lines[i as int]);
        }
        match parse_record_line(line.as_str()) {
            Some(rec) => {
                let ghost before = records@;
                records.push(rec);
                proof {
                    assert(views_of(records@) =~= views_of(before).push(rec@));
                }
            },
            None => {},
        }
        i = i + 1;
    }
    proof {
        assert(lines.subrange(1, count as int) == lines.drop_first());
    }
    records
}

/// `line` without a final carriage return.
pub fn strip_line_end(line: &str) -> (r: String)
    ensures
        r@ == strip_cr(line@),
{
    let cs = chars_of(line);
    let n = cs.len();
    if n > 0 && cs[n - 1] == '\r' {
        let mut out: Vec<char> = Vec::new();
        let mut k: usize = 0;
        while k < n - 1
            invariant
                n == cs@.len() > 0,
                k <= n - 1,
                out@ == cs@.take(k as int),
            decreases n - 1 - k,
        {
            out.push(cs[k]);
            proof {
                assert(cs@.take(k + 1) == cs@.take(k as int).push(cs@[k as int]));
            }
            k = k + 1;
        }
        assert(out@ == line@.drop_last());
        string_of(out.as_slice())
    } else {
        string_of(cs.as_slice())
    }
}


/// A numeric field holding a placeholder reads as zero.
pub proof fn law_placeholder_reads_zero(t: Seq<char>)
    requires
        is_placeholder(trim_ws(t)),
    ensures
        numeric_field(t) == 0,
{
    let w = trim_ws(t);
    if w.len() > 0 {
        assert(same_letter(w[0], 'N') || same_letter(w[0], '-') || same_letter(w[0], '.'));
        assert(w[0] != '+');
        assert(!is_decimal_digit(w[0]));
        assert(!all_digits(w));
    }
}

/// A row with fewer than twelve fields holds no record; a row with twelve or
/// more always holds one, whatever its numeric fields contain.
pub proof fn law_rows_kept_by_field_count(line: Seq<char>)
    ensures
        split_tabs(line).len() < RECORD_FIELDS ==> row_record(line) is None,
        split_tabs(line).len() >= RECORD_FIELDS ==> row_record(line) == Some(record_of(split_tabs(line))),
{
}

} // verus!

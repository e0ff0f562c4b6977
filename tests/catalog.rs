use std::io::Write;
use ribozap::dataset::{
    parse_catalog, parse_record_line, parse_usize_field, split_fields, CatalogParser,
    DatasetProgress, SmallProtein, Strand,
};
use ribozap::engine::{compute_best_match, DEFAULT_RANKED};
use ribozap::loading::{
    download_progress, extract_archive, first_stage, next_stage, stage_event, Catalog,
    CatalogState, IngestError, IngestStage,
};
use ribozap::matching::{FULL_SCORE, SCORE_UNIT};
use ribozap::app::App;

fn row(fields: &[&str]) -> String {
    fields.join("\t")
}

fn record(id: &str, rna: &str, strand: &str) -> SmallProtein {
    let line = row(&[
        "Homo sapiens", id, rna, "M", "3", "chr1", "100", "200", strand, "1", "ATG", "0.5",
    ]);
    parse_record_line(&line).unwrap()
}

#[test]
fn row_fields_split_on_tabs() {
    assert_eq!(split_fields("a\tb\t\tc"), vec!["a", "b", "", "c"]);
    assert_eq!(split_fields(""), vec![""]);
    assert_eq!(split_fields("\t"), vec!["", ""]);
}

#[test]
fn numeric_fields_are_tolerant() {
    assert_eq!(parse_usize_field(" 42 "), 42);
    assert_eq!(parse_usize_field("+7"), 7);
    assert_eq!(parse_usize_field("NA"), 0);
    assert_eq!(parse_usize_field("null"), 0);
    assert_eq!(parse_usize_field(""), 0);
    assert_eq!(parse_usize_field("12x"), 0);
    assert_eq!(parse_usize_field("-3"), 0);
    assert_eq!(parse_usize_field("99999999999999999999999"), 0);
}

#[test]
fn placeholder_numeric_field_keeps_the_row() {
    let line = row(&[
        "Homo sapiens", "SPROHSA1", "AUGGCC", "MA", "NA", "chr1", "n/a", "-", "-", "1", "ATG", "NA",
    ]);
    let rec = parse_record_line(&line).unwrap();
    assert_eq!(rec.length, 0);
    assert_eq!(rec.start, 0);
    assert_eq!(rec.stop, 0);
    assert_eq!(rec.strand, Strand::Minus);
    assert_eq!(rec.phylo_csf_mean, "0");
    assert_eq!(rec.rna_seq, "AUGGCC");
    assert_eq!(rec.id, "SPROHSA1");
    let blank = row(&["s", "id", "AUG", "M", "", "chr", " ", "4", "+", "1", "ATG", "  "]);
    let rec = parse_record_line(&blank).unwrap();
    assert_eq!(rec.length, 0);
    assert_eq!(rec.start, 0);
    assert_eq!(rec.phylo_csf_mean, "0");
}

#[test]
fn short_row_is_dropped() {
    let eleven = row(&["a", "b", "c", "d", "1", "chr", "1", "2", "+", "1", "ATG"]);
    assert!(parse_record_line(&eleven).is_none());
    let text = format!("header\n{}\n{}\n", eleven, row(&["s", "id", "AUG", "M", "3", "chr", "1", "4", "+", "1", "ATG", " 1.25 "]));
    let recs = parse_catalog(&text);
    assert_eq!(recs.len(), 1);
    assert_eq!(recs[0].id, "id");
    assert_eq!(recs[0].length, 3);
    assert_eq!(recs[0].stop, 4);
    assert_eq!(recs[0].strand, Strand::Plus);
    assert_eq!(recs[0].phylo_csf_mean, "1.25");
}

#[test]
fn catalog_skips_header_and_carriage_returns() {
    let r1 = row(&["s", "A1", "AUGC", "M", "4", "chr2", "5", "9", "-", "1", "AUG", "."]);
    let r2 = row(&["s", "A2", "GGCC", "G", "4", "chr2", "7", "11", "+", "1", "AUG", "2"]);
    let text = format!("{}\r\n{}\r\n{}", r2, r1, r2);
    let recs = parse_catalog(&text);
    assert_eq!(recs.len(), 2);
    assert_eq!(recs[0].id, "A1");
    assert_eq!(recs[0].phylo_csf_mean, "0");
    assert_eq!(recs[1].id, "A2");
    assert_eq!(recs[1].phylo_csf_mean, "2");
    assert!(parse_catalog("").is_empty());
    assert!(parse_catalog("only a header\n").is_empty());
}

#[test]
fn streaming_parser_reports_every_thousand_records() {
    let mut parser = CatalogParser::new();
    assert!(parser.feed_line("header").is_none());
    let line = row(&["s", "id", "AUG", "M", "3", "chr", "1", "4", "+", "1", "ATG", "0"]);
    let mut events = Vec::new();
    for _ in 0..2500 {
        if let Some(ev) = parser.feed_line(&line) {
            events.push(ev);
        }
    }
    assert!(parser.feed_line("too\tshort").is_none());
    assert_eq!(parser.records.len(), 2500);
    assert_eq!(events.len(), 2);
    assert!(matches!(events[0], DatasetProgress::Parsing { lines_parsed: 1000 }));
    assert!(matches!(events[1], DatasetProgress::Parsing { lines_parsed: 2000 }));
}

#[test]
fn parsing_the_same_cached_text_twice_gives_the_same_records() {
    assert_eq!(first_stage(true, false), IngestStage::Parse);
    assert_eq!(first_stage(true, true), IngestStage::Parse);
    let r1 = row(&["s", "A1", "AUGC", "M", "4", "chr2", "5", "9", "-", "1", "AUG", "."]);
    let text = format!("h\n{}\n{}\n", r1, r1);
    let a = parse_catalog(&text);
    let b = parse_catalog(&text);
    assert_eq!(a.len(), b.len());
    for (x, y) in a.iter().zip(b.iter()) {
        assert_eq!(x.id, y.id);
        assert_eq!(x.rna_seq, y.rna_seq);
        assert_eq!(x.start, y.start);
    }
}

#[test]
fn ingestion_stages() {
    assert_eq!(first_stage(false, true), IngestStage::Extract);
    assert_eq!(first_stage(false, false), IngestStage::Download);
    assert_eq!(next_stage(IngestStage::Download), Some(IngestStage::Extract));
    assert_eq!(next_stage(IngestStage::Extract), Some(IngestStage::Parse));
    assert_eq!(next_stage(IngestStage::Parse), None);
    assert!(matches!(
        stage_event(IngestStage::Download),
        Some(DatasetProgress::Downloading { bytes_downloaded: 0, total_bytes: None })
    ));
    assert!(matches!(stage_event(IngestStage::Extract), Some(DatasetProgress::Extracting)));
    assert!(stage_event(IngestStage::Parse).is_none());
    let (done, ev) = download_progress(8192, 100, Some(9000));
    assert_eq!(done, 8292);
    assert!(matches!(
        ev,
        DatasetProgress::Downloading { bytes_downloaded: 8292, total_bytes: Some(9000) }
    ));
}

#[test]
fn archive_extraction() {
    let mut enc = flate2::write::GzEncoder::new(Vec::new(), flate2::Compression::default());
    enc.write_all(b"header\nrow").unwrap();
    let data = enc.finish().unwrap();
    assert_eq!(extract_archive(&data).unwrap(), "header\nrow");
    match extract_archive(b"not a gzip stream") {
        Err(IngestError::Decompression(_)) => {}
        _ => panic!("corrupt data must fail to decompress"),
    }
    let err = IngestError::Network(String::from("offline"));
    assert_eq!(err.message(), "offline");
    assert!(matches!(err.to_progress(), DatasetProgress::Error(ref m) if m == "offline"));
}

#[test]
fn single_flight_ingestion() {
    let mut catalog = Catalog::new();
    assert!(matches!(catalog.state, CatalogState::NotLoaded));
    assert!(catalog.start_ingestion());
    assert!(!catalog.start_ingestion());
    assert!(catalog.in_flight);
    assert!(matches!(catalog.state, CatalogState::Loading(DatasetProgress::CheckingCache)));
    catalog.apply_progress(DatasetProgress::Extracting);
    catalog.apply_progress(DatasetProgress::Parsing { lines_parsed: 1000 });
    assert!(matches!(catalog.state, CatalogState::Loading(DatasetProgress::Parsing { lines_parsed: 1000 })));
    assert!(!catalog.can_retry());
    catalog.apply_result(Err(String::from("network down")));
    assert!(!catalog.in_flight);
    assert!(catalog.can_retry());
    assert!(catalog.records().is_empty());
    assert!(catalog.start_ingestion());
    catalog.apply_result(Ok(vec![record("X", "AUG", "+")]));
    assert!(!catalog.is_loading());
    assert_eq!(catalog.records().len(), 1);
    catalog.apply_result(Ok(Vec::new()));
    assert_eq!(catalog.records().len(), 1);
}

#[test]
fn minus_record_is_compared_with_the_companion_strand() {
    let recs = vec![record("M1", "AUGC", "-")];
    let r = compute_best_match("AUGC", "UACG", true, &recs, DEFAULT_RANKED);
    assert_eq!(r.best_index, Some(0));
    assert_eq!(r.best_record.as_ref().unwrap().id, "M1");
    assert_eq!(r.best_similarity, 0);
    assert_eq!(r.position_mask, vec![false, false, false, false]);
    assert_eq!(r.current_strand_confidence, FULL_SCORE);
    assert_eq!(r.opposite_strand_confidence, 0);
    assert_eq!(r.ranked_candidates.len(), 1);
    assert_eq!(r.ranked_candidates[0].1, 0);
}

#[test]
fn empty_query_or_catalog_gives_the_empty_result() {
    let recs = vec![record("A", "AUGC", "+"), record("B", "GGGG", "-")];
    for active in [true, false] {
        let r = compute_best_match("", "", active, &recs, DEFAULT_RANKED);
        assert!(r.best_record.is_none());
        assert!(r.best_index.is_none());
        assert!(r.position_mask.is_empty());
        assert_eq!(r.current_strand_confidence, 0);
        assert_eq!(r.opposite_strand_confidence, 0);
        assert!(r.ranked_candidates.is_empty());
    }
    let r = compute_best_match("ACGT", "TGCA", true, &[], DEFAULT_RANKED);
    assert!(r.best_record.is_none());
    assert_eq!(r.current_strand_confidence, 0);
}

#[test]
fn best_match_prefers_the_first_of_equal_scores_and_ranks_the_rest() {
    let recs = vec![
        record("R1", "ACTT", "+"),
        record("R2", "ACGA", "+"),
        record("R3", "acga", "+"),
        record("M1", "TGCA", "-"),
    ];
    let r = compute_best_match("ACGT", "TGCA", true, &recs, 3);
    assert_eq!(r.best_index, Some(3));
    assert_eq!(r.best_record.as_ref().unwrap().id, "M1");
    assert_eq!(r.best_similarity, FULL_SCORE);
    assert_eq!(r.position_mask, vec![true, true, true, true]);
    let ids: Vec<&str> = r.ranked_candidates.iter().map(|(p, _)| p.id.as_str()).collect();
    assert_eq!(ids, vec!["M1", "R1", "R2"]);
    assert_eq!(r.ranked_candidates[0].1, FULL_SCORE);
    assert_eq!(r.ranked_candidates[1].1, 75 * SCORE_UNIT);
    assert_eq!(r.current_strand_confidence, (75 + 75 + 75 + 0) * SCORE_UNIT / 4);
    assert_eq!(r.opposite_strand_confidence, (0 + 25 + 25 + 100) * SCORE_UNIT / 4);

    let r = compute_best_match("ACGT", "TGCA", false, &recs[..3], DEFAULT_RANKED);
    assert_eq!(r.best_index, Some(0));
    assert_eq!(r.position_mask, vec![true, true, false, true]);
    assert_eq!(r.current_strand_confidence, 50 * SCORE_UNIT / 3);
    assert_eq!(r.opposite_strand_confidence, 75 * SCORE_UNIT);
    assert_eq!(r.ranked_candidates.len(), 3);
}

#[test]
fn pending_recompute_runs_the_matching_pass_once() {
    let mut app = App::new();
    assert!(app.catalog.start_ingestion());
    app.catalog.apply_result(Ok(vec![record("A1", "ACGT", "+"), record("B1", "TTTT", "+")]));
    app.on_key('A');
    app.on_key('C');
    assert!(app.protein_match_needed);
    assert!(app.closest_protein.is_none());
    app.perform_protein_matching_if_needed();
    assert!(!app.protein_match_needed);
    assert_eq!(app.closest_protein.as_ref().unwrap().id, "A1");
    assert_eq!(app.matching_positions, vec![true, true]);
    assert_eq!(app.current_strand_confidence, 50 * SCORE_UNIT);
    assert_eq!(app.ranked_candidates.len(), 2);
    app.closest_protein = None;
    app.perform_protein_matching_if_needed();
    assert!(app.closest_protein.is_none());
}

#[test]
fn loaded_but_empty_catalog_gives_the_empty_match() {
    let mut app = App::new();
    assert!(app.catalog.start_ingestion());
    app.catalog.apply_result(Ok(Vec::new()));
    app.on_key('A');
    app.find_closest_protein();
    assert!(app.closest_protein.is_none());
    assert!(app.matching_positions.is_empty());
    assert!(app.ranked_candidates.is_empty());
    assert_eq!(app.current_strand_confidence, 0);
}

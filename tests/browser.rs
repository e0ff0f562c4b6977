use ribozap::app::App;
use ribozap::dataset::{parse_record_line, SmallProtein};
use ribozap::search::SearchField;

fn record(id: &str, length: &str, strand: &str) -> SmallProtein {
    let line = [
        "Homo sapiens", id, "AUGC", "M", length, "chrX", "1", "9", strand, "1", "ATG", "0.3",
    ]
    .join("\t");
    parse_record_line(&line).unwrap()
}

#[test]
fn criteria_on_text_and_length_fields() {
    let app = App::new();
    let p = record("SPROHSA7", "12", "-");
    assert_eq!(app.matches_field_criteria(&p, SearchField::Species, "SAPI"), Some(true));
    assert_eq!(app.matches_field_criteria(&p, SearchField::Id, "hsa7"), Some(true));
    assert_eq!(app.matches_field_criteria(&p, SearchField::Chromosome, "chry"), Some(false));
    assert_eq!(app.matches_field_criteria(&p, SearchField::Strand, "-"), Some(true));
    assert_eq!(app.matches_field_criteria(&p, SearchField::Strand, "+"), Some(false));
    assert_eq!(app.matches_field_criteria(&p, SearchField::StartCodon, ""), Some(true));
    assert_eq!(app.matches_field_criteria(&p, SearchField::MinLength, "12"), Some(true));
    assert_eq!(app.matches_field_criteria(&p, SearchField::MinLength, "13"), Some(false));
    assert_eq!(app.matches_field_criteria(&p, SearchField::MaxLength, "11"), Some(false));
    assert_eq!(app.matches_field_criteria(&p, SearchField::MaxLength, "many"), Some(true));
    assert_eq!(app.matches_field_criteria(&p, SearchField::MinPhyloCSF, "0.1"), None);
}

#[test]
fn browsing_fields_and_results() {
    let mut app = App::new();
    app.toggle_protein_searcher();
    assert!(app.show_protein_searcher);
    app.searcher_on_key('h');
    app.searcher_on_key('o');
    app.searcher_on_backspace();
    assert_eq!(app.searcher_input, "h");
    app.searcher_prev_field();
    assert_eq!(app.selected_search_field, 8);
    assert_eq!(app.searcher_field, SearchField::MaxPhyloCSF);
    assert_eq!(app.get_search_field_name(), "Max PhyloCSF");
    assert_eq!(app.searcher_input, "");
    app.searcher_next_field();
    assert_eq!(app.searcher_field, SearchField::Species);
    app.searcher_next_field();
    assert_eq!(app.get_search_field_name(), "ID");

    app.set_filtered_proteins(vec![record("A", "1", "+"), record("B", "2", "+"), record("C", "3", "-")]);
    app.searcher_prev_protein();
    assert_eq!(app.selected_protein_index, 2);
    app.searcher_next_protein();
    assert_eq!(app.selected_protein_index, 0);
    app.searcher_next_protein();
    app.select_current_protein();
    assert!(app.show_protein_detail);
    assert_eq!(app.detailed_protein.as_ref().unwrap().id, "B");
    app.return_to_search();
    assert!(!app.show_protein_detail);
    app.searcher_next_protein();
    app.select_current_protein();
    app.select_detailed_protein();
    assert_eq!(app.closest_protein.as_ref().unwrap().id, "C");
    assert!(!app.show_protein_searcher);
    app.set_filtered_proteins(vec![record("A", "1", "+")]);
    assert_eq!(app.selected_protein_index, 0);
}

#[test]
fn stored_filters() {
    let mut app = App::new();
    app.toggle_protein_searcher();
    app.searcher_on_key('h');
    app.toggle_multi_search_mode();
    assert!(app.multi_search_mode);
    assert_eq!(app.searcher_input, "");
    assert_eq!(app.get_active_filters(), vec![(SearchField::Species, String::from("h"))]);
    app.searcher_on_key('x');
    app.add_current_filter();
    assert_eq!(app.get_active_filters(), vec![(SearchField::Species, String::from("x"))]);
    app.searcher_next_field();
    app.searcher_on_key('7');
    let criteria = app.search_criteria();
    assert_eq!(criteria, vec![(SearchField::Species, String::from("x")), (SearchField::Id, String::from("7"))]);
    app.add_current_filter();
    assert_eq!(app.get_active_filters().len(), 2);
    app.clear_current_filter();
    assert_eq!(app.get_active_filters(), vec![(SearchField::Species, String::from("x"))]);
    app.clear_all_filters();
    assert!(app.get_active_filters().is_empty());
    app.searcher_on_key('q');
    app.toggle_multi_search_mode();
    assert!(!app.multi_search_mode);
    assert_eq!(app.search_criteria(), vec![(SearchField::Id, String::from("q"))]);
}

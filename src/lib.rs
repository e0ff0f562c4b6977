//! Nucleotide sequence matching against a catalog of small proteins: base
//! conversions, positional scoring, strand confidence, catalog parsing and the
//! loading state that feeds the interactive front end.

pub mod text;
pub mod conversion;
pub mod matching;
pub mod dataset;
pub mod engine;
pub mod loading;
pub mod codon;
pub mod app;
pub mod weights;
pub mod analysis;
pub mod search;

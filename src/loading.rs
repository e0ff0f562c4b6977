//! The catalog's lifecycle as the foreground sees it, the single-flight rule
//! for background ingestion, and the stages of one ingestion run.

use vstd::prelude::*;
use crate::dataset::{DatasetProgress, SmallProtein, catalog_records, ProteinView};
use crate::text::string_of;

verus! {

/// Where the catalog stands.
pub enum CatalogState {
    NotLoaded,
    Loading(DatasetProgress),
    Loaded(Vec<SmallProtein>),
    Failed(String),
}

/// The catalog state together with whether an ingestion worker is still
/// running, i.e. its channels have not delivered their result yet.
pub struct Catalog {
    pub state: CatalogState,
    pub in_flight: bool,
}

/// The catalog after a request to start ingestion, and whether a worker is to
/// be spawned: only when none is in flight.
pub open spec fn start_spec(c: Catalog) -> (Catalog, bool) {
    if c.in_flight {
        (c, false)
    } else {
        (Catalog { state: CatalogState::Loading(DatasetProgress::CheckingCache), in_flight: true }, true)
    }
}

/// The catalog after a progress event: while a worker runs, the latest event
/// is what the foreground shows.
pub open spec fn progress_spec(c: Catalog, ev: DatasetProgress) -> Catalog {
    if c.in_flight {
        Catalog { state: CatalogState::Loading(ev), in_flight: true }
    } else {
        c
    }
}

impl Catalog {
    pub fn new() -> (r: Catalog)
        ensures
            r.state is NotLoaded,
            !r.in_flight,
    {
        Catalog { state: CatalogState::NotLoaded, in_flight: false }
    }

    /// Asks for an ingestion run. Returns whether the caller must spawn the
    /// worker; while one is in flight the request changes nothing.
    pub fn start_ingestion(&mut self) -> (spawn: bool)
        ensures
            (*final(self), spawn) == start_spec(*old(self)),
    {
        if self.in_flight {
            return false;
        }
        self.state = CatalogState::Loading(DatasetProgress::CheckingCache);
        self.in_flight = true;
        true
    }

    /// Records a progress event drained from the worker.
    pub fn apply_progress(&mut self, ev: DatasetProgress)
        ensures
            *final(self) == progress_spec(*old(self), ev),
    {
        if self.in_flight {
            self.state = CatalogState::Loading(ev);
        }
    }

    /// Records the worker's terminal result; the worker is then done and a new
    /// run may start. A result with no worker in flight is ignored.
    pub fn apply_result(&mut self, result: Result<Vec<SmallProtein>, String>)
        ensures
            !old(self).in_flight ==> *final(self) == *old(self),
            old(self).in_flight ==> !final(self).in_flight,
            old(self).in_flight ==> final(self).state == match result {
                Ok(records) => CatalogState::Loaded(records),
                Err(message) => CatalogState::Failed(message),
            },
    {
        if !self.in_flight {
            return;
        }
        self.in_flight = false;
        self.state = match result {
            Ok(records) => CatalogState::Loaded(records),
            Err(message) => CatalogState::Failed(message),
        };
    }

    /// Whether a retry makes sense: the last run failed and none is running.
    pub fn can_retry(&self) -> (r: bool)
        ensures
            r == (self.state is Failed && !self.in_flight),
    {
        match self.state {
            CatalogState::Failed(_) => !self.in_flight,
            _ => false,
        }
    }

    /// Whether the catalog is still being acquired.
    pub fn is_loading(&self) -> (r: bool)
        ensures
            r == (self.state is Loading),
    {
        match self.state {
            CatalogState::Loading(_) => true,
            _ => false,
        }
    }

    /// The loaded records; none before the catalog has loaded.
    pub fn records(&self) -> (r: &[SmallProtein])
        ensures
            self.state is Loaded ==> r@ == self.state->Loaded_0@,
            !(self.state is Loaded) ==> r@.len() == 0,
    {
        match &self.state {
            CatalogState::Loaded(records) => records.as_slice(),
            _ => &[],
        }
    }
}

/// Two requests to start ingestion before any result arrives spawn exactly one
/// worker: the second request changes nothing.
pub proof fn law_single_flight(c: Catalog)
    ensures
        ({
            let (c1, s1) = start_spec(c);
            let (c2, s2) = start_spec(c1);
            &&& c1.in_flight
            &&& !s2
            &&& c2 == c1
            &&& s1 == !c.in_flight
        }),
{
}

/// The first stage that an ingestion run needs, from what the cache holds.
#[derive(Clone, Copy, Debug, PartialEq, Eq, Structural)]
pub enum IngestStage {
    Download,
    Extract,
    Parse,
}

pub open spec fn first_stage_spec(extracted_exists: bool, archive_exists: bool) -> IngestStage {
    if extracted_exists {
        IngestStage::Parse
    } else if archive_exists {
        IngestStage::Extract
    } else {
        IngestStage::Download
    }
}

/// Where a run begins: with an extracted catalog at hand it only parses; with
/// just the archive it extracts first; with neither it downloads first.
pub fn first_stage(extracted_exists: bool, archive_exists: bool) -> (r: IngestStage)
    ensures
        r == first_stage_spec(extracted_exists, archive_exists),
{
    if extracted_exists {
        IngestStage::Parse
    } else if archive_exists {
        IngestStage::Extract
    } else {
        IngestStage::Download
    }
}

/// The stage after `stage`, none after parsing.
pub fn next_stage(stage: IngestStage) -> (r: Option<IngestStage>)
    ensures
        stage == IngestStage::Download ==> r == Some(IngestStage::Extract),
        stage == IngestStage::Extract ==> r == Some(IngestStage::Parse),
        stage == IngestStage::Parse ==> r is None,
{
    match stage {
        IngestStage::Download => Some(IngestStage::Extract),
        IngestStage::Extract => Some(IngestStage::Parse),
        IngestStage::Parse => None,
    }
}

/// The event announced as a stage begins; parsing announces itself through
/// its record counts instead.
pub fn stage_event(stage: IngestStage) -> (r: Option<DatasetProgress>)
    ensures
        stage == IngestStage::Download ==> r == Some(
            DatasetProgress::Downloading { bytes_downloaded: 0, total_bytes: None },
        ),
        stage == IngestStage::Extract ==> r == Some(DatasetProgress::Extracting),
        stage == IngestStage::Parse ==> r is None,
{
    match stage {
        IngestStage::Download => Some(
            DatasetProgress::Downloading { bytes_downloaded: 0, total_bytes: None },
        ),
        IngestStage::Extract => Some(DatasetProgress::Extracting),
        IngestStage::Parse => None,
    }
}

/// The running byte count after a downloaded chunk, and the event that
/// reports it.
pub fn download_progress(done: u64, chunk: usize, total: Option<u64>) -> (r: (u64, DatasetProgress))
    requires
        done + chunk <= u64::MAX,
    ensures
        r.0 == done + chunk,
        r.1 == (DatasetProgress::Downloading { bytes_downloaded: r.0, total_bytes: total }),
{
    let now = done + chunk as u64;
    (now, DatasetProgress::Downloading { bytes_downloaded: now, total_bytes: total })
}

/// With the extracted catalog already cached, a run neither downloads nor
/// extracts, and two runs over the same cached text read the same records.
pub proof fn law_cached_ingest_idempotent(
    archive_exists: bool,
    text: Seq<char>,
    first: Seq<ProteinView>,
    second: Seq<ProteinView>,
)
    requires
        first == catalog_records(text),
        second == catalog_records(text),
    ensures
        first_stage_spec(true, archive_exists) == IngestStage::Parse,
        first == second,
{
}


/// Why an ingestion run stopped.
#[derive(Clone, Debug)]
pub enum IngestError {
    Network(String),
    Filesystem(String),
    Decompression(String),
}

impl IngestError {
    /// The text shown for this error.
    pub fn message(&self) -> (r: String)
        ensures
            r@ == match self {
                IngestError::Network(m) => m@,
                IngestError::Filesystem(m) => m@,
                IngestError::Decompression(m) => m@,
            },
    {
        match self {
            IngestError::Network(m) => m.clone(),
            IngestError::Filesystem(m) => m.clone(),
            IngestError::Decompression(m) => m.clone(),
        }
    }

    /// The terminal progress event that reports this error.
    pub fn to_progress(&self) -> (r: DatasetProgress)
        ensures
            r is Error,
            r->Error_0@ == match self {
                IngestError::Network(m) => m@,
                IngestError::Filesystem(m) => m@,
                IngestError::Decompression(m) => m@,
            },
    {
        DatasetProgress::Error(self.message())
    }
}

/// The text inside a gzip archive, as flate2 decompresses it: none when the
/// data is not a valid gzip stream or does not hold UTF-8 text.
pub uninterp spec fn gunzip_text_of(data: Seq<u8>) -> Option<Seq<char>>;

/// Relies on flate2's `read::GzDecoder` read to the end into a `String`: the
/// outcome depends on the bytes alone; a corrupt or truncated stream, or text
/// that is not UTF-8, is an error.
#[verifier::external_body]
fn gunzip_text(data: &[u8]) -> (r: Option<String>)
    ensures
        r is Some ==> gunzip_text_of(data@) == Some(r->0@),
        r is None ==> gunzip_text_of(data@) is None,
{
    let mut text = String::new();
    match std::io::Read::read_to_string(&mut flate2::read::GzDecoder::new(data), &mut text) {
        Ok(_) => Some(text),
        Err(_) => None,
    }
}

/// Decompresses a downloaded catalog archive into the catalog text.
pub fn extract_archive(data: &[u8]) -> (r: Result<String, IngestError>)
    ensures
        r is Ok ==> gunzip_text_of(data@) == Some(r->Ok_0@),
        r is Err ==> gunzip_text_of(data@) is None && r->Err_0 is Decompression,
{
    match gunzip_text(data) {
        Some(text) => Ok(text),
        None => {
            let msg = ['c', 'o', 'r', 'r', 'u', 'p', 't', ' ', 'a', 'r', 'c', 'h', 'i', 'v', 'e'];
            Err(IngestError::Decompression(string_of(&msg)))
        },
    }
}


/// The archive size that the simulated download pretends to fetch, in bytes.
pub const SIMULATED_TOTAL: u64 = 15_000_000;

/// The bytes that one simulated download step adds.
pub const SIMULATED_CHUNK: u64 = 2_000_000;

/// The progress after one step of the simulated loading sequence, and
/// whether the sequence has reached the point where the catalog is read.
pub open spec fn simulated_step(p: DatasetProgress) -> (DatasetProgress, bool) {
    match p {
        DatasetProgress::CheckingCache => (
            DatasetProgress::Downloading { bytes_downloaded: 0, total_bytes: Some(SIMULATED_TOTAL) },
            false,
        ),
        DatasetProgress::Downloading { bytes_downloaded, total_bytes } => match total_bytes {
            Some(total) => if bytes_downloaded + SIMULATED_CHUNK >= total {
                (DatasetProgress::Extracting, false)
            } else {
                (
                    DatasetProgress::Downloading {
                        bytes_downloaded: (bytes_downloaded + SIMULATED_CHUNK) as u64,
                        total_bytes,
                    },
                    false,
                )
            },
            None => (p, false),
        },
        DatasetProgress::Extracting => (p, true),
        _ => (p, true),
    }
}

impl Catalog {
    /// Advances a simulated loading sequence by one step: checking the cache,
    /// then downloading in fixed chunks up to a fixed size, then extracting.
    /// Returns whether the sequence is over (extraction reached, or the
    /// catalog is not loading); the caller then reads the catalog.
    pub fn simulate_loading_step(&mut self) -> (r: bool)
        ensures
            old(self).state is Loading ==> final(self).state == CatalogState::Loading(
                simulated_step(old(self).state->Loading_0).0,
            ) && r == simulated_step(old(self).state->Loading_0).1,
            !(old(self).state is Loading) ==> *final(self) == *old(self) && r,
            final(self).in_flight == old(self).in_flight,
    {
        match &self.state {
            CatalogState::Loading(DatasetProgress::CheckingCache) => {
                self.state = CatalogState::Loading(
                    DatasetProgress::Downloading { bytes_downloaded: 0, total_bytes: Some(SIMULATED_TOTAL) },
                );
                false
            },
            CatalogState::Loading(DatasetProgress::Downloading { bytes_downloaded, total_bytes }) => {
                let done = *bytes_downloaded;
                match *total_bytes {
                    Some(total) => {
                        if done >= total || total - done <= SIMULATED_CHUNK {
                            self.state = CatalogState::Loading(DatasetProgress::Extracting);
                        } else {
                            self.state = CatalogState::Loading(
                                DatasetProgress::Downloading {
                                    bytes_downloaded: done + SIMULATED_CHUNK,
                                    total_bytes: Some(total),
                                },
                            );
                        }
                        false
                    },
                    None => false,
                }
            },
            CatalogState::Loading(_) => true,
            _ => true,
        }
    }
}

} // verus!

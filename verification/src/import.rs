//! The import of a tree of images in batches, as a machine that decides.
//!
//! An import waits for one thing at a time: the listing of a directory, the
//! output directory, the bytes of an image, the storing of a thumbnail, the
//! delivery of a report. What follows on each answer is stated here as a
//! function from state and event to the next state, together with what holds
//! of every state and of the reports of a run. `Importer` is the machine
//! itself.

use vstd::prelude::*;
use crate::batch::{batch_count, batch_end, batch_len, batch_start, images_in_first};
use crate::batch::{
    lemma_batch_count_is_least, lemma_batch_len_bounds, lemma_batch_start_step,
    lemma_batches_hold_all, lemma_images_in_first, lemma_percent_grows,
};
use crate::entry::{extension_kind, ImageKind, PathInfoView};
use crate::record::{
    degraded_record, matches_image, record_of, report_percent, BatchProgressReportView,
    ThumbnailRecordView,
};
use crate::scan::{
    advanced, all_images, lemma_advanced_finds_images, scan_message, started, ListOutcome,
    ListOutcomeView, ScanError, ScanErrorView, ScanStatusView, ScannerView,
};
use crate::thumbnail::thumbnail_of;

verus! {

/// Why an import stopped early.
#[derive(Clone, Debug, PartialEq, Eq)]
pub enum ImportError {
    /// A directory of the tree does not exist.
    PathNotFound { path: String },
    /// A directory of the tree could not be listed.
    DirectoryUnreadable { path: String, reason: String },
    /// The directory for the thumbnails could not be made ready.
    OutputDirectoryUnwritable { reason: String },
    /// The report of this batch was not taken.
    DeliveryFailed { batch: usize, reason: String },
}

/// The model of an `ImportError`.
pub enum ImportErrorView {
    PathNotFound { path: Seq<char> },
    DirectoryUnreadable { path: Seq<char>, reason: Seq<char> },
    OutputDirectoryUnwritable { reason: Seq<char> },
    DeliveryFailed { batch: nat, reason: Seq<char> },
}

impl View for ImportError {
    type V = ImportErrorView;

    open spec fn view(&self) -> ImportErrorView {
        match self {
            ImportError::PathNotFound { path } => ImportErrorView::PathNotFound { path: path@ },
            ImportError::DirectoryUnreadable { path, reason } => ImportErrorView::DirectoryUnreadable {
                path: path@,
                reason: reason@,
            },
            ImportError::OutputDirectoryUnwritable { reason } => ImportErrorView::OutputDirectoryUnwritable {
                reason: reason@,
            },
            ImportError::DeliveryFailed { batch, reason } => ImportErrorView::DeliveryFailed {
                batch: *batch as nat,
                reason: reason@,
            },
        }
    }
}

/// The error of an import whose scan failed: the same condition, naming the
/// same directory.
pub open spec fn scan_failure(error: ScanErrorView) -> ImportErrorView {
    match error {
        ScanErrorView::PathNotFound { path } => ImportErrorView::PathNotFound { path },
        ScanErrorView::DirectoryUnreadable { path, reason } => ImportErrorView::DirectoryUnreadable {
            path,
            reason,
        },
    }
}

/// What is shown of an import that failed.
pub open spec fn import_message(error: ImportErrorView) -> Seq<char> {
    match error {
        ImportErrorView::PathNotFound { path } => "Path does not exist: "@ + path,
        ImportErrorView::DirectoryUnreadable { path, reason } => "Failed to read directory "@ + path
            + ": "@ + reason,
        ImportErrorView::OutputDirectoryUnwritable { reason } => "Failed to create thumbnails dir: "@
            + reason,
        ImportErrorView::DeliveryFailed { batch, reason } => "Failed to emit event: "@ + reason,
    }
}

/// An import whose scan failed shows what the scan alone would show.
pub proof fn lemma_scan_failure_reads_the_same(error: ScanErrorView)
    ensures
        import_message(scan_failure(error)) == scan_message(error),
{
}

impl ImportError {
    /// The error as a line of text.
    pub fn message(&self) -> (text: String)
        ensures
            text@ == import_message(self@),
    {
        match self {
            ImportError::PathNotFound { path } => {
                let mut text = "Path does not exist: ".to_owned();
                text.append(path.as_str());
                text
            },
            ImportError::DirectoryUnreadable { path, reason } => {
                let mut text = "Failed to read directory ".to_owned();
                text.append(path.as_str());
                text.append(": ");
                text.append(reason.as_str());
                text
            },
            ImportError::OutputDirectoryUnwritable { reason } => {
                let mut text = "Failed to create thumbnails dir: ".to_owned();
                text.append(reason.as_str());
                text
            },
            ImportError::DeliveryFailed { batch, reason } => {
                let mut text = "Failed to emit event: ".to_owned();
                text.append(reason.as_str());
                text
            },
        }
    }

    /// The error of an import whose scan failed with `error`.
    pub fn from_scan(error: ScanError) -> (out: ImportError)
        ensures
            out@ == scan_failure(error@),
    {
        match error {
            ScanError::PathNotFound { path } => ImportError::PathNotFound { path },
            ScanError::DirectoryUnreadable { path, reason } => ImportError::DirectoryUnreadable {
                path,
                reason,
            },
        }
    }
}

/// What happened to the request that an import was waiting on.
#[derive(Clone, Debug, PartialEq, Eq)]
pub enum ImportEvent {
    /// The pending directory was listed, or could not be.
    Listed(ListOutcome),
    /// The directory for the thumbnails exists.
    OutputReady,
    /// The directory for the thumbnails could not be made; the text says why.
    OutputFailed(String),
    /// The bytes of the image that was to be read.
    Source(Vec<u8>),
    /// The image could not be read.
    SourceUnreadable,
    /// The thumbnail was written; the text is its path.
    Stored(String),
    /// The thumbnail could not be written.
    StoreFailed,
    /// The report was taken.
    Delivered,
    /// The report was not taken; the text says why.
    DeliveryFailed(String),
}

/// The model of an `ImportEvent`.
pub enum ImportEventView {
    Listed(ListOutcomeView),
    OutputReady,
    OutputFailed(Seq<char>),
    Source(Seq<u8>),
    SourceUnreadable,
    Stored(Seq<char>),
    StoreFailed,
    Delivered,
    DeliveryFailed(Seq<char>),
}

impl View for ImportEvent {
    type V = ImportEventView;

    open spec fn view(&self) -> ImportEventView {
        match self {
            ImportEvent::Listed(outcome) => ImportEventView::Listed(outcome@),
            ImportEvent::OutputReady => ImportEventView::OutputReady,
            ImportEvent::OutputFailed(reason) => ImportEventView::OutputFailed(reason@),
            ImportEvent::Source(bytes) => ImportEventView::Source(bytes@),
            ImportEvent::SourceUnreadable => ImportEventView::SourceUnreadable,
            ImportEvent::Stored(path) => ImportEventView::Stored(path@),
            ImportEvent::StoreFailed => ImportEventView::StoreFailed,
            ImportEvent::Delivered => ImportEventView::Delivered,
            ImportEvent::DeliveryFailed(reason) => ImportEventView::DeliveryFailed(reason@),
        }
    }
}

/// What an import waits for.
#[derive(Clone, Copy, Debug, PartialEq, Eq, Structural)]
pub enum ImportStage {
    /// The listing of a directory.
    Scanning,
    /// The directory for the thumbnails.
    Preparing,
    /// The bytes of an image.
    Reading,
    /// The storing of a thumbnail.
    Storing,
    /// The delivery of a report.
    Reporting,
    /// Nothing: every image has its record and every report was taken.
    Finished,
    /// Nothing: the import was given up.
    Failed,
}

/// The model of what an import waits for, with what belongs to the request.
pub enum ImportPhaseView {
    Scanning(ScannerView),
    Preparing,
    Reading,
    Storing { identifier: Seq<char>, thumbnail: Seq<u8> },
    Reporting(BatchProgressReportView),
    Finished,
    Failed(ImportErrorView),
}

/// The stage of a phase: the phase without what belongs to its request.
pub open spec fn stage_of(phase: ImportPhaseView) -> ImportStage {
    match phase {
        ImportPhaseView::Scanning(_) => ImportStage::Scanning,
        ImportPhaseView::Preparing => ImportStage::Preparing,
        ImportPhaseView::Reading => ImportStage::Reading,
        ImportPhaseView::Storing { .. } => ImportStage::Storing,
        ImportPhaseView::Reporting(_) => ImportStage::Reporting,
        ImportPhaseView::Finished => ImportStage::Finished,
        ImportPhaseView::Failed(_) => ImportStage::Failed,
    }
}

/// The model of an `Importer`.
pub struct ImporterView {
    /// The largest number of images in a batch.
    pub batch_size: nat,
    /// The number of batches of the run; 0 until the scan is done.
    pub total_batches: nat,
    pub phase: ImportPhaseView,
    /// The images that the scan found; empty until the scan is done.
    pub images: Seq<PathInfoView>,
    /// The records of the batch that is being filled.
    pub batch: Seq<ThumbnailRecordView>,
    /// Every record made so far, in the order of the images.
    pub records: Seq<ThumbnailRecordView>,
    /// Every report handed out for delivery so far.
    pub sent: Seq<BatchProgressReportView>,
}

/// An import that has just begun: it waits for the listing of `root`.
pub open spec fn begun(root: Seq<char>, batch_size: nat) -> ImporterView {
    ImporterView {
        batch_size,
        total_batches: 0,
        phase: ImportPhaseView::Scanning(started(root)),
        images: Seq::empty(),
        batch: Seq::empty(),
        records: Seq::empty(),
        sent: Seq::empty(),
    }
}

/// The image that is being worked on: the first without a record.
pub open spec fn current_image(s: ImporterView) -> PathInfoView {
    s.images[s.records.len() as int]
}

/// State `s` given up with `error`.
pub open spec fn failed(s: ImporterView, error: ImportErrorView) -> ImporterView {
    ImporterView { phase: ImportPhaseView::Failed(error), ..s }
}

/// State `s` after the current image got `record`.
///
/// The record joins the batch. A batch that is full, or that holds the last
/// image, becomes a report and is handed out for delivery; else the next image
/// is read.
pub open spec fn recorded(s: ImporterView, record: ThumbnailRecordView) -> ImporterView {
    let batch = s.batch.push(record);
    let records = s.records.push(record);
    if batch.len() >= s.batch_size || records.len() >= s.images.len() {
        let report = BatchProgressReportView {
            batch: s.sent.len(),
            total_batches: s.total_batches,
            thumbnails: batch,
        };
        ImporterView {
            phase: ImportPhaseView::Reporting(report),
            batch: Seq::empty(),
            records,
            sent: s.sent.push(report),
            ..s
        }
    } else {
        ImporterView { phase: ImportPhaseView::Reading, batch, records, ..s }
    }
}

/// State `s` once its scan has moved to `scan`.
///
/// While the scan waits for a listing, so does the import. A scan that failed
/// fails the import with the same error. A scan that found nothing finishes
/// the import at once; one that found images fixes them and the number of
/// batches for the rest of the run, which goes on with the output directory.
pub open spec fn scanned(s: ImporterView, scan: ScannerView) -> ImporterView {
    match scan.status {
        ScanStatusView::Listing(_) => ImporterView { phase: ImportPhaseView::Scanning(scan), ..s },
        ScanStatusView::Failed(error) => failed(s, scan_failure(error)),
        ScanStatusView::Done => if scan.found.len() == 0 {
            ImporterView { phase: ImportPhaseView::Finished, ..s }
        } else {
            ImporterView {
                phase: ImportPhaseView::Preparing,
                images: scan.found,
                total_batches: batch_count(scan.found.len(), s.batch_size),
                ..s
            }
        },
    }
}

/// The state that follows `s` on `event`.
///
/// `id` is the identifier that the current image gets if the event brings the
/// outcome of reading it; `thumbnail` is what came of rendering its bytes. An
/// event that does not answer what the import waits for changes nothing.
pub open spec fn reacted(
    s: ImporterView,
    event: ImportEventView,
    id: Seq<char>,
    thumbnail: Option<Seq<u8>>,
) -> ImporterView {
    match s.phase {
        ImportPhaseView::Scanning(scan) => match event {
            ImportEventView::Listed(outcome) => scanned(s, advanced(scan, outcome)),
            _ => s,
        },
        ImportPhaseView::Preparing => match event {
            ImportEventView::OutputReady => ImporterView { phase: ImportPhaseView::Reading, ..s },
            ImportEventView::OutputFailed(reason) => failed(
                s,
                ImportErrorView::OutputDirectoryUnwritable { reason },
            ),
            _ => s,
        },
        ImportPhaseView::Reading => match event {
            ImportEventView::Source(_) => match thumbnail {
                Some(bytes) => ImporterView {
                    phase: ImportPhaseView::Storing { identifier: id, thumbnail: bytes },
                    ..s
                },
                None => recorded(s, degraded_record(id, current_image(s))),
            },
            ImportEventView::SourceUnreadable => recorded(s, degraded_record(id, current_image(s))),
            _ => s,
        },
        ImportPhaseView::Storing { identifier, thumbnail: _ } => match event {
            ImportEventView::Stored(path) => recorded(
                s,
                record_of(identifier, current_image(s), path),
            ),
            ImportEventView::StoreFailed => recorded(
                s,
                degraded_record(identifier, current_image(s)),
            ),
            _ => s,
        },
        ImportPhaseView::Reporting(report) => match event {
            ImportEventView::Delivered => if s.records.len() >= s.images.len() {
                ImporterView { phase: ImportPhaseView::Finished, ..s }
            } else {
                ImporterView { phase: ImportPhaseView::Reading, ..s }
            },
            ImportEventView::DeliveryFailed(reason) => failed(
                s,
                ImportErrorView::DeliveryFailed { batch: report.batch, reason },
            ),
            _ => s,
        },
        ImportPhaseView::Finished => s,
        ImportPhaseView::Failed(_) => s,
    }
}

/// What rendering makes of the bytes that `event` brings: the thumbnail of the
/// current image, read in the format of its extension. There is none where the
/// event brings no bytes that the import waits for.
pub open spec fn rendering(s: ImporterView, event: ImportEventView) -> Option<Seq<u8>> {
    match (s.phase, event) {
        (ImportPhaseView::Reading, ImportEventView::Source(bytes)) => match source_kind(
            current_image(s),
        ) {
            Some(kind) => thumbnail_of(bytes, kind),
            None => None,
        },
        _ => None,
    }
}

/// The format in which an image is read: that of its extension.
pub open spec fn source_kind(image: PathInfoView) -> Option<ImageKind> {
    match image.extension {
        Some(extension) => extension_kind(extension),
        None => None,
    }
}

/// The `k`-th report that was handed out is the report of batch `k`: it
/// carries that index and the number of batches, and its records are those of
/// the images of batch `k`, in their order.
pub open spec fn report_in_place(s: ImporterView, k: int) -> bool {
    let total = s.images.len();
    let size = s.batch_size;
    &&& s.sent[k].batch == k
    &&& s.sent[k].total_batches == s.total_batches
    &&& batch_start(k as nat, size) < total
    &&& batch_end(total, size, k as nat) <= s.records.len()
    &&& s.sent[k].thumbnails == s.records.subrange(
        batch_start(k as nat, size) as int,
        batch_end(total, size, k as nat) as int,
    )
}

/// What holds of every state of an import.
///
/// The number of batches is the one that the images call for, and every one
/// of the images has the extension of an image. There is one record for each
/// image that was worked on, in the order of the images, and none for the
/// others. The reports handed out are those of the first batches, in their
/// order, each once. The batch that is being filled holds the records made
/// since the last report, fewer than a full batch.
pub open spec fn consistent(s: ImporterView) -> bool {
    let total = s.images.len();
    let size = s.batch_size;
    let made = s.records.len();
    let reports = s.sent.len();
    &&& size > 0
    &&& s.total_batches == batch_count(total, size)
    &&& all_images(s.images)
    &&& made <= total
    &&& forall|i: int| 0 <= i < made ==> matches_image(#[trigger] s.records[i], s.images[i])
    &&& forall|k: int| 0 <= k < reports ==> #[trigger] report_in_place(s, k)
    &&& match s.phase {
        ImportPhaseView::Scanning(scan) => {
            &&& scan.status is Listing
            &&& all_images(scan.found)
            &&& total == 0
            &&& made == 0
            &&& reports == 0
            &&& s.batch.len() == 0
        },
        ImportPhaseView::Preparing => total > 0 && made == 0 && reports == 0 && s.batch.len() == 0,
        ImportPhaseView::Reading | ImportPhaseView::Storing { .. } => {
            &&& made < total
            &&& s.batch.len() < size
            &&& made == batch_start(reports, size) + s.batch.len()
            &&& s.batch == s.records.subrange(batch_start(reports, size) as int, made as int)
        },
        ImportPhaseView::Reporting(report) => {
            &&& reports > 0
            &&& report == s.sent.last()
            &&& s.batch.len() == 0
            &&& made == batch_end(total, size, (reports - 1) as nat)
        },
        ImportPhaseView::Finished => made == total && reports == s.total_batches && s.batch.len()
            == 0,
        ImportPhaseView::Failed(_) => true,
    }
}

/// An import that has just begun is consistent.
pub proof fn lemma_begun_consistent(root: Seq<char>, batch_size: nat)
    requires
        batch_size > 0,
    ensures
        consistent(begun(root, batch_size)),
{
}

proof fn lemma_earlier_reports_stay(s: ImporterView, next: ImporterView)
    requires
        consistent(s),
        next.images == s.images,
        next.batch_size == s.batch_size,
        next.total_batches == s.total_batches,
        s.records.len() <= next.records.len(),
        s.records == next.records.subrange(0, s.records.len() as int),
        s.sent.len() <= next.sent.len(),
        s.sent == next.sent.subrange(0, s.sent.len() as int),
    ensures
        forall|k: int| 0 <= k < s.sent.len() ==> #[trigger] report_in_place(next, k),
        forall|i: int|
            0 <= i < s.records.len() ==> matches_image(#[trigger] next.records[i], next.images[i]),
{
    assert forall|k: int| 0 <= k < s.sent.len() implies #[trigger] report_in_place(next, k) by {
        assert(report_in_place(s, k));
        assert(next.sent[k] == s.sent[k]);
        let from = batch_start(k as nat, s.batch_size) as int;
        let to = batch_end(s.images.len(), s.batch_size, k as nat) as int;
        assert(from <= to) by {
            lemma_batch_start_step(k as nat, s.batch_size);
        }
        assert(next.records.subrange(from, to) =~= s.records.subrange(from, to));
    }
    assert forall|i: int| 0 <= i < s.records.len() implies matches_image(
        #[trigger] next.records[i],
        next.images[i],
    ) by {
        assert(next.records[i] == s.records[i]);
    }
}

/// Giving the current image its record keeps an import consistent.
pub proof fn lemma_recorded_consistent(s: ImporterView, record: ThumbnailRecordView)
    requires
        consistent(s),
        s.phase is Reading || s.phase is Storing,
        matches_image(record, current_image(s)),
    ensures
        consistent(recorded(s, record)),
{
    let next = recorded(s, record);
    let total = s.images.len();
    let size = s.batch_size;
    let made = s.records.len();
    let reports = s.sent.len();
    let start = batch_start(reports, size);
    lemma_batch_start_step(reports, size);
    assert(s.records =~= next.records.subrange(0, made as int));
    assert(s.sent =~= next.sent.subrange(0, reports as int));
    lemma_earlier_reports_stay(s, next);
    assert(next.records[made as int] == record);
    assert(s.batch.push(record) =~= next.records.subrange(start as int, made as int + 1));
    if s.batch.len() + 1 >= size || made + 1 >= total {
        assert(batch_end(total, size, reports) == made + 1);
        assert(report_in_place(next, reports as int));
    }
}

proof fn lemma_history_kept(s: ImporterView, next: ImporterView)
    requires
        consistent(s),
        next.images == s.images,
        next.batch_size == s.batch_size,
        next.total_batches == s.total_batches,
        next.records == s.records,
        next.sent == s.sent,
    ensures
        forall|k: int| 0 <= k < next.sent.len() ==> #[trigger] report_in_place(next, k),
        forall|i: int|
            0 <= i < next.records.len() ==> matches_image(
                #[trigger] next.records[i],
                next.images[i],
            ),
{
    assert(s.records =~= next.records.subrange(0, s.records.len() as int));
    assert(s.sent =~= next.sent.subrange(0, s.sent.len() as int));
    lemma_earlier_reports_stay(s, next);
}

/// An import stays consistent whatever happens.
pub proof fn lemma_reacted_consistent(
    s: ImporterView,
    event: ImportEventView,
    id: Seq<char>,
    thumbnail: Option<Seq<u8>>,
)
    requires
        consistent(s),
    ensures
        consistent(reacted(s, event, id, thumbnail)),
{
    let next = reacted(s, event, id, thumbnail);
    let size = s.batch_size;
    let total = s.images.len();
    let reports = s.sent.len();
    if next != s {
        match s.phase {
            ImportPhaseView::Scanning(scan) => {
                lemma_batch_count_is_least(0, size, 0);
                if let ImportEventView::Listed(outcome) = event {
                    lemma_advanced_finds_images(scan, outcome);
                }
            },
            ImportPhaseView::Preparing => {
                lemma_batch_start_step(0, size);
                if event is OutputReady {
                    assert(next.batch =~= next.records.subrange(0, 0));
                }
            },
            ImportPhaseView::Reading => {
                if next.phase is Storing {
                    lemma_history_kept(s, next);
                } else {
                    lemma_recorded_consistent(s, degraded_record(id, current_image(s)));
                }
            },
            ImportPhaseView::Storing { identifier, thumbnail: _ } => {
                match event {
                    ImportEventView::Stored(path) => {
                        lemma_recorded_consistent(s, record_of(identifier, current_image(s), path));
                    },
                    _ => {
                        lemma_recorded_consistent(s, degraded_record(identifier, current_image(s)));
                    },
                }
            },
            ImportPhaseView::Reporting(report) => {
                lemma_history_kept(s, next);
                assert(report_in_place(s, reports - 1));
                lemma_batch_start_step((reports - 1) as nat, size);
                lemma_batch_count_is_least(total, size, reports);
                lemma_batch_count_is_least(total, size, (reports - 1) as nat);
                if event is Delivered {
                    if s.records.len() < total {
                        assert(next.batch =~= next.records.subrange(
                            batch_start(reports, size) as int,
                            s.records.len() as int,
                        ));
                    } else {
                        assert(reports == s.total_batches);
                    }
                }
            },
            ImportPhaseView::Finished => {},
            ImportPhaseView::Failed(_) => {},
        }
    }
}

/// The records of a sequence of reports, one report after the other.
pub open spec fn reported(sent: Seq<BatchProgressReportView>) -> Seq<ThumbnailRecordView>
    decreases sent.len(),
{
    if sent.len() == 0 {
        Seq::empty()
    } else {
        reported(sent.drop_last()) + sent.last().thumbnails
    }
}

proof fn lemma_reported_prefix(s: ImporterView, n: nat)
    requires
        consistent(s),
        n <= s.sent.len(),
    ensures
        images_in_first(s.images.len(), s.batch_size, n) <= s.records.len(),
        reported(s.sent.take(n as int)) == s.records.subrange(
            0,
            images_in_first(s.images.len(), s.batch_size, n) as int,
        ),
    decreases n,
{
    let total = s.images.len();
    let size = s.batch_size;
    lemma_images_in_first(total, size, n);
    lemma_batch_start_step(0, size);
    if n == 0 {
        assert(reported(s.sent.take(0)) =~= s.records.subrange(0, 0));
    } else {
        let k = (n - 1) as nat;
        lemma_reported_prefix(s, k);
        lemma_images_in_first(total, size, k);
        lemma_batch_start_step(k, size);
        assert(report_in_place(s, k as int));
        assert(s.sent.take(n as int).drop_last() =~= s.sent.take(k as int));
        assert(s.sent.take(n as int).last() == s.sent[k as int]);
        assert(reported(s.sent.take(n as int)) =~= s.records.subrange(
            0,
            images_in_first(total, size, n) as int,
        ));
    }
}

/// The reports of a run, at any moment.
///
/// No more reports were handed out than the run has batches. The `k`-th carries
/// the index `k` and the number of batches, and holds the records of batch `k`:
/// as many as the batch has images, at least one and at most a full batch.
/// Taken together the reports hold the records of the first images, each once
/// and in the order of discovery.
pub proof fn lemma_reports_are_the_batches(s: ImporterView)
    requires
        consistent(s),
    ensures
        s.sent.len() <= batch_count(s.images.len(), s.batch_size),
        forall|k: int|
            0 <= k < s.sent.len() ==> {
                &&& (#[trigger] s.sent[k]).batch == k
                &&& s.sent[k].total_batches == batch_count(s.images.len(), s.batch_size)
                &&& s.sent[k].thumbnails.len() == batch_len(
                    s.images.len(),
                    s.batch_size,
                    k as nat,
                )
                &&& 1 <= s.sent[k].thumbnails.len() <= s.batch_size
            },
        reported(s.sent).len() == images_in_first(s.images.len(), s.batch_size, s.sent.len()),
        reported(s.sent) == s.records.subrange(0, reported(s.sent).len() as int),
{
    let total = s.images.len();
    let size = s.batch_size;
    assert forall|k: int| 0 <= k < s.sent.len() implies {
        &&& (#[trigger] s.sent[k]).batch == k
        &&& s.sent[k].total_batches == batch_count(total, size)
        &&& s.sent[k].thumbnails.len() == batch_len(total, size, k as nat)
        &&& 1 <= s.sent[k].thumbnails.len() <= size
    } by {
        assert(report_in_place(s, k));
        lemma_batch_start_step(k as nat, size);
        lemma_batch_len_bounds(total, size, k as nat);
    }
    if s.sent.len() > 0 {
        let last = (s.sent.len() - 1) as nat;
        assert(report_in_place(s, last as int));
        lemma_batch_count_is_least(total, size, last);
    }
    lemma_reported_prefix(s, s.sent.len());
    assert(s.sent.take(s.sent.len() as int) =~= s.sent);
}

/// The reports of a finished run.
///
/// A run that finished has handed out one report for each batch, none for a
/// tree without images, and the reports hold every record of the run: one for
/// each image that was discovered, in the order of discovery.
pub proof fn lemma_finished_run_reported_all(s: ImporterView)
    requires
        consistent(s),
        s.phase is Finished,
    ensures
        s.sent.len() == batch_count(s.images.len(), s.batch_size),
        s.images.len() == 0 ==> s.sent.len() == 0,
        reported(s.sent) == s.records,
        s.records.len() == s.images.len(),
        forall|i: int|
            0 <= i < s.images.len() ==> matches_image(#[trigger] s.records[i], s.images[i]),
{
    lemma_reports_are_the_batches(s);
    lemma_batches_hold_all(s.images.len(), s.batch_size);
    lemma_batch_count_is_least(0, s.batch_size, 0);
    assert(s.records.subrange(0, s.records.len() as int) =~= s.records);
}

/// An image for which no thumbnail is made keeps its place: the import gives
/// it a record all the same, and the record names the image itself as its
/// thumbnail.
///
/// This is what follows on an image that could not be read, on bytes from
/// which no thumbnail could be rendered, and on a thumbnail that could not be
/// written.
pub proof fn lemma_skipped_image_is_recorded(
    s: ImporterView,
    event: ImportEventView,
    id: Seq<char>,
)
    requires
        consistent(s),
        (s.phase is Reading && (event is Source || event is SourceUnreadable)) || (s.phase is Storing
            && event is StoreFailed),
    ensures
        ({
            let next = reacted(s, event, id, None);
            &&& next.records.len() == s.records.len() + 1
            &&& next.records.drop_last() == s.records
            &&& next.records.last().original_path == current_image(s).full
            &&& next.records.last().thumbnail_path == current_image(s).full
        }),
{
    let next = reacted(s, event, id, None);
    assert(next.records.drop_last() =~= s.records);
}

/// A step makes no record or one: that of the current image, which comes
/// last. No record that was made before is changed or taken away.
pub proof fn lemma_each_image_is_recorded_once(
    s: ImporterView,
    event: ImportEventView,
    id: Seq<char>,
    thumbnail: Option<Seq<u8>>,
)
    requires
        consistent(s),
    ensures
        ({
            let next = reacted(s, event, id, thumbnail);
            if next.records.len() == s.records.len() {
                next.records == s.records
            } else {
                &&& next.records.len() == s.records.len() + 1
                &&& next.records.drop_last() == s.records
                &&& matches_image(next.records.last(), current_image(s))
            }
        }),
{
    let next = reacted(s, event, id, thumbnail);
    if next.records.len() != s.records.len() {
        assert(next.records.drop_last() =~= s.records);
    }
}

/// Progress never falls from one report to the next, and the last report of a
/// finished run says 100 percent.
pub proof fn lemma_progress_is_monotonic(s: ImporterView)
    requires
        consistent(s),
    ensures
        forall|i: int, j: int|
            0 <= i <= j < s.sent.len() ==> report_percent(#[trigger] s.sent[i]) <= report_percent(
                #[trigger] s.sent[j],
            ),
        forall|k: int| 0 <= k < s.sent.len() ==> report_percent(#[trigger] s.sent[k]) <= 100,
        s.phase is Finished && s.images.len() > 0 ==> s.sent.len() > 0 && report_percent(
            s.sent.last(),
        ) == 100,
{
    lemma_reports_are_the_batches(s);
    let count = batch_count(s.images.len(), s.batch_size);
    assert forall|i: int, j: int| 0 <= i <= j < s.sent.len() implies report_percent(
        #[trigger] s.sent[i],
    ) <= report_percent(#[trigger] s.sent[j]) by {
        lemma_percent_grows((i + 1) as nat, (j + 1) as nat, count);
    }
    assert forall|k: int| 0 <= k < s.sent.len() implies report_percent(#[trigger] s.sent[k])
        <= 100 by {
        lemma_percent_grows((k + 1) as nat, (k + 1) as nat, count);
    }
    if s.phase is Finished && s.images.len() > 0 {
        lemma_batch_count_is_least(s.images.len(), s.batch_size, 0);
        lemma_batch_start_step(0, s.batch_size);
    }
}

/// An import whose scan fails, fails with the error of the scan, and no report
/// was handed out.
pub proof fn lemma_failed_scan_fails_import(
    s: ImporterView,
    outcome: ListOutcomeView,
    id: Seq<char>,
    thumbnail: Option<Seq<u8>>,
)
    requires
        consistent(s),
        s.phase is Scanning,
        advanced(s.phase->Scanning_0, outcome).status is Failed,
    ensures
        ({
            let next = reacted(s, ImportEventView::Listed(outcome), id, thumbnail);
            &&& next.phase == ImportPhaseView::Failed(
                scan_failure(advanced(s.phase->Scanning_0, outcome).status->Failed_0),
            )
            &&& next.sent.len() == 0
        }),
{
}

/// What is settled stays settled.
///
/// Once the scan is done, the images, the size of a batch and the number of
/// batches are the same for the rest of the run. The reports that were handed
/// out stay as they are; a step hands out at most one more, which comes last.
pub proof fn lemma_run_is_fixed(
    s: ImporterView,
    event: ImportEventView,
    id: Seq<char>,
    thumbnail: Option<Seq<u8>>,
)
    ensures
        ({
            let next = reacted(s, event, id, thumbnail);
            &&& next.batch_size == s.batch_size
            &&& !(s.phase is Scanning) ==> next.images == s.images && next.total_batches
                == s.total_batches
            &&& next.sent == s.sent || (next.sent.len() == s.sent.len() + 1 && next.sent.drop_last()
                == s.sent && next.phase == ImportPhaseView::Reporting(next.sent.last()))
        }),
{
    let next = reacted(s, event, id, thumbnail);
    if next.sent != s.sent {
        assert(next.sent.drop_last() =~= s.sent);
    }
}

/// An import that is finished or has failed is moved by nothing: no record is
/// made and no report is handed out any more.
pub proof fn lemma_ended_import_rests(
    s: ImporterView,
    event: ImportEventView,
    id: Seq<char>,
    thumbnail: Option<Seq<u8>>,
)
    requires
        s.phase is Finished || s.phase is Failed,
    ensures
        reacted(s, event, id, thumbnail) == s,
{
}

} // verus!

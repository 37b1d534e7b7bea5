//! The machine that runs an import.
//!
//! An `Importer` decides and the caller acts. The importer says what it waits
//! for; the caller does that and tells the importer what happened, until the
//! import is finished or has failed.

use vstd::prelude::*;
use crate::batch::count_batches;
use crate::entry::{image_kind, PathInfo};
use crate::identifier::{fresh_identifier, is_identifier};
use crate::import::{
    begun, consistent, current_image, reacted, recorded, rendering, stage_of, ImportError,
    ImportEvent, ImportPhaseView, ImportStage, ImporterView,
};
use crate::import::{lemma_begun_consistent, lemma_reacted_consistent, lemma_recorded_consistent};
use crate::record::{
    matches_image, BatchProgressReport, BatchProgressReportView, ThumbnailRecord,
    ThumbnailRecordView,
};
use crate::scan::{ScanStatusView, Scanner};
use crate::thumbnail::{render_thumbnail, thumbnail_file_name, thumbnail_name};

verus! {

/// What the import waits for, with what belongs to the request.
enum Phase {
    Scanning(Scanner),
    Preparing,
    Reading,
    Storing { identifier: String, thumbnail: Vec<u8> },
    Reporting(BatchProgressReport),
    Finished,
    Failed(ImportError),
}

impl Phase {
    /// The phase as the model of an import has it.
    closed spec fn model(&self) -> ImportPhaseView {
        match self {
            Phase::Scanning(scanner) => ImportPhaseView::Scanning(scanner@),
            Phase::Preparing => ImportPhaseView::Preparing,
            Phase::Reading => ImportPhaseView::Reading,
            Phase::Storing { identifier, thumbnail } => ImportPhaseView::Storing {
                identifier: identifier@,
                thumbnail: thumbnail@,
            },
            Phase::Reporting(report) => ImportPhaseView::Reporting(report@),
            Phase::Finished => ImportPhaseView::Finished,
            Phase::Failed(error) => ImportPhaseView::Failed(error@),
        }
    }
}

/// What an import keeps from one request to the next.
struct Run {
    batch_size: usize,
    total_batches: usize,
    images: Vec<PathInfo>,
    /// The records of the batch that is being filled.
    batch: Vec<ThumbnailRecord>,
    /// The number of records made.
    made: usize,
    /// The number of reports handed out.
    reports: usize,
    records: Ghost<Seq<ThumbnailRecordView>>,
    sent: Ghost<Seq<BatchProgressReportView>>,
}

impl Run {
    /// The model of an import that is in `phase` and keeps this.
    closed spec fn model(&self, phase: ImportPhaseView) -> ImporterView {
        ImporterView {
            batch_size: self.batch_size as nat,
            total_batches: self.total_batches as nat,
            phase,
            images: self.images.deep_view(),
            batch: self.batch.deep_view(),
            records: self.records@,
            sent: self.sent@,
        }
    }

    /// The two counters say how many records were made and how many reports
    /// were handed out.
    closed spec fn counted(&self) -> bool {
        self.made == self.records@.len() && self.reports == self.sent@.len()
    }

    /// The image that is being worked on.
    fn current(&self) -> (image: &PathInfo)
        requires
            self.made < self.images.len(),
            self.counted(),
        ensures
            forall|phase: ImportPhaseView| image@ == current_image(#[trigger] self.model(phase)),
    {
        assert(self.images.deep_view()[self.made as int] == self.images@[self.made as int]@);
        &self.images[self.made]
    }
}

/// The import of one tree: the scan, then batch after batch.
pub struct Importer {
    phase: Phase,
    run: Run,
}

impl View for Importer {
    type V = ImporterView;

    closed spec fn view(&self) -> ImporterView {
        self.run.model(self.phase.model())
    }
}

impl Importer {
    /// Every importer is in a state that is consistent.
    #[verifier::type_invariant]
    spec fn sound(self) -> bool {
        consistent(self@) && self.run.counted()
    }

    /// An import of the tree under `root` in batches of `batch_size` images.
    /// It waits for the listing of `root`.
    pub fn begin(root: String, batch_size: usize) -> (importer: Importer)
        requires
            batch_size > 0,
        ensures
            importer@ == begun(root@, batch_size as nat),
            consistent(importer@),
    {
        let run = Run {
            batch_size,
            total_batches: 0,
            images: Vec::new(),
            batch: Vec::new(),
            made: 0,
            reports: 0,
            records: Ghost(Seq::empty()),
            sent: Ghost(Seq::empty()),
        };
        let phase = Phase::Scanning(Scanner::begin(root));
        proof {
            lemma_begun_consistent(root@, batch_size as nat);
            assert(run.model(phase.model()).images =~= Seq::empty());
            assert(run.model(phase.model()).batch =~= Seq::empty());
        }
        Importer { phase, run }
    }

    /// What the import waits for.
    pub fn stage(&self) -> (stage: ImportStage)
        ensures
            stage == stage_of(self@.phase),
    {
        match &self.phase {
            Phase::Scanning(_) => ImportStage::Scanning,
            Phase::Preparing => ImportStage::Preparing,
            Phase::Reading => ImportStage::Reading,
            Phase::Storing { .. } => ImportStage::Storing,
            Phase::Reporting(_) => ImportStage::Reporting,
            Phase::Finished => ImportStage::Finished,
            Phase::Failed(_) => ImportStage::Failed,
        }
    }

    /// The number of images that the scan found; 0 until the scan is done.
    pub fn image_count(&self) -> (count: usize)
        ensures
            count == self@.images.len(),
    {
        self.run.images.len()
    }

    /// While scanning: the directory that is to be listed.
    pub fn pending_directory(&self) -> (directory: Option<&String>)
        ensures
            match self@.phase {
                ImportPhaseView::Scanning(scan) => directory matches Some(d)
                    && scan.status == ScanStatusView::Listing(d@),
                _ => directory is None,
            },
    {
        proof {
            use_type_invariant(self);
        }
        match &self.phase {
            Phase::Scanning(scanner) => scanner.pending(),
            _ => None,
        }
    }

    /// While reading: the path of the image whose bytes are to be read.
    pub fn source_path(&self) -> (path: Option<&String>)
        ensures
            match self@.phase {
                ImportPhaseView::Reading => path matches Some(p) && p@ == current_image(self@).full,
                _ => path is None,
            },
    {
        proof {
            use_type_invariant(self);
        }
        match &self.phase {
            Phase::Reading => Some(&self.run.current().full),
            _ => None,
        }
    }

    /// While storing: the bytes of the thumbnail that is to be written.
    pub fn thumbnail_bytes(&self) -> (bytes: Option<&Vec<u8>>)
        ensures
            match self@.phase {
                ImportPhaseView::Storing { identifier, thumbnail } => bytes matches Some(b) && b@
                    == thumbnail,
                _ => bytes is None,
            },
    {
        match &self.phase {
            Phase::Storing { identifier, thumbnail } => Some(thumbnail),
            _ => None,
        }
    }

    /// While storing: the name of the file that the thumbnail is to be written
    /// to, in the directory for the thumbnails.
    pub fn thumbnail_file(&self) -> (name: Option<String>)
        ensures
            match self@.phase {
                ImportPhaseView::Storing { identifier, thumbnail } => name matches Some(n) && n@
                    == thumbnail_name(identifier),
                _ => name is None,
            },
    {
        match &self.phase {
            Phase::Storing { identifier, thumbnail } => Some(
                thumbnail_file_name(identifier.as_str()),
            ),
            _ => None,
        }
    }

    /// While reporting: the report that is to be delivered.
    pub fn report(&self) -> (report: Option<&BatchProgressReport>)
        ensures
            match self@.phase {
                ImportPhaseView::Reporting(pending) => report matches Some(r) && r@ == pending,
                _ => report is None,
            },
    {
        match &self.phase {
            Phase::Reporting(report) => Some(report),
            _ => None,
        }
    }

    /// After a failure: the error.
    pub fn failure(&self) -> (error: Option<&ImportError>)
        ensures
            match self@.phase {
                ImportPhaseView::Failed(reason) => error matches Some(e) && e@ == reason,
                _ => error is None,
            },
    {
        match &self.phase {
            Phase::Failed(error) => Some(error),
            _ => None,
        }
    }

    /// Gives the current image its record.
    fn record(run: Run, record: ThumbnailRecord, Ghost(before): Ghost<ImporterView>) -> (next:
        Importer)
        requires
            consistent(before),
            run.counted(),
            before.phase is Reading || before.phase is Storing,
            before == run.model(before.phase),
            matches_image(record@, current_image(before)),
        ensures
            next@ == recorded(before, record@),
    {
        proof {
            lemma_recorded_consistent(before, record@);
            assert(run.images.deep_view().len() == run.images.len());
            assert(run.reports <= run.reports * run.batch_size) by (nonlinear_arith)
                requires
                    run.batch_size > 0,
            ;
        }
        let mut run = run;
        let ghost pushed = record@;
        run.batch.push(record);
        assert(run.batch.deep_view() =~= before.batch.push(pushed));
        run.made = run.made + 1;
        run.records = Ghost(run.records@.push(pushed));
        if run.batch.len() >= run.batch_size || run.made >= run.images.len() {
            let mut thumbnails: Vec<ThumbnailRecord> = Vec::new();
            std::mem::swap(&mut thumbnails, &mut run.batch);
            assert(run.batch.deep_view() =~= Seq::empty());
            let report = BatchProgressReport {
                batch: run.reports,
                total_batches: run.total_batches,
                thumbnails,
            };
            run.reports = run.reports + 1;
            run.sent = Ghost(run.sent@.push(report@));
            Importer { phase: Phase::Reporting(report), run }
        } else {
            Importer { phase: Phase::Reading, run }
        }
    }

    fn after_listing(self, event: ImportEvent) -> (next: Importer)
        requires
            self@.phase is Scanning,
        ensures
            next@ == reacted(self@, event@, Seq::empty(), None),
    {
        proof {
            use_type_invariant(&self);
            lemma_reacted_consistent(self@, event@, Seq::empty(), None);
        }
        let outcome = match event {
            ImportEvent::Listed(outcome) => outcome,
            _ => {
                return self;
            },
        };
        let Importer { phase, run } = self;
        let mut scanner = match phase {
            Phase::Scanning(scanner) => scanner,
            phase => {
                return Importer { phase, run };
            },
        };
        scanner.accept(outcome);
        match scanner.finish() {
            Err(scanner) => Importer { phase: Phase::Scanning(scanner), run },
            Ok(Err(error)) => Importer { phase: Phase::Failed(ImportError::from_scan(error)), run },
            Ok(Ok(found)) => {
                assert(found.deep_view().len() == found.len());
                if found.len() == 0 {
                    Importer { phase: Phase::Finished, run }
                } else {
                    let mut run = run;
                    run.total_batches = count_batches(found.len(), run.batch_size);
                    run.images = found;
                    Importer { phase: Phase::Preparing, run }
                }
            },
        }
    }

    fn after_preparing(self, event: ImportEvent) -> (next: Importer)
        requires
            self@.phase is Preparing,
        ensures
            next@ == reacted(self@, event@, Seq::empty(), None),
    {
        proof {
            use_type_invariant(&self);
            lemma_reacted_consistent(self@, event@, Seq::empty(), None);
        }
        match event {
            ImportEvent::OutputReady => Importer { phase: Phase::Reading, run: self.run },
            ImportEvent::OutputFailed(reason) => Importer {
                phase: Phase::Failed(ImportError::OutputDirectoryUnwritable { reason }),
                run: self.run,
            },
            _ => self,
        }
    }

    fn after_reading(self, event: ImportEvent, id: String, thumbnail: Option<Vec<u8>>) -> (next:
        Importer)
        requires
            self@.phase is Reading,
        ensures
            next@ == reacted(self@, event@, id@, thumbnail.deep_view()),
    {
        proof {
            use_type_invariant(&self);
            lemma_reacted_consistent(self@, event@, id@, thumbnail.deep_view());
        }
        let ghost before = self@;
        let rendered = match event {
            ImportEvent::Source(_) => thumbnail,
            ImportEvent::SourceUnreadable => None,
            _ => {
                return self;
            },
        };
        match rendered {
            Some(bytes) => {
                assert(bytes.deep_view() =~= bytes@);
                let phase = Phase::Storing { identifier: id, thumbnail: bytes };
                Importer { phase, run: self.run }
            },
            None => {
                let record = ThumbnailRecord::new(id, self.run.current(), None);
                Importer::record(self.run, record, Ghost(before))
            },
        }
    }

    fn after_storing(self, event: ImportEvent) -> (next: Importer)
        requires
            self@.phase is Storing,
        ensures
            next@ == reacted(self@, event@, Seq::empty(), None),
    {
        proof {
            use_type_invariant(&self);
            lemma_reacted_consistent(self@, event@, Seq::empty(), None);
        }
        let ghost before = self@;
        let stored = match event {
            ImportEvent::Stored(path) => Some(path),
            ImportEvent::StoreFailed => None,
            _ => {
                return self;
            },
        };
        let Importer { phase, run } = self;
        match phase {
            Phase::Storing { identifier, thumbnail } => {
                let record = ThumbnailRecord::new(identifier, run.current(), stored);
                Importer::record(run, record, Ghost(before))
            },
            phase => Importer { phase, run },
        }
    }

    fn after_reporting(self, event: ImportEvent) -> (next: Importer)
        requires
            self@.phase is Reporting,
        ensures
            next@ == reacted(self@, event@, Seq::empty(), None),
    {
        proof {
            use_type_invariant(&self);
            lemma_reacted_consistent(self@, event@, Seq::empty(), None);
        }
        assert(self.run.images.deep_view().len() == self.run.images.len());
        let Importer { phase, run } = self;
        let phase = match (phase, event) {
            (Phase::Reporting(_), ImportEvent::Delivered) => if run.made >= run.images.len() {
                Phase::Finished
            } else {
                Phase::Reading
            },
            (Phase::Reporting(report), ImportEvent::DeliveryFailed(reason)) => Phase::Failed(
                ImportError::DeliveryFailed { batch: report.batch, reason },
            ),
            (phase, _) => phase,
        };
        Importer { phase, run }
    }

    /// Takes what happened to the pending request and moves on, with the
    /// identifier and the thumbnail given.
    ///
    /// `id` becomes the identifier of the current image if `event` brings the
    /// outcome of reading it. `thumbnail` is taken for what rendering the bytes
    /// of a `Source` event gave; `None` says that the image is to be skipped.
    /// Both are passed over where the event has no use for them.
    pub fn react_given(
        self,
        event: ImportEvent,
        id: String,
        thumbnail: Option<Vec<u8>>,
    ) -> (next: Importer)
        ensures
            next@ == reacted(self@, event@, id@, thumbnail.deep_view()),
            consistent(next@),
    {
        let next = match self.stage() {
            ImportStage::Scanning => self.after_listing(event),
            ImportStage::Preparing => self.after_preparing(event),
            ImportStage::Reading => self.after_reading(event, id, thumbnail),
            ImportStage::Storing => self.after_storing(event),
            ImportStage::Reporting => self.after_reporting(event),
            ImportStage::Finished => self,
            ImportStage::Failed => self,
        };
        proof {
            use_type_invariant(&next);
        }
        next
    }

    /// What rendering makes of the bytes that `event` brings.
    fn render(&self, event: &ImportEvent) -> (thumbnail: Option<Vec<u8>>)
        ensures
            thumbnail.deep_view() == rendering(self@, event@),
    {
        proof {
            use_type_invariant(self);
        }
        match (&self.phase, event) {
            (Phase::Reading, ImportEvent::Source(bytes)) => match &self.run.current().extension {
                Some(extension) => match image_kind(extension.as_str()) {
                    Some(kind) => render_thumbnail(bytes.as_slice(), kind),
                    None => None,
                },
                None => None,
            },
            _ => None,
        }
    }

    /// Takes what happened to the pending request and moves on.
    ///
    /// The bytes of a `Source` event are rendered to a thumbnail in the format
    /// of the image's extension, and an image whose source was read, or could
    /// not be, gets a fresh identifier. The rest is what `react_given` does.
    pub fn react(self, event: ImportEvent) -> (next: Importer)
        ensures
            consistent(next@),
            exists|id: Seq<char>|
                {
                    &&& event@ is Source || event@ is SourceUnreadable ==> is_identifier(id)
                    &&& next@ == #[trigger] reacted(self@, event@, id, rendering(self@, event@))
                },
    {
        let thumbnail = self.render(&event);
        let id = match &event {
            ImportEvent::Source(_) => fresh_identifier(),
            ImportEvent::SourceUnreadable => fresh_identifier(),
            _ => String::new(),
        };
        self.react_given(event, id, thumbnail)
    }
}

} // verus!

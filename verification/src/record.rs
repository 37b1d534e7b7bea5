//! What an import tells of its images: one record for each image, and one
//! report for each batch of records.

use vstd::prelude::*;
use crate::batch::{lemma_percent_grows, percent_done, percent_of};
use crate::entry::{PathInfo, PathInfoView};
use crate::text::{text_or, text_or_default};

verus! {

/// What the import knows of one image.
#[derive(Clone, Debug, PartialEq, Eq)]
pub struct ThumbnailRecord {
    /// The identifier that the image got in this run.
    pub id: String,
    /// The path of the image.
    pub original_path: String,
    /// The path of its thumbnail, or of the image itself where no thumbnail
    /// could be made.
    pub thumbnail_path: String,
    /// The file name of the image.
    pub filename: String,
    /// The directory of the image as seen from the root of the scan.
    pub relative_path: String,
}

/// The model of a `ThumbnailRecord`.
pub struct ThumbnailRecordView {
    pub id: Seq<char>,
    pub original_path: Seq<char>,
    pub thumbnail_path: Seq<char>,
    pub filename: Seq<char>,
    pub relative_path: Seq<char>,
}

impl View for ThumbnailRecord {
    type V = ThumbnailRecordView;

    open spec fn view(&self) -> ThumbnailRecordView {
        ThumbnailRecordView {
            id: self.id@,
            original_path: self.original_path@,
            thumbnail_path: self.thumbnail_path@,
            filename: self.filename@,
            relative_path: self.relative_path@,
        }
    }
}

impl DeepView for ThumbnailRecord {
    type V = ThumbnailRecordView;

    open spec fn deep_view(&self) -> ThumbnailRecordView {
        self@
    }
}

/// What is told of one finished batch.
#[derive(Clone, Debug, PartialEq, Eq)]
pub struct BatchProgressReport {
    /// The index of the batch, counted from 0.
    pub batch: usize,
    /// The number of batches of the run.
    pub total_batches: usize,
    /// One record for each image of the batch, in the order of discovery.
    pub thumbnails: Vec<ThumbnailRecord>,
}

/// The model of a `BatchProgressReport`.
pub struct BatchProgressReportView {
    pub batch: nat,
    pub total_batches: nat,
    pub thumbnails: Seq<ThumbnailRecordView>,
}

impl View for BatchProgressReport {
    type V = BatchProgressReportView;

    open spec fn view(&self) -> BatchProgressReportView {
        BatchProgressReportView {
            batch: self.batch as nat,
            total_batches: self.total_batches as nat,
            thumbnails: self.thumbnails.deep_view(),
        }
    }
}

/// The record of `image` with the identifier `id` and the thumbnail at
/// `thumbnail_path`. An image without a file name in text is called
/// `unknown`; one without a relative directory in text lies in the empty one.
pub open spec fn record_of(
    id: Seq<char>,
    image: PathInfoView,
    thumbnail_path: Seq<char>,
) -> ThumbnailRecordView {
    ThumbnailRecordView {
        id,
        original_path: image.full,
        thumbnail_path,
        filename: text_or(image.file_name, "unknown"@),
        relative_path: text_or(image.relative_parent, ""@),
    }
}

/// The record of an image for which no thumbnail could be made: the image
/// stands in for its thumbnail.
pub open spec fn degraded_record(id: Seq<char>, image: PathInfoView) -> ThumbnailRecordView {
    record_of(id, image, image.full)
}

/// A record says of `image` what the import knows of it.
pub open spec fn matches_image(record: ThumbnailRecordView, image: PathInfoView) -> bool {
    &&& record.original_path == image.full
    &&& record.filename == text_or(image.file_name, "unknown"@)
    &&& record.relative_path == text_or(image.relative_parent, ""@)
}

impl ThumbnailRecord {
    /// The record of `image` under the identifier `id`. `thumbnail_path` is
    /// where its thumbnail lies; with none the image stands in for it.
    pub fn new(id: String, image: &PathInfo, thumbnail_path: Option<String>) -> (record:
        ThumbnailRecord)
        ensures
            record@ == match thumbnail_path {
                Some(path) => record_of(id@, image@, path@),
                None => degraded_record(id@, image@),
            },
            matches_image(record@, image@),
    {
        let thumbnail_path = match thumbnail_path {
            Some(path) => path,
            None => image.full.clone(),
        };
        ThumbnailRecord {
            id,
            original_path: image.full.clone(),
            thumbnail_path,
            filename: text_or_default(&image.file_name, "unknown"),
            relative_path: text_or_default(&image.relative_parent, ""),
        }
    }
}

/// The share of the run that is done with a report, in whole percent: the
/// batches up to and with the reported one, out of all. A report that names no
/// later batch stands for the whole run.
pub open spec fn report_percent(report: BatchProgressReportView) -> nat {
    if report.batch + 1 >= report.total_batches {
        100
    } else {
        percent_done(report.batch + 1, report.total_batches)
    }
}

impl BatchProgressReport {
    /// The share of the run that is done with this report, in whole percent.
    pub fn percent(&self) -> (percent: u8)
        ensures
            percent == report_percent(self@),
            percent <= 100,
    {
        if self.batch >= self.total_batches || self.batch + 1 >= self.total_batches {
            100
        } else {
            proof {
                lemma_percent_grows(
                    (self.batch + 1) as nat,
                    (self.batch + 1) as nat,
                    self.total_batches as nat,
                );
            }
            percent_of(self.batch + 1, self.total_batches)
        }
    }
}

} // verus!

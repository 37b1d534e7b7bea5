use std::collections::{HashMap, HashSet};
use std::io::Cursor;
use std::path::Path;

use drawstack::entry::{DirEntry, EntryKind, PathInfo};
use drawstack::import::{ImportError, ImportEvent, ImportStage};
use drawstack::importer::Importer;
use drawstack::record::{BatchProgressReport, ThumbnailRecord};
use drawstack::scan::{ListOutcome, ScanError};

fn info(path: &str, root: &str) -> PathInfo {
    let p = Path::new(path);
    PathInfo {
        full: p.to_string_lossy().to_string(),
        file_name: p.file_name().and_then(|n| n.to_str()).map(|n| n.to_string()),
        extension: p.extension().and_then(|e| e.to_str()).map(|e| e.to_string()),
        parent: p.parent().map(|d| d.to_string_lossy().to_string()),
        parent_name: p
            .parent()
            .and_then(|d| d.file_name())
            .and_then(|n| n.to_str())
            .map(|n| n.to_string()),
        relative_parent: p
            .strip_prefix(root)
            .ok()
            .and_then(|r| r.parent())
            .and_then(|d| d.to_str())
            .map(|d| d.to_string()),
    }
}

fn png(width: u32, height: u32) -> Vec<u8> {
    let buffer = image::RgbImage::from_pixel(width, height, image::Rgb([200, 100, 50]));
    let mut out = Cursor::new(Vec::new());
    image::DynamicImage::ImageRgb8(buffer).write_to(&mut out, image::ImageFormat::Png).unwrap();
    out.into_inner()
}

/// What the importer meets outside: a tree of directories, files with their
/// bytes, and the faults that are to happen.
struct World {
    root: String,
    directories: HashMap<String, Vec<(String, EntryKind)>>,
    files: HashMap<String, Vec<u8>>,
    output_fault: Option<String>,
    store_faults: HashSet<usize>,
    delivery_fault: Option<(usize, String)>,
    prepared: usize,
    stored: Vec<(String, Vec<u8>)>,
    reports: Vec<BatchProgressReport>,
}

impl World {
    fn new(root: &str) -> World {
        World {
            root: root.to_string(),
            directories: HashMap::new(),
            files: HashMap::new(),
            output_fault: None,
            store_faults: HashSet::new(),
            delivery_fault: None,
            prepared: 0,
            stored: Vec::new(),
            reports: Vec::new(),
        }
    }

    fn flat(root: &str, count: usize) -> World {
        let mut world = World::new(root);
        let small = png(4, 4);
        let mut entries = Vec::new();
        for i in 0..count {
            let name = format!("img{:04}.png", i);
            world.files.insert(format!("{}/{}", root, name), small.clone());
            entries.push((name, EntryKind::File));
        }
        world.directories.insert(root.to_string(), entries);
        world
    }

    fn list(&self, directory: &str) -> ListOutcome {
        match self.directories.get(directory) {
            None => ListOutcome::Missing,
            Some(entries) => ListOutcome::Entries(
                entries
                    .iter()
                    .map(|(name, kind)| DirEntry {
                        path: info(&format!("{}/{}", directory, name), &self.root),
                        kind: *kind,
                    })
                    .collect(),
            ),
        }
    }

    /// Does what the importer waits for and says what happened. `None` once
    /// the importer waits for nothing.
    fn answer(&mut self, importer: &Importer) -> Option<ImportEvent> {
        Some(match importer.stage() {
            ImportStage::Scanning => {
                ImportEvent::Listed(self.list(importer.pending_directory().unwrap()))
            },
            ImportStage::Preparing => {
                self.prepared += 1;
                match &self.output_fault {
                    Some(reason) => ImportEvent::OutputFailed(reason.clone()),
                    None => ImportEvent::OutputReady,
                }
            },
            ImportStage::Reading => match self.files.get(importer.source_path().unwrap()) {
                Some(bytes) => ImportEvent::Source(bytes.clone()),
                None => ImportEvent::SourceUnreadable,
            },
            ImportStage::Storing => {
                let name = importer.thumbnail_file().unwrap();
                let bytes = importer.thumbnail_bytes().unwrap().clone();
                if self.store_faults.contains(&self.stored.len()) {
                    self.stored.push((String::new(), Vec::new()));
                    ImportEvent::StoreFailed
                } else {
                    let path = format!("/thumbs/{}", name);
                    self.stored.push((path.clone(), bytes));
                    ImportEvent::Stored(path)
                }
            },
            ImportStage::Reporting => {
                let report = importer.report().unwrap().clone();
                let index = report.batch;
                self.reports.push(report);
                match &self.delivery_fault {
                    Some((batch, reason)) if *batch == index => {
                        ImportEvent::DeliveryFailed(reason.clone())
                    },
                    _ => ImportEvent::Delivered,
                }
            },
            ImportStage::Finished | ImportStage::Failed => return None,
        })
    }

    fn import(&mut self, batch_size: usize) -> Result<(), ImportError> {
        let mut importer = Importer::begin(self.root.clone(), batch_size);
        while let Some(event) = self.answer(&importer) {
            importer = importer.react(event);
        }
        match importer.failure() {
            Some(error) => Err(error.clone()),
            None => {
                assert_eq!(importer.stage(), ImportStage::Finished);
                Ok(())
            },
        }
    }
}

fn is_identifier(id: &str) -> bool {
    let bytes = id.as_bytes();
    bytes.len() == 36
        && bytes.iter().enumerate().all(|(i, b)| match i {
            8 | 13 | 18 | 23 => *b == b'-',
            _ => b.is_ascii_digit() || (b'a'..=b'f').contains(b),
        })
        && bytes[14] == b'4'
        && matches!(bytes[19], b'8' | b'9' | b'a' | b'b')
}

fn progress(report: &BatchProgressReport) -> f32 {
    ((report.batch + 1) as f32 / report.total_batches as f32) * 100.0
}

#[test]
fn import_of_250_images_in_batches_of_100() {
    let mut world = World::flat("/pack", 250);
    assert_eq!(world.import(100), Ok(()));
    let sizes: Vec<usize> = world.reports.iter().map(|r| r.thumbnails.len()).collect();
    assert_eq!(sizes, vec![100, 100, 50]);
    let indices: Vec<usize> = world.reports.iter().map(|r| r.batch).collect();
    assert_eq!(indices, vec![0, 1, 2]);
    assert!(world.reports.iter().all(|r| r.total_batches == 3));
    let percents: Vec<u8> = world.reports.iter().map(|r| r.percent()).collect();
    assert_eq!(percents, vec![33, 66, 100]);
    assert_eq!(progress(world.reports.last().unwrap()), 100.0);
    assert_eq!(world.prepared, 1);
    assert_eq!(world.stored.len(), 250);
}

#[test]
fn import_records_every_image_once_and_in_order() {
    let mut world = World::flat("/pack", 250);
    world.import(100).unwrap();
    let records: Vec<&ThumbnailRecord> =
        world.reports.iter().flat_map(|r| r.thumbnails.iter()).collect();
    assert_eq!(records.len(), 250);
    for (i, record) in records.iter().enumerate() {
        assert_eq!(record.original_path, format!("/pack/img{:04}.png", i));
        assert_eq!(record.filename, format!("img{:04}.png", i));
        assert_eq!(record.relative_path, "");
        assert!(is_identifier(&record.id), "{:?}", record.id);
        assert_eq!(record.thumbnail_path, format!("/thumbs/{}.jpg", record.id));
        assert_eq!(world.stored[i].0, record.thumbnail_path);
        assert_eq!(&world.stored[i].1[..2], &[0xff, 0xd8]);
    }
    let ids: HashSet<&String> = records.iter().map(|r| &r.id).collect();
    assert_eq!(ids.len(), 250);
}

#[test]
fn import_progress_never_falls_and_ends_at_100() {
    for (count, size) in [(1, 100), (7, 3), (9, 3), (10, 1), (100, 100), (101, 100), (64, 7)] {
        let mut world = World::flat("/pack", count);
        world.import(size).unwrap();
        assert_eq!(world.reports.len(), (count + size - 1) / size);
        let mut total = 0;
        let mut last = 0.0;
        let mut last_percent = 0;
        for (k, report) in world.reports.iter().enumerate() {
            assert_eq!(report.batch, k);
            assert_eq!(report.total_batches, world.reports.len());
            assert!(report.thumbnails.len() >= 1 && report.thumbnails.len() <= size);
            assert!(progress(report) >= last);
            assert!(report.percent() >= last_percent);
            last = progress(report);
            last_percent = report.percent();
            total += report.thumbnails.len();
        }
        assert_eq!(total, count);
        assert_eq!(last, 100.0);
        assert_eq!(last_percent, 100);
    }
}

#[test]
fn import_of_a_tree_without_images_reports_nothing() {
    let mut world = World::new("/pack");
    world.directories.insert(
        "/pack".to_string(),
        vec![("readme.txt".to_string(), EntryKind::File), ("sub".to_string(), EntryKind::Directory)],
    );
    world.directories.insert("/pack/sub".to_string(), vec![]);
    assert_eq!(world.import(100), Ok(()));
    assert!(world.reports.is_empty());
    assert_eq!(world.prepared, 0);
    assert!(world.stored.is_empty());
}

#[test]
fn import_fails_when_root_does_not_exist() {
    let mut world = World::new("/nowhere");
    let error = world.import(100).unwrap_err();
    assert_eq!(error, ImportError::PathNotFound { path: "/nowhere".to_string() });
    assert_eq!(
        error.message(),
        ScanError::PathNotFound { path: "/nowhere".to_string() }.message()
    );
    assert_eq!(error.message(), "Path does not exist: /nowhere");
    assert!(world.reports.is_empty());
    assert_eq!(world.prepared, 0);
}

#[test]
fn import_fails_with_the_error_of_an_unreadable_directory() {
    let mut importer = Importer::begin("/pack".to_string(), 100);
    importer = importer.react(ImportEvent::Listed(ListOutcome::Entries(vec![
        DirEntry { path: info("/pack/a.png", "/pack"), kind: EntryKind::File },
        DirEntry { path: info("/pack/locked", "/pack"), kind: EntryKind::Directory },
    ])));
    assert_eq!(importer.stage(), ImportStage::Scanning);
    assert_eq!(importer.pending_directory(), Some(&"/pack/locked".to_string()));
    importer = importer.react(ImportEvent::Listed(ListOutcome::Unreadable("denied".to_string())));
    assert_eq!(importer.stage(), ImportStage::Failed);
    let error = importer.failure().unwrap();
    assert_eq!(
        error,
        &ImportError::DirectoryUnreadable {
            path: "/pack/locked".to_string(),
            reason: "denied".to_string()
        }
    );
    assert_eq!(error.message(), "Failed to read directory /pack/locked: denied");
    assert_eq!(importer.report(), None);
    assert_eq!(importer.image_count(), 0);
}

#[test]
fn a_corrupt_image_keeps_its_place_in_the_batch() {
    let mut world = World::flat("/pack", 3);
    let whole = png(4, 4);
    world.files.insert("/pack/img0001.png".to_string(), whole[..whole.len() / 2].to_vec());
    assert_eq!(world.import(100), Ok(()));
    assert_eq!(world.reports.len(), 1);
    let records = &world.reports[0].thumbnails;
    assert_eq!(records.len(), 3);
    assert_eq!(records[1].original_path, "/pack/img0001.png");
    assert_eq!(records[1].thumbnail_path, "/pack/img0001.png");
    assert!(is_identifier(&records[1].id));
    assert_eq!(records[0].thumbnail_path, format!("/thumbs/{}.jpg", records[0].id));
    assert_eq!(records[2].thumbnail_path, format!("/thumbs/{}.jpg", records[2].id));
    assert_eq!(world.stored.len(), 2);
}

#[test]
fn an_image_that_cannot_be_read_is_recorded_with_its_own_path() {
    let mut world = World::flat("/pack", 4);
    world.files.remove("/pack/img0002.png");
    world.import(2).unwrap();
    let sizes: Vec<usize> = world.reports.iter().map(|r| r.thumbnails.len()).collect();
    assert_eq!(sizes, vec![2, 2]);
    let record = &world.reports[1].thumbnails[0];
    assert_eq!(record.original_path, "/pack/img0002.png");
    assert_eq!(record.thumbnail_path, "/pack/img0002.png");
    assert_eq!(record.filename, "img0002.png");
}

#[test]
fn a_thumbnail_that_cannot_be_written_is_recorded_with_the_path_of_the_image() {
    let mut world = World::flat("/pack", 3);
    world.store_faults.insert(0);
    world.store_faults.insert(2);
    world.import(100).unwrap();
    let records = &world.reports[0].thumbnails;
    assert_eq!(records.len(), 3);
    assert_eq!(records[0].thumbnail_path, "/pack/img0000.png");
    assert_eq!(records[1].thumbnail_path, format!("/thumbs/{}.jpg", records[1].id));
    assert_eq!(records[2].thumbnail_path, "/pack/img0002.png");
}

#[test]
fn an_image_is_decoded_in_the_format_of_its_extension() {
    let mut world = World::new("/pack");
    world.directories.insert(
        "/pack".to_string(),
        vec![("really-a-png.jpg".to_string(), EntryKind::File), ("fine.PNG".to_string(), EntryKind::File)],
    );
    world.files.insert("/pack/really-a-png.jpg".to_string(), png(4, 4));
    world.files.insert("/pack/fine.PNG".to_string(), png(4, 4));
    world.import(100).unwrap();
    let records = &world.reports[0].thumbnails;
    assert_eq!(records[0].thumbnail_path, "/pack/really-a-png.jpg");
    assert_eq!(records[1].thumbnail_path, format!("/thumbs/{}.jpg", records[1].id));
}

#[test]
fn import_fails_when_the_output_directory_cannot_be_made() {
    let mut world = World::flat("/pack", 5);
    world.output_fault = Some("read-only file system".to_string());
    let error = world.import(2).unwrap_err();
    assert_eq!(
        error,
        ImportError::OutputDirectoryUnwritable { reason: "read-only file system".to_string() }
    );
    assert_eq!(error.message(), "Failed to create thumbnails dir: read-only file system");
    assert!(world.reports.is_empty());
    assert!(world.stored.is_empty());
}

#[test]
fn import_stops_at_a_report_that_is_not_taken() {
    let mut world = World::flat("/pack", 7);
    world.delivery_fault = Some((1, "window closed".to_string()));
    let error = world.import(3).unwrap_err();
    assert_eq!(
        error,
        ImportError::DeliveryFailed { batch: 1, reason: "window closed".to_string() }
    );
    assert_eq!(error.message(), "Failed to emit event: window closed");
    // The first report was taken, the second was handed out and refused, the
    // third was never made.
    let indices: Vec<usize> = world.reports.iter().map(|r| r.batch).collect();
    assert_eq!(indices, vec![0, 1]);
    assert_eq!(world.stored.len(), 6);
}

#[test]
fn images_of_folders_carry_their_relative_directory() {
    let mut world = World::new("/top/pack");
    world.directories.insert(
        "/top/pack".to_string(),
        vec![("a.png".to_string(), EntryKind::File), ("sub".to_string(), EntryKind::Directory)],
    );
    world.directories.insert(
        "/top/pack/sub".to_string(),
        vec![("deep".to_string(), EntryKind::Directory), ("b.png".to_string(), EntryKind::File)],
    );
    world.directories.insert("/top/pack/sub/deep".to_string(), vec![("c.png".to_string(), EntryKind::File)]);
    for path in ["/top/pack/a.png", "/top/pack/sub/b.png", "/top/pack/sub/deep/c.png"] {
        world.files.insert(path.to_string(), png(2, 2));
    }
    world.import(100).unwrap();
    let seen: Vec<(String, String, String)> = world.reports[0]
        .thumbnails
        .iter()
        .map(|r| (r.original_path.clone(), r.filename.clone(), r.relative_path.clone()))
        .collect();
    assert_eq!(
        seen,
        vec![
            ("/top/pack/a.png".to_string(), "a.png".to_string(), "".to_string()),
            ("/top/pack/sub/deep/c.png".to_string(), "c.png".to_string(), "sub/deep".to_string()),
            ("/top/pack/sub/b.png".to_string(), "b.png".to_string(), "sub".to_string()),
        ]
    );
}

#[test]
fn a_record_falls_back_on_names_that_are_no_text() {
    let mut image = info("/pack/a.png", "/pack");
    image.file_name = None;
    image.relative_parent = None;
    let record = ThumbnailRecord::new("id-1".to_string(), &image, Some("/thumbs/id-1.jpg".to_string()));
    assert_eq!(
        record,
        ThumbnailRecord {
            id: "id-1".to_string(),
            original_path: "/pack/a.png".to_string(),
            thumbnail_path: "/thumbs/id-1.jpg".to_string(),
            filename: "unknown".to_string(),
            relative_path: "".to_string(),
        }
    );
    let degraded = ThumbnailRecord::new("id-2".to_string(), &info("/pack/sub/b.png", "/pack"), None);
    assert_eq!(
        degraded,
        ThumbnailRecord {
            id: "id-2".to_string(),
            original_path: "/pack/sub/b.png".to_string(),
            thumbnail_path: "/pack/sub/b.png".to_string(),
            filename: "b.png".to_string(),
            relative_path: "sub".to_string(),
        }
    );
}

fn listed(names: &[&str]) -> ImportEvent {
    ImportEvent::Listed(ListOutcome::Entries(
        names
            .iter()
            .map(|n| DirEntry { path: info(&format!("/pack/{}", n), "/pack"), kind: EntryKind::File })
            .collect(),
    ))
}

#[test]
fn the_steps_of_an_import_with_given_identifiers() {
    let none = || String::new();
    let importer = Importer::begin("/pack".to_string(), 2);
    assert_eq!(importer.stage(), ImportStage::Scanning);
    assert_eq!(importer.pending_directory(), Some(&"/pack".to_string()));
    assert_eq!(importer.image_count(), 0);

    let importer = importer.react_given(listed(&["a.png", "b.gif", "c.jpg"]), none(), None);
    assert_eq!(importer.stage(), ImportStage::Preparing);
    assert_eq!(importer.image_count(), 3);
    assert_eq!(importer.pending_directory(), None);

    let importer = importer.react_given(ImportEvent::OutputReady, none(), None);
    assert_eq!(importer.stage(), ImportStage::Reading);
    assert_eq!(importer.source_path(), Some(&"/pack/a.png".to_string()));

    let importer =
        importer.react_given(ImportEvent::Source(vec![1, 2, 3]), "id-a".to_string(), Some(vec![9, 8, 7]));
    assert_eq!(importer.stage(), ImportStage::Storing);
    assert_eq!(importer.thumbnail_file(), Some("id-a.jpg".to_string()));
    assert_eq!(importer.thumbnail_bytes(), Some(&vec![9, 8, 7]));
    assert_eq!(importer.source_path(), None);

    let importer = importer.react_given(ImportEvent::Stored("/t/id-a.jpg".to_string()), none(), None);
    assert_eq!(importer.stage(), ImportStage::Reading);
    assert_eq!(importer.source_path(), Some(&"/pack/b.gif".to_string()));
    assert_eq!(importer.report(), None);

    let importer = importer.react_given(ImportEvent::Source(vec![1]), "id-b".to_string(), None);
    assert_eq!(importer.stage(), ImportStage::Reporting);
    assert_eq!(
        importer.report(),
        Some(&BatchProgressReport {
            batch: 0,
            total_batches: 2,
            thumbnails: vec![
                ThumbnailRecord {
                    id: "id-a".to_string(),
                    original_path: "/pack/a.png".to_string(),
                    thumbnail_path: "/t/id-a.jpg".to_string(),
                    filename: "a.png".to_string(),
                    relative_path: "".to_string(),
                },
                ThumbnailRecord {
                    id: "id-b".to_string(),
                    original_path: "/pack/b.gif".to_string(),
                    thumbnail_path: "/pack/b.gif".to_string(),
                    filename: "b.gif".to_string(),
                    relative_path: "".to_string(),
                },
            ],
        })
    );

    let importer = importer.react_given(ImportEvent::Delivered, none(), None);
    assert_eq!(importer.stage(), ImportStage::Reading);
    assert_eq!(importer.source_path(), Some(&"/pack/c.jpg".to_string()));

    let importer = importer.react_given(ImportEvent::SourceUnreadable, "id-c".to_string(), None);
    assert_eq!(importer.stage(), ImportStage::Reporting);
    let report = importer.report().unwrap();
    assert_eq!(report.batch, 1);
    assert_eq!(report.total_batches, 2);
    assert_eq!(report.thumbnails.len(), 1);
    assert_eq!(report.thumbnails[0].id, "id-c");
    assert_eq!(report.thumbnails[0].thumbnail_path, "/pack/c.jpg");
    assert_eq!(report.percent(), 100);

    let importer = importer.react_given(ImportEvent::Delivered, none(), None);
    assert_eq!(importer.stage(), ImportStage::Finished);
    assert_eq!(importer.failure(), None);
    assert_eq!(importer.report(), None);
}

#[test]
fn an_event_that_answers_nothing_changes_nothing() {
    let importer = Importer::begin("/pack".to_string(), 2);
    let importer = importer.react(ImportEvent::Delivered);
    let importer = importer.react(ImportEvent::OutputReady);
    let importer = importer.react(ImportEvent::Source(png(2, 2)));
    let importer = importer.react(ImportEvent::Stored("/x".to_string()));
    assert_eq!(importer.stage(), ImportStage::Scanning);
    assert_eq!(importer.pending_directory(), Some(&"/pack".to_string()));

    let importer = importer.react(listed(&["a.png"]));
    let importer = importer.react(listed(&["b.png", "c.png"]));
    let importer = importer.react(ImportEvent::SourceUnreadable);
    let importer = importer.react(ImportEvent::DeliveryFailed("no".to_string()));
    assert_eq!(importer.stage(), ImportStage::Preparing);
    assert_eq!(importer.image_count(), 1);

    let importer = importer.react(ImportEvent::OutputReady);
    let importer = importer.react(ImportEvent::OutputFailed("late".to_string()));
    let importer = importer.react(ImportEvent::StoreFailed);
    let importer = importer.react(ImportEvent::Delivered);
    assert_eq!(importer.stage(), ImportStage::Reading);
    assert_eq!(importer.source_path(), Some(&"/pack/a.png".to_string()));

    let importer = importer.react(ImportEvent::SourceUnreadable);
    assert_eq!(importer.stage(), ImportStage::Reporting);
    let importer = importer.react(ImportEvent::SourceUnreadable);
    let importer = importer.react(ImportEvent::StoreFailed);
    assert_eq!(importer.stage(), ImportStage::Reporting);
    assert_eq!(importer.report().unwrap().thumbnails.len(), 1);

    let importer = importer.react(ImportEvent::Delivered);
    assert_eq!(importer.stage(), ImportStage::Finished);
    let importer = importer.react(ImportEvent::Delivered);
    let importer = importer.react(listed(&["z.png"]));
    assert_eq!(importer.stage(), ImportStage::Finished);
    assert_eq!(importer.image_count(), 1);
}

#[test]
fn an_import_that_failed_stays_failed() {
    let importer = Importer::begin("/pack".to_string(), 2);
    let importer = importer.react(ImportEvent::Listed(ListOutcome::Missing));
    assert_eq!(importer.stage(), ImportStage::Failed);
    let importer = importer.react(listed(&["a.png"]));
    let importer = importer.react(ImportEvent::OutputReady);
    assert_eq!(importer.stage(), ImportStage::Failed);
    assert_eq!(importer.failure(), Some(&ImportError::PathNotFound { path: "/pack".to_string() }));
}

#[test]
fn a_scan_error_becomes_the_same_import_error() {
    assert_eq!(
        ImportError::from_scan(ScanError::PathNotFound { path: "/x".to_string() }),
        ImportError::PathNotFound { path: "/x".to_string() }
    );
    let unreadable = ScanError::DirectoryUnreadable { path: "/x".to_string(), reason: "why".to_string() };
    let message = unreadable.message();
    assert_eq!(ImportError::from_scan(unreadable).message(), message);
}

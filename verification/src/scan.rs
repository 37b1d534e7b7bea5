//! The walk over a directory tree that collects its images.
//!
//! A `Scanner` never touches the file system. It names the directory whose
//! listing it waits for; the caller lists that directory and hands the outcome
//! to `accept`, until the scanner is done or has failed.

use vstd::prelude::*;
use crate::entry::{
    is_image_entry, is_image_path, DirEntry, DirEntryView, EntryKind, PathInfo, PathInfoView,
};

verus! {

/// Why a scan stopped early.
#[derive(Clone, Debug, PartialEq, Eq)]
pub enum ScanError {
    /// The directory does not exist.
    PathNotFound { path: String },
    /// The directory exists and could not be listed.
    DirectoryUnreadable { path: String, reason: String },
}

/// The model of a `ScanError`.
pub enum ScanErrorView {
    PathNotFound { path: Seq<char> },
    DirectoryUnreadable { path: Seq<char>, reason: Seq<char> },
}

/// What is shown of a scan that failed.
pub open spec fn scan_message(error: ScanErrorView) -> Seq<char> {
    match error {
        ScanErrorView::PathNotFound { path } => "Path does not exist: "@ + path,
        ScanErrorView::DirectoryUnreadable { path, reason } => "Failed to read directory "@ + path
            + ": "@ + reason,
    }
}

impl ScanError {
    /// The error as a line of text.
    pub fn message(&self) -> (text: String)
        ensures
            text@ == scan_message(self@),
    {
        match self {
            ScanError::PathNotFound { path } => {
                let mut text = "Path does not exist: ".to_owned();
                text.append(path.as_str());
                text
            },
            ScanError::DirectoryUnreadable { path, reason } => {
                let mut text = "Failed to read directory ".to_owned();
                text.append(path.as_str());
                text.append(": ");
                text.append(reason.as_str());
                text
            },
        }
    }
}

impl View for ScanError {
    type V = ScanErrorView;

    open spec fn view(&self) -> ScanErrorView {
        match self {
            ScanError::PathNotFound { path } => ScanErrorView::PathNotFound { path: path@ },
            ScanError::DirectoryUnreadable { path, reason } => ScanErrorView::DirectoryUnreadable {
                path: path@,
                reason: reason@,
            },
        }
    }
}

/// What came of listing one directory.
#[derive(Clone, Debug, PartialEq, Eq)]
pub enum ListOutcome {
    /// The entries of the directory, in the order in which the platform gave
    /// them.
    Entries(Vec<DirEntry>),
    /// There is no such directory.
    Missing,
    /// The directory could not be listed; the text says why.
    Unreadable(String),
}

/// The model of a `ListOutcome`.
pub enum ListOutcomeView {
    Entries(Seq<DirEntryView>),
    Missing,
    Unreadable(Seq<char>),
}

impl View for ListOutcome {
    type V = ListOutcomeView;

    open spec fn view(&self) -> ListOutcomeView {
        match self {
            ListOutcome::Entries(entries) => ListOutcomeView::Entries(entries.deep_view()),
            ListOutcome::Missing => ListOutcomeView::Missing,
            ListOutcome::Unreadable(reason) => ListOutcomeView::Unreadable(reason@),
        }
    }
}

/// Where a scan stands.
#[derive(Clone, Debug, PartialEq, Eq)]
pub enum ScanStatus {
    /// The scanner waits for the listing of this directory.
    Listing(String),
    /// Every directory has been listed.
    Done,
    /// The scan was given up.
    Failed(ScanError),
}

/// The model of a `ScanStatus`.
pub enum ScanStatusView {
    Listing(Seq<char>),
    Done,
    Failed(ScanErrorView),
}

impl View for ScanStatus {
    type V = ScanStatusView;

    open spec fn view(&self) -> ScanStatusView {
        match self {
            ScanStatus::Listing(directory) => ScanStatusView::Listing(directory@),
            ScanStatus::Done => ScanStatusView::Done,
            ScanStatus::Failed(error) => ScanStatusView::Failed(error@),
        }
    }
}

/// A directory that is being walked: its entries, and how many of them the
/// walk has passed.
pub struct Frame {
    entries: Vec<DirEntry>,
    next: usize,
}

/// The model of a directory that is being walked.
pub struct FrameView {
    pub entries: Seq<DirEntryView>,
    pub next: nat,
}

impl DeepView for Frame {
    type V = FrameView;

    closed spec fn deep_view(&self) -> FrameView {
        FrameView { entries: self.entries.deep_view(), next: self.next as nat }
    }
}

/// The model of a `Scanner`.
pub struct ScannerView {
    pub status: ScanStatusView,
    /// The directories that are being walked, the outermost first.
    pub frames: Seq<FrameView>,
    /// The images found so far, in the order of the walk.
    pub found: Seq<PathInfoView>,
}

/// A depth-first walk that collects the images of a tree.
pub struct Scanner {
    status: ScanStatus,
    frames: Vec<Frame>,
    found: Vec<PathInfo>,
}

impl View for Scanner {
    type V = ScannerView;

    closed spec fn view(&self) -> ScannerView {
        ScannerView {
            status: self.status@,
            frames: self.frames.deep_view(),
            found: self.found.deep_view(),
        }
    }
}

/// A scan of `root` before anything was listed.
pub open spec fn started(root: Seq<char>) -> ScannerView {
    ScannerView {
        status: ScanStatusView::Listing(root),
        frames: Seq::empty(),
        found: Seq::empty(),
    }
}

/// The walk from state `s` up to the next directory, or to its end.
///
/// Entries are taken in the order of their listing. A directory stops the walk:
/// its listing is asked for, and its entries come before the entries that
/// follow it. A file that is an image is added to what was found. A directory
/// whose entries are all passed is left for the one above it. With no directory
/// left the scan is done.
pub open spec fn settled(s: ScannerView) -> ScannerView
    decreases s.frames.len(),
        if s.frames.len() > 0 {
            s.frames.last().entries.len() - s.frames.last().next
        } else {
            0
        },
{
    if s.frames.len() == 0 {
        ScannerView { status: ScanStatusView::Done, ..s }
    } else {
        let top = s.frames.last();
        if top.next >= top.entries.len() {
            settled(ScannerView { frames: s.frames.drop_last(), ..s })
        } else {
            let entry = top.entries[top.next as int];
            let passed = s.frames.drop_last().push(FrameView { next: top.next + 1, ..top });
            if entry.kind == EntryKind::Directory {
                ScannerView {
                    status: ScanStatusView::Listing(entry.path.full),
                    frames: passed,
                    found: s.found,
                }
            } else if is_image_entry(entry) {
                settled(ScannerView { frames: passed, found: s.found.push(entry.path), ..s })
            } else {
                settled(ScannerView { frames: passed, ..s })
            }
        }
    }
}

/// The state that follows `s` once the outcome of the listing it waited for is
/// known.
///
/// A scan that is done or has failed stays as it is. Entries are walked, as
/// `settled` says. A directory that is missing or cannot be listed ends the
/// whole scan with the error that names it.
pub open spec fn advanced(s: ScannerView, outcome: ListOutcomeView) -> ScannerView {
    match s.status {
        ScanStatusView::Listing(directory) => match outcome {
            ListOutcomeView::Entries(entries) => settled(
                ScannerView { frames: s.frames.push(FrameView { entries, next: 0 }), ..s },
            ),
            ListOutcomeView::Missing => ScannerView {
                status: ScanStatusView::Failed(ScanErrorView::PathNotFound { path: directory }),
                ..s
            },
            ListOutcomeView::Unreadable(reason) => ScannerView {
                status: ScanStatusView::Failed(
                    ScanErrorView::DirectoryUnreadable { path: directory, reason },
                ),
                ..s
            },
        },
        _ => s,
    }
}

impl Scanner {
    /// A scan of the tree under `root`. It waits for the listing of `root`.
    pub fn begin(root: String) -> (scanner: Scanner)
        ensures
            scanner@ == started(root@),
    {
        let scanner = Scanner {
            status: ScanStatus::Listing(root),
            frames: Vec::new(),
            found: Vec::new(),
        };
        assert(scanner@.frames =~= Seq::empty());
        assert(scanner@.found =~= Seq::empty());
        scanner
    }

    /// Where the scan stands.
    pub fn status(&self) -> (status: &ScanStatus)
        ensures
            status@ == self@.status,
    {
        &self.status
    }

    /// The directory whose listing the scan waits for, if it waits for one.
    pub fn pending(&self) -> (directory: Option<&String>)
        ensures
            match self@.status {
                ScanStatusView::Listing(path) => directory matches Some(d) && d@ == path,
                _ => directory is None,
            },
    {
        match &self.status {
            ScanStatus::Listing(directory) => Some(directory),
            _ => None,
        }
    }

    /// Ends the scan and hands out what came of it: the images in the order of
    /// the walk, or the error. A scan that still waits for a listing comes back
    /// as it is.
    pub fn finish(self) -> (end: Result<Result<Vec<PathInfo>, ScanError>, Scanner>)
        ensures
            match end {
                Ok(Ok(found)) => self@.status is Done && found.deep_view() == self@.found,
                Ok(Err(error)) => self@.status == ScanStatusView::Failed(error@),
                Err(scanner) => self@.status is Listing && scanner@ == self@,
            },
    {
        match self.status {
            ScanStatus::Listing(directory) => Err(
                Scanner {
                    status: ScanStatus::Listing(directory),
                    frames: self.frames,
                    found: self.found,
                },
            ),
            ScanStatus::Done => Ok(Ok(self.found)),
            ScanStatus::Failed(error) => Ok(Err(error)),
        }
    }

    /// Takes the outcome of listing the pending directory and walks on.
    pub fn accept(&mut self, outcome: ListOutcome)
        ensures
            final(self)@ == advanced(old(self)@, outcome@),
    {
        let directory = match &self.status {
            ScanStatus::Listing(directory) => directory.clone(),
            _ => {
                return ;
            },
        };
        match outcome {
            ListOutcome::Entries(entries) => {
                let ghost before = self@;
                self.frames.push(Frame { entries, next: 0 });
                assert(self@.frames =~= before.frames.push(
                    FrameView { entries: entries.deep_view(), next: 0 },
                ));
                self.settle();
            },
            ListOutcome::Missing => {
                self.status = ScanStatus::Failed(ScanError::PathNotFound { path: directory });
            },
            ListOutcome::Unreadable(reason) => {
                self.status = ScanStatus::Failed(
                    ScanError::DirectoryUnreadable { path: directory, reason },
                );
            },
        }
    }

    fn settle(&mut self)
        ensures
            final(self)@ == settled(old(self)@),
    {
        loop
            invariant_except_break
                settled(self@) == settled(old(self)@),
            ensures
                self@ == settled(old(self)@),
            decreases
                self.frames.len(),
                if self.frames.len() > 0 {
                    self.frames@.last().entries.len() - self.frames@.last().next
                } else {
                    0
                },
        {
            let ghost s = self@;
            let mut top = match self.frames.pop() {
                Some(top) => top,
                None => {
                    self.status = ScanStatus::Done;
                    assert(self@.frames =~= s.frames);
                    break ;
                },
            };
            assert(s.frames.len() > 0);
            assert(top.deep_view() == s.frames.last());
            assert(self@.frames =~= s.frames.drop_last());
            if top.next >= top.entries.len() {
                continue ;
            }
            let at = top.next;
            let entry = &top.entries[at];
            assert(top.entries.deep_view()[at as int] == entry@);
            let directory = match entry.kind {
                EntryKind::Directory => Some(entry.path.full.clone()),
                _ => None,
            };
            let image = if entry.is_image() {
                Some(entry.path.duplicate())
            } else {
                None
            };
            top.next = at + 1;
            let ghost passed = top.deep_view();
            self.frames.push(top);
            assert(self@.frames =~= s.frames.drop_last().push(passed));
            if let Some(directory) = directory {
                self.status = ScanStatus::Listing(directory);
                break ;
            }
            if let Some(path) = image {
                let ghost found = self@.found;
                self.found.push(path);
                assert(self@.found =~= found.push(path@));
            }
        }
    }
}

/// Every path of the list is that of an image.
pub open spec fn all_images(found: Seq<PathInfoView>) -> bool {
    forall|i: int| 0 <= i < found.len() ==> is_image_path(#[trigger] found[i])
}

/// A walk adds nothing but images to what was found, and takes nothing away.
pub proof fn lemma_settled_finds_images(s: ScannerView)
    requires
        all_images(s.found),
    ensures
        all_images(settled(s).found),
        s.found.len() <= settled(s).found.len(),
        settled(s).found.subrange(0, s.found.len() as int) == s.found,
    decreases s.frames.len(),
        if s.frames.len() > 0 {
            s.frames.last().entries.len() - s.frames.last().next
        } else {
            0
        },
{
    assert(s.found.subrange(0, s.found.len() as int) =~= s.found);
    if s.frames.len() > 0 {
        let top = s.frames.last();
        if top.next >= top.entries.len() {
            lemma_settled_finds_images(ScannerView { frames: s.frames.drop_last(), ..s });
        } else {
            let entry = top.entries[top.next as int];
            let passed = s.frames.drop_last().push(FrameView { next: top.next + 1, ..top });
            if entry.kind == EntryKind::Directory {
            } else if is_image_entry(entry) {
                let next = ScannerView { frames: passed, found: s.found.push(entry.path), ..s };
                lemma_settled_finds_images(next);
                assert(settled(s).found.subrange(0, s.found.len() as int) =~= settled(
                    next,
                ).found.subrange(0, next.found.len() as int).subrange(0, s.found.len() as int));
            } else {
                lemma_settled_finds_images(ScannerView { frames: passed, ..s });
            }
        }
    }
}

/// Whatever a listing brings, a scan finds nothing but images, and keeps what
/// it had found.
pub proof fn lemma_advanced_finds_images(s: ScannerView, outcome: ListOutcomeView)
    requires
        all_images(s.found),
    ensures
        all_images(advanced(s, outcome).found),
        s.found.len() <= advanced(s, outcome).found.len(),
        advanced(s, outcome).found.subrange(0, s.found.len() as int) == s.found,
{
    assert(s.found.subrange(0, s.found.len() as int) =~= s.found);
    if s.status is Listing {
        if let ListOutcomeView::Entries(entries) = outcome {
            lemma_settled_finds_images(
                ScannerView { frames: s.frames.push(FrameView { entries, next: 0 }), ..s },
            );
        }
    }
}

} // verus!

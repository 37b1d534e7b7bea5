//! Directory entries as plain values, and which of them are images.

use vstd::prelude::*;
use crate::text::{ascii_lowered, chars_of, same_ignoring_ascii_case};

verus! {

/// The image formats that an import takes in.
#[derive(Clone, Copy, Debug, PartialEq, Eq, Structural)]
pub enum ImageKind {
    Jpeg,
    Png,
    WebP,
    Gif,
    Bmp,
}

/// What a directory entry turned out to be.
#[derive(Clone, Copy, Debug, PartialEq, Eq, Structural)]
pub enum EntryKind {
    Directory,
    File,
    /// Neither of the two: a dangling link, a socket, a device.
    Other,
}

/// One path in the text forms that the library reads. The platform's path
/// rules derive them; a part that is missing or is not valid text is `None`.
#[derive(Clone, Debug, PartialEq, Eq)]
pub struct PathInfo {
    /// The whole path.
    pub full: String,
    /// Its last component.
    pub file_name: Option<String>,
    /// What follows the last dot of the file name.
    pub extension: Option<String>,
    /// The path of the directory that holds it.
    pub parent: Option<String>,
    /// The last component of `parent`.
    pub parent_name: Option<String>,
    /// `parent` as seen from the root of the scan.
    pub relative_parent: Option<String>,
}

/// The model of a `PathInfo`.
pub struct PathInfoView {
    pub full: Seq<char>,
    pub file_name: Option<Seq<char>>,
    pub extension: Option<Seq<char>>,
    pub parent: Option<Seq<char>>,
    pub parent_name: Option<Seq<char>>,
    pub relative_parent: Option<Seq<char>>,
}

impl View for PathInfo {
    type V = PathInfoView;

    open spec fn view(&self) -> PathInfoView {
        PathInfoView {
            full: self.full@,
            file_name: self.file_name.deep_view(),
            extension: self.extension.deep_view(),
            parent: self.parent.deep_view(),
            parent_name: self.parent_name.deep_view(),
            relative_parent: self.relative_parent.deep_view(),
        }
    }
}

impl DeepView for PathInfo {
    type V = PathInfoView;

    open spec fn deep_view(&self) -> PathInfoView {
        self@
    }
}

/// A copy of an optional text.
pub fn copy_text(text: &Option<String>) -> (out: Option<String>)
    ensures
        out.deep_view() == text.deep_view(),
{
    match text {
        Some(t) => Some(t.clone()),
        None => None,
    }
}

impl PathInfo {
    /// A copy with the same texts.
    pub fn duplicate(&self) -> (out: PathInfo)
        ensures
            out@ == self@,
    {
        PathInfo {
            full: self.full.clone(),
            file_name: copy_text(&self.file_name),
            extension: copy_text(&self.extension),
            parent: copy_text(&self.parent),
            parent_name: copy_text(&self.parent_name),
            relative_parent: copy_text(&self.relative_parent),
        }
    }
}

/// One entry of a directory listing.
#[derive(Clone, Debug, PartialEq, Eq)]
pub struct DirEntry {
    pub path: PathInfo,
    pub kind: EntryKind,
}

/// The model of a `DirEntry`.
pub struct DirEntryView {
    pub path: PathInfoView,
    pub kind: EntryKind,
}

impl View for DirEntry {
    type V = DirEntryView;

    open spec fn view(&self) -> DirEntryView {
        DirEntryView { path: self.path@, kind: self.kind }
    }
}

impl DeepView for DirEntry {
    type V = DirEntryView;

    open spec fn deep_view(&self) -> DirEntryView {
        self@
    }
}

/// The format that an extension stands for, letter case set aside: `jpg` and
/// `jpeg`, `png`, `webp`, `gif`, `bmp`. Any other extension stands for none.
pub open spec fn extension_kind(extension: Seq<char>) -> Option<ImageKind> {
    let lowered = ascii_lowered(extension);
    if lowered == "jpg"@ || lowered == "jpeg"@ {
        Some(ImageKind::Jpeg)
    } else if lowered == "png"@ {
        Some(ImageKind::Png)
    } else if lowered == "webp"@ {
        Some(ImageKind::WebP)
    } else if lowered == "gif"@ {
        Some(ImageKind::Gif)
    } else if lowered == "bmp"@ {
        Some(ImageKind::Bmp)
    } else {
        None
    }
}

/// The format of an entry: that of its extension where the entry is a regular
/// file and has one, else none.
pub open spec fn entry_kind(entry: DirEntryView) -> Option<ImageKind> {
    match (entry.kind, entry.path.extension) {
        (EntryKind::File, Some(extension)) => extension_kind(extension),
        _ => None,
    }
}

/// A path is that of an image when its extension names a format.
pub open spec fn is_image_path(path: PathInfoView) -> bool {
    match path.extension {
        Some(extension) => extension_kind(extension) is Some,
        None => false,
    }
}

/// An entry is an image when it has a format.
pub open spec fn is_image_entry(entry: DirEntryView) -> bool {
    entry_kind(entry) is Some
}

fn is_extension(extension: &Vec<char>, name: &str) -> (same: bool)
    requires
        ascii_lowered(name@) == name@,
    ensures
        same == (ascii_lowered(extension@) == name@),
{
    let name_chars = chars_of(name);
    same_ignoring_ascii_case(extension, &name_chars)
}

proof fn lemma_extension_names_are_lower_case()
    ensures
        ascii_lowered("jpg"@) == "jpg"@,
        ascii_lowered("jpeg"@) == "jpeg"@,
        ascii_lowered("png"@) == "png"@,
        ascii_lowered("webp"@) == "webp"@,
        ascii_lowered("gif"@) == "gif"@,
        ascii_lowered("bmp"@) == "bmp"@,
{
    reveal_strlit("jpg");
    reveal_strlit("jpeg");
    reveal_strlit("png");
    reveal_strlit("webp");
    reveal_strlit("gif");
    reveal_strlit("bmp");
    assert(ascii_lowered("jpg"@) =~= "jpg"@);
    assert(ascii_lowered("jpeg"@) =~= "jpeg"@);
    assert(ascii_lowered("png"@) =~= "png"@);
    assert(ascii_lowered("webp"@) =~= "webp"@);
    assert(ascii_lowered("gif"@) =~= "gif"@);
    assert(ascii_lowered("bmp"@) =~= "bmp"@);
}

/// The image format that a file extension stands for, if any.
pub fn image_kind(extension: &str) -> (kind: Option<ImageKind>)
    ensures
        kind == extension_kind(extension@),
{
    proof {
        lemma_extension_names_are_lower_case();
    }
    let ext = chars_of(extension);
    if ext.len() > 4 {
        proof {
            reveal_strlit("jpg");
            reveal_strlit("jpeg");
            reveal_strlit("png");
            reveal_strlit("webp");
            reveal_strlit("gif");
            reveal_strlit("bmp");
        }
        None
    } else if is_extension(&ext, "jpg") || is_extension(&ext, "jpeg") {
        Some(ImageKind::Jpeg)
    } else if is_extension(&ext, "png") {
        Some(ImageKind::Png)
    } else if is_extension(&ext, "webp") {
        Some(ImageKind::WebP)
    } else if is_extension(&ext, "gif") {
        Some(ImageKind::Gif)
    } else if is_extension(&ext, "bmp") {
        Some(ImageKind::Bmp)
    } else {
        None
    }
}

impl DirEntry {
    /// The image format of this entry, if it is an image.
    pub fn image_kind(&self) -> (kind: Option<ImageKind>)
        ensures
            kind == entry_kind(self@),
    {
        match self.kind {
            EntryKind::File => match &self.path.extension {
                Some(extension) => image_kind(extension.as_str()),
                None => None,
            },
            _ => None,
        }
    }

    /// Whether this entry is an image: a regular file whose extension names
    /// one of the formats, in any letter case.
    pub fn is_image(&self) -> (image: bool)
        ensures
            image == is_image_entry(self@),
    {
        self.image_kind().is_some()
    }
}

} // verus!

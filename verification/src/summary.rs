//! Folders and images for presentation: the folders of a set of discovered
//! images with their counts, and the content of one directory, both sorted by
//! name without regard to letter case.

use vstd::prelude::*;
use crate::entry::{is_image_entry, DirEntry, DirEntryView, EntryKind, PathInfo, PathInfoView};
use crate::order::{is_stable_order, lemma_stable_order_is_unique, stable_order, texts};
use crate::text::{chars_of, lowercase, lowercase_of, text_or, text_or_default};

verus! {

/// A folder and the number of discovered images that lie directly in it.
#[derive(Clone, Debug, PartialEq, Eq)]
pub struct FolderSummary {
    pub path: String,
    /// The name under which the folder is shown.
    pub name: String,
    pub image_count: usize,
}

/// The model of a `FolderSummary`.
pub struct FolderSummaryView {
    pub path: Seq<char>,
    pub name: Seq<char>,
    pub image_count: nat,
}

impl View for FolderSummary {
    type V = FolderSummaryView;

    open spec fn view(&self) -> FolderSummaryView {
        FolderSummaryView {
            path: self.path@,
            name: self.name@,
            image_count: self.image_count as nat,
        }
    }
}

impl DeepView for FolderSummary {
    type V = FolderSummaryView;

    open spec fn deep_view(&self) -> FolderSummaryView {
        self@
    }
}

impl FolderSummary {
    /// A copy with the same texts and count.
    pub fn duplicate(&self) -> (out: FolderSummary)
        ensures
            out@ == self@,
    {
        FolderSummary {
            path: self.path.clone(),
            name: self.name.clone(),
            image_count: self.image_count,
        }
    }
}

/// An image as a listing shows it.
#[derive(Clone, Debug, PartialEq, Eq)]
pub struct ImageInfo {
    pub path: String,
    pub filename: String,
}

/// The model of an `ImageInfo`.
pub struct ImageInfoView {
    pub path: Seq<char>,
    pub filename: Seq<char>,
}

impl View for ImageInfo {
    type V = ImageInfoView;

    open spec fn view(&self) -> ImageInfoView {
        ImageInfoView { path: self.path@, filename: self.filename@ }
    }
}

impl DeepView for ImageInfo {
    type V = ImageInfoView;

    open spec fn deep_view(&self) -> ImageInfoView {
        self@
    }
}

impl ImageInfo {
    /// A copy with the same texts.
    pub fn duplicate(&self) -> (out: ImageInfo)
        ensures
            out@ == self@,
    {
        ImageInfo { path: self.path.clone(), filename: self.filename.clone() }
    }
}

/// The folders of a scan and the number of its images.
#[derive(Clone, Debug, PartialEq, Eq)]
pub struct QuickScanResult {
    pub total: usize,
    pub folders: Vec<FolderSummary>,
}

/// The model of a `QuickScanResult`.
pub struct QuickScanResultView {
    pub total: nat,
    pub folders: Seq<FolderSummaryView>,
}

impl View for QuickScanResult {
    type V = QuickScanResultView;

    open spec fn view(&self) -> QuickScanResultView {
        QuickScanResultView { total: self.total as nat, folders: self.folders.deep_view() }
    }
}

/// The content of one directory: its folders and its images.
#[derive(Clone, Debug, PartialEq, Eq)]
pub struct FolderContents {
    pub folders: Vec<FolderSummary>,
    pub images: Vec<ImageInfo>,
    pub path: String,
}

/// The model of a `FolderContents`.
pub struct FolderContentsView {
    pub folders: Seq<FolderSummaryView>,
    pub images: Seq<ImageInfoView>,
    pub path: Seq<char>,
}

impl View for FolderContents {
    type V = FolderContentsView;

    open spec fn view(&self) -> FolderContentsView {
        FolderContentsView {
            folders: self.folders.deep_view(),
            images: self.images.deep_view(),
            path: self.path@,
        }
    }
}

/// The items of a list in the order that `order` gives.
pub open spec fn rearranged<T>(items: Seq<T>, order: Seq<usize>) -> Seq<T> {
    Seq::new(order.len(), |i: int| items[order[i] as int])
}

/// `sorted` holds the items of `items`, each once, sorted by their `keys` in
/// dictionary order; items with the same key keep the order they had.
pub open spec fn is_sorted_by<T>(items: Seq<T>, keys: Seq<Seq<char>>, sorted: Seq<T>) -> bool {
    exists|order: Seq<usize>| is_stable_order(keys, order) && sorted == rearranged(items, order)
}

/// Sorting by key has one result, and no other.
pub proof fn lemma_sorted_is_unique<T>(items: Seq<T>, keys: Seq<Seq<char>>, a: Seq<T>, b: Seq<T>)
    requires
        is_sorted_by(items, keys, a),
        is_sorted_by(items, keys, b),
    ensures
        a == b,
{
    let first = choose|order: Seq<usize>|
        is_stable_order(keys, order) && a == rearranged(items, order);
    let second = choose|order: Seq<usize>|
        is_stable_order(keys, order) && b == rearranged(items, order);
    lemma_stable_order_is_unique(keys, first, second);
}

/// The keys by which folders are sorted: their names in lower case.
pub open spec fn folder_keys(folders: Seq<FolderSummaryView>) -> Seq<Seq<char>> {
    Seq::new(folders.len(), |i: int| lowercase_of(folders[i].name))
}

/// The keys by which images are sorted: their file names in lower case.
pub open spec fn image_keys(images: Seq<ImageInfoView>) -> Seq<Seq<char>> {
    Seq::new(images.len(), |i: int| lowercase_of(images[i].filename))
}

/// The position of the folder with the path `path`, or the number of folders
/// where there is none.
pub open spec fn folder_index(folders: Seq<FolderSummaryView>, path: Seq<char>) -> int
    decreases folders.len(),
{
    if folders.len() == 0 {
        0
    } else if folders.first().path == path {
        0
    } else {
        1 + folder_index(folders.drop_first(), path)
    }
}

/// The folders with one more image counted: in the folder of its parent
/// directory, which is added with the count 1 where it is new. An image
/// without a parent directory is counted in no folder. A folder whose name is
/// not valid text is shown as `Unknown`.
pub open spec fn with_image(
    folders: Seq<FolderSummaryView>,
    image: PathInfoView,
) -> Seq<FolderSummaryView> {
    match image.parent {
        None => folders,
        Some(path) => {
            let at = folder_index(folders, path);
            if at < folders.len() {
                folders.update(
                    at,
                    FolderSummaryView { image_count: folders[at].image_count + 1, ..folders[at] },
                )
            } else {
                folders.push(
                    FolderSummaryView {
                        path,
                        name: text_or(image.parent_name, "Unknown"@),
                        image_count: 1,
                    },
                )
            }
        },
    }
}

/// The folders of a list of images, in the order in which the images first
/// name them.
pub open spec fn grouped(images: Seq<PathInfoView>) -> Seq<FolderSummaryView>
    decreases images.len(),
{
    if images.len() == 0 {
        Seq::empty()
    } else {
        with_image(grouped(images.drop_last()), images.last())
    }
}

/// The number of images that lie directly in `folder`.
pub open spec fn images_in(images: Seq<PathInfoView>, folder: Seq<char>) -> nat
    decreases images.len(),
{
    if images.len() == 0 {
        0
    } else {
        images_in(images.drop_last(), folder) + if images.last().parent == Some(folder) {
            1nat
        } else {
            0nat
        }
    }
}

/// No two of the folders have the same path.
pub open spec fn distinct_paths(folders: Seq<FolderSummaryView>) -> bool {
    forall|i: int, j: int|
        0 <= i < j < folders.len() ==> (#[trigger] folders[i]).path != (#[trigger] folders[j]).path
}

/// `folder_index` finds the first folder with the path, and only that.
pub proof fn lemma_folder_index(folders: Seq<FolderSummaryView>, path: Seq<char>)
    ensures
        0 <= folder_index(folders, path) <= folders.len(),
        folder_index(folders, path) < folders.len() ==> folders[folder_index(folders, path)].path
            == path,
        forall|i: int| 0 <= i < folder_index(folders, path) ==> (#[trigger] folders[i]).path != path,
    decreases folders.len(),
{
    if folders.len() > 0 && folders.first().path != path {
        let rest = folders.drop_first();
        lemma_folder_index(rest, path);
        assert forall|i: int| 0 <= i < folder_index(folders, path) implies (#[trigger] folders[i]).path
            != path by {
            if i > 0 {
                assert(rest[i - 1] == folders[i]);
            }
        }
    }
}

/// No image has more images directly in its folder than there are images.
pub proof fn lemma_images_in_bound(images: Seq<PathInfoView>, folder: Seq<char>)
    ensures
        images_in(images, folder) <= images.len(),
    decreases images.len(),
{
    if images.len() > 0 {
        lemma_images_in_bound(images.drop_last(), folder);
    }
}

/// What grouping gives.
///
/// No folder occurs twice. Each folder is the parent directory of an image,
/// and its count is the number of images that lie directly in it. The parent
/// directory of every image is among the folders.
pub proof fn lemma_grouped_counts(images: Seq<PathInfoView>)
    ensures
        distinct_paths(grouped(images)),
        forall|j: int|
            0 <= j < grouped(images).len() ==> (#[trigger] grouped(images)[j]).image_count
                == images_in(images, grouped(images)[j].path) && grouped(images)[j].image_count
                >= 1,
        forall|i: int|
            0 <= i < images.len() && (#[trigger] images[i]).parent is Some ==> folder_index(
                grouped(images),
                images[i].parent->0,
            ) < grouped(images).len(),
        forall|path: Seq<char>|
            folder_index(grouped(images), path) >= grouped(images).len() ==> #[trigger] images_in(
                images,
                path,
            ) == 0,
    decreases images.len(),
{
    if images.len() > 0 {
        let before = images.drop_last();
        let last = images.last();
        let g = grouped(before);
        let next = grouped(images);
        lemma_grouped_counts(before);
        match last.parent {
            None => {
                assert forall|other: Seq<char>|
                    folder_index(next, other) >= next.len() implies #[trigger] images_in(
                    images,
                    other,
                ) == 0 by {
                    assert(images_in(before, other) == 0);
                }
                assert forall|i: int|
                    0 <= i < images.len() && (#[trigger] images[i]).parent is Some implies folder_index(
                    next,
                    images[i].parent->0,
                ) < next.len() by {
                    assert(images[i] == before[i]);
                }
            },
            Some(path) => {
                let at = folder_index(g, path);
                lemma_folder_index(g, path);
                assert forall|j: int| 0 <= j < next.len() implies (#[trigger] next[j]).image_count
                    == images_in(images, next[j].path) && next[j].image_count >= 1 by {
                    if j < g.len() {
                        assert(g[j].image_count == images_in(before, g[j].path));
                        if j != at && at < g.len() {
                            assert(g[j].path != g[at].path);
                        }
                    } else {
                        assert(images_in(before, path) == 0);
                    }
                }
                assert forall|other: Seq<char>|
                    folder_index(next, other) >= next.len() implies #[trigger] images_in(
                    images,
                    other,
                ) == 0 by {
                    lemma_folder_index(next, other);
                    lemma_folder_index(g, other);
                    if folder_index(g, other) < g.len() {
                        assert(next[folder_index(g, other)].path == other);
                    }
                    if other == path {
                        if at < g.len() {
                            assert(next[at].path == path);
                        } else {
                            assert(next[g.len() as int].path == path);
                        }
                    }
                    assert(images_in(before, other) == 0);
                }
                assert forall|i: int|
                    0 <= i < images.len() && (#[trigger] images[i]).parent is Some implies folder_index(
                    next,
                    images[i].parent->0,
                ) < next.len() by {
                    let p = images[i].parent->0;
                    lemma_folder_index(next, p);
                    if i < before.len() {
                        assert(images[i] == before[i]);
                        lemma_folder_index(g, p);
                        assert(next[folder_index(g, p)].path == p);
                    } else {
                        if at < g.len() {
                            assert(next[at].path == path);
                        } else {
                            assert(next[g.len() as int].path == path);
                        }
                    }
                }
                assert(distinct_paths(next)) by {
                    assert forall|i: int, j: int| 0 <= i < j < next.len() implies (#[trigger] next[i]).path
                        != (#[trigger] next[j]).path by {
                        if j < g.len() {
                            assert(g[i].path != g[j].path);
                        } else {
                            assert(g[i].path != path);
                        }
                    }
                }
            },
        }
    }
}

/// The position of the first image that lies directly in `folder`, or the
/// number of images where there is none.
pub open spec fn first_image_in(images: Seq<PathInfoView>, folder: Seq<char>) -> int
    decreases images.len(),
{
    if images.len() == 0 {
        0
    } else if images.first().parent == Some(folder) {
        0
    } else {
        1 + first_image_in(images.drop_first(), folder)
    }
}

proof fn lemma_first_image_in(images: Seq<PathInfoView>, folder: Seq<char>)
    ensures
        0 <= first_image_in(images, folder) <= images.len(),
        first_image_in(images, folder) < images.len() ==> images[first_image_in(
            images,
            folder,
        )].parent == Some(folder),
        forall|i: int|
            0 <= i < first_image_in(images, folder) ==> (#[trigger] images[i]).parent != Some(
                folder,
            ),
    decreases images.len(),
{
    if images.len() > 0 && images.first().parent != Some(folder) {
        let rest = images.drop_first();
        lemma_first_image_in(rest, folder);
        assert forall|i: int| 0 <= i < first_image_in(images, folder) implies (
        #[trigger] images[i]).parent != Some(folder) by {
            if i > 0 {
                assert(rest[i - 1] == images[i]);
            }
        }
    }
}

proof fn lemma_first_image_in_is(images: Seq<PathInfoView>, folder: Seq<char>, at: int)
    requires
        0 <= at <= images.len(),
        forall|i: int| 0 <= i < at ==> (#[trigger] images[i]).parent != Some(folder),
        at < images.len() ==> images[at].parent == Some(folder),
    ensures
        first_image_in(images, folder) == at,
{
    lemma_first_image_in(images, folder);
    let found = first_image_in(images, folder);
    if found < at {
        assert(images[found].parent == Some(folder));
    } else if found > at {
        assert(images[at].parent != Some(folder));
    }
}

/// How the folders of a grouping are named.
///
/// Each folder carries the name that the first image in it gives for its
/// parent directory, and `Unknown` where that image gives none.
pub proof fn lemma_grouped_names(images: Seq<PathInfoView>)
    ensures
        forall|j: int|
            0 <= j < grouped(images).len() ==> first_image_in(
                images,
                (#[trigger] grouped(images)[j]).path,
            ) < images.len() && grouped(images)[j].name == text_or(
                images[first_image_in(images, grouped(images)[j].path)].parent_name,
                "Unknown"@,
            ),
    decreases images.len(),
{
    if images.len() > 0 {
        let before = images.drop_last();
        let last = images.last();
        let g = grouped(before);
        let next = grouped(images);
        lemma_grouped_names(before);
        lemma_grouped_counts(before);
        assert forall|j: int| 0 <= j < next.len() implies first_image_in(
            images,
            (#[trigger] next[j]).path,
        ) < images.len() && next[j].name == text_or(
            images[first_image_in(images, next[j].path)].parent_name,
            "Unknown"@,
        ) by {
            let path = next[j].path;
            if last.parent is Some {
                lemma_folder_index(g, last.parent->0);
            }
            if j < g.len() {
                assert(g[j].path == path && g[j].name == next[j].name);
                let at = first_image_in(before, path);
                lemma_first_image_in(before, path);
                assert forall|i: int| 0 <= i < at implies (#[trigger] images[i]).parent != Some(
                    path,
                ) by {
                    assert(images[i] == before[i]);
                }
                assert(images[at] == before[at]);
                lemma_first_image_in_is(images, path, at);
            } else {
                let here = last.parent->0;
                lemma_folder_index(g, here);
                assert(images_in(before, here) == 0);
                lemma_none_in(before, here);
                assert forall|i: int| 0 <= i < before.len() implies (#[trigger] images[i]).parent
                    != Some(here) by {
                    assert(images[i] == before[i]);
                }
                lemma_first_image_in_is(images, here, before.len() as int);
            }
        }
    }
}

proof fn lemma_none_in(images: Seq<PathInfoView>, folder: Seq<char>)
    requires
        images_in(images, folder) == 0,
    ensures
        forall|i: int| 0 <= i < images.len() ==> (#[trigger] images[i]).parent != Some(folder),
    decreases images.len(),
{
    if images.len() > 0 {
        lemma_none_in(images.drop_last(), folder);
        assert forall|i: int| 0 <= i < images.len() implies (#[trigger] images[i]).parent != Some(
            folder,
        ) by {
            if i < images.len() - 1 {
                assert(images.drop_last()[i] == images[i]);
            }
        }
    }
}

proof fn lemma_folder_index_is(folders: Seq<FolderSummaryView>, path: Seq<char>, at: int)
    requires
        0 <= at <= folders.len(),
        forall|i: int| 0 <= i < at ==> (#[trigger] folders[i]).path != path,
        at < folders.len() ==> folders[at].path == path,
    ensures
        folder_index(folders, path) == at,
{
    lemma_folder_index(folders, path);
    let found = folder_index(folders, path);
    if found < at {
        assert(folders[found].path == path);
    } else if found > at {
        assert(folders[at].path != path);
    }
}

fn find_folder(folders: &Vec<FolderSummary>, path: &String) -> (at: usize)
    ensures
        at == folder_index(folders.deep_view(), path@),
{
    let mut at: usize = 0;
    while at < folders.len() && !(folders[at].path == *path)
        invariant
            at <= folders.len(),
            forall|i: int| 0 <= i < at ==> (#[trigger] folders.deep_view()[i]).path != path@,
        decreases folders.len() - at,
    {
        at = at + 1;
    }
    proof {
        lemma_folder_index_is(folders.deep_view(), path@, at as int);
    }
    at
}

/// The folders of a list of images with their counts, in the order in which
/// the images first name them.
pub fn group_by_folder(images: &Vec<PathInfo>) -> (folders: Vec<FolderSummary>)
    ensures
        folders.deep_view() == grouped(images.deep_view()),
{
    let ghost all = images.deep_view();
    let mut folders: Vec<FolderSummary> = Vec::new();
    let mut i: usize = 0;
    assert(folders.deep_view() =~= grouped(all.take(0)));
    while i < images.len()
        invariant
            i <= images.len(),
            all == images.deep_view(),
            folders.deep_view() == grouped(all.take(i as int)),
        decreases images.len() - i,
    {
        let ghost before = all.take(i as int);
        let ghost g = folders.deep_view();
        proof {
            assert(all.take(i + 1).drop_last() =~= before);
            assert(all.take(i + 1).last() == images@[i as int]@);
            lemma_grouped_counts(before);
        }
        match &images[i].parent {
            None => {},
            Some(parent) => {
                let at = find_folder(&folders, parent);
                if at < folders.len() {
                    proof {
                        lemma_images_in_bound(before, g[at as int].path);
                    }
                    folders[at].image_count = folders[at].image_count + 1;
                    assert(folders.deep_view() =~= with_image(g, images@[i as int]@));
                } else {
                    folders.push(
                        FolderSummary {
                            path: parent.clone(),
                            name: text_or_default(&images[i].parent_name, "Unknown"),
                            image_count: 1,
                        },
                    );
                    assert(folders.deep_view() =~= with_image(g, images@[i as int]@));
                }
            },
        }
        i = i + 1;
    }
    assert(all.take(images.len() as int) =~= all);
    folders
}

/// The keys of a list of names: each name in lower case.
fn lowered_keys(names: &Vec<String>) -> (keys: Vec<Vec<char>>)
    ensures
        keys.len() == names.len(),
        forall|i: int| 0 <= i < keys.len() ==> (#[trigger] keys[i])@ == lowercase_of(names[i]@),
{
    let mut keys: Vec<Vec<char>> = Vec::new();
    let mut i: usize = 0;
    while i < names.len()
        invariant
            i <= names.len(),
            keys.len() == i,
            forall|j: int| 0 <= j < i ==> (#[trigger] keys[j])@ == lowercase_of(names[j]@),
        decreases names.len() - i,
    {
        let lower = lowercase(names[i].as_str());
        keys.push(chars_of(lower.as_str()));
        i = i + 1;
    }
    keys
}

/// The folders sorted by the keys given, one key for each folder; folders with
/// the same key keep their order.
pub fn folders_sorted_by(folders: &Vec<FolderSummary>, keys: &Vec<Vec<char>>) -> (sorted: Vec<
    FolderSummary,
>)
    requires
        keys.len() == folders.len(),
    ensures
        is_sorted_by(folders.deep_view(), texts(keys@), sorted.deep_view()),
{
    let order = stable_order(keys);
    let mut sorted: Vec<FolderSummary> = Vec::new();
    let mut i: usize = 0;
    while i < order.len()
        invariant
            i <= order.len(),
            keys.len() == folders.len(),
            is_stable_order(texts(keys@), order@),
            sorted.len() == i,
            forall|j: int| 0 <= j < i ==> (#[trigger] sorted[j])@ == folders[order[j] as int]@,
        decreases order.len() - i,
    {
        sorted.push(folders[order[i]].duplicate());
        i = i + 1;
    }
    assert(sorted.deep_view() =~= rearranged(folders.deep_view(), order@));
    sorted
}

/// The images sorted by the keys given, one key for each image; images with
/// the same key keep their order.
pub fn images_sorted_by(images: &Vec<ImageInfo>, keys: &Vec<Vec<char>>) -> (sorted: Vec<ImageInfo>)
    requires
        keys.len() == images.len(),
    ensures
        is_sorted_by(images.deep_view(), texts(keys@), sorted.deep_view()),
{
    let order = stable_order(keys);
    let mut sorted: Vec<ImageInfo> = Vec::new();
    let mut i: usize = 0;
    while i < order.len()
        invariant
            i <= order.len(),
            keys.len() == images.len(),
            is_stable_order(texts(keys@), order@),
            sorted.len() == i,
            forall|j: int| 0 <= j < i ==> (#[trigger] sorted[j])@ == images[order[j] as int]@,
        decreases order.len() - i,
    {
        sorted.push(images[order[i]].duplicate());
        i = i + 1;
    }
    assert(sorted.deep_view() =~= rearranged(images.deep_view(), order@));
    sorted
}

/// The folders sorted by name, letter case set aside.
pub fn sort_folders(folders: &Vec<FolderSummary>) -> (sorted: Vec<FolderSummary>)
    ensures
        is_sorted_by(
            folders.deep_view(),
            folder_keys(folders.deep_view()),
            sorted.deep_view(),
        ),
{
    let mut names: Vec<String> = Vec::new();
    let mut i: usize = 0;
    while i < folders.len()
        invariant
            i <= folders.len(),
            names.len() == i,
            forall|j: int| 0 <= j < i ==> (#[trigger] names[j])@ == folders[j]@.name,
        decreases folders.len() - i,
    {
        names.push(folders[i].name.clone());
        i = i + 1;
    }
    let keys = lowered_keys(&names);
    assert(texts(keys@) =~= folder_keys(folders.deep_view()));
    folders_sorted_by(folders, &keys)
}

/// The images sorted by file name, letter case set aside.
pub fn sort_images(images: &Vec<ImageInfo>) -> (sorted: Vec<ImageInfo>)
    ensures
        is_sorted_by(images.deep_view(), image_keys(images.deep_view()), sorted.deep_view()),
{
    let mut names: Vec<String> = Vec::new();
    let mut i: usize = 0;
    while i < images.len()
        invariant
            i <= images.len(),
            names.len() == i,
            forall|j: int| 0 <= j < i ==> (#[trigger] names[j])@ == images[j]@.filename,
        decreases images.len() - i,
    {
        names.push(images[i].filename.clone());
        i = i + 1;
    }
    let keys = lowered_keys(&names);
    assert(texts(keys@) =~= image_keys(images.deep_view()));
    images_sorted_by(images, &keys)
}

/// The summary of a scan: the number of images, and their folders with the
/// number of images directly in each, sorted by name.
pub fn quick_scan(images: &Vec<PathInfo>) -> (result: QuickScanResult)
    ensures
        result@.total == images.len(),
        is_sorted_by(
            grouped(images.deep_view()),
            folder_keys(grouped(images.deep_view())),
            result@.folders,
        ),
{
    let folders = group_by_folder(images);
    QuickScanResult { total: images.len(), folders: sort_folders(&folders) }
}

/// A directory entry as a folder of a listing. Its images are not counted.
pub open spec fn folder_of(entry: DirEntryView) -> FolderSummaryView {
    FolderSummaryView {
        path: entry.path.full,
        name: text_or(entry.path.file_name, "Unknown"@),
        image_count: 0,
    }
}

/// A directory entry as an image of a listing.
pub open spec fn image_of(entry: DirEntryView) -> ImageInfoView {
    ImageInfoView { path: entry.path.full, filename: text_or(entry.path.file_name, "Unknown"@) }
}

/// The directories among the entries, in their order.
pub open spec fn folders_among(entries: Seq<DirEntryView>) -> Seq<FolderSummaryView>
    decreases entries.len(),
{
    if entries.len() == 0 {
        Seq::empty()
    } else if entries.last().kind == EntryKind::Directory {
        folders_among(entries.drop_last()).push(folder_of(entries.last()))
    } else {
        folders_among(entries.drop_last())
    }
}

/// The images among the entries, in their order.
pub open spec fn images_among(entries: Seq<DirEntryView>) -> Seq<ImageInfoView>
    decreases entries.len(),
{
    if entries.len() == 0 {
        Seq::empty()
    } else if is_image_entry(entries.last()) {
        images_among(entries.drop_last()).push(image_of(entries.last()))
    } else {
        images_among(entries.drop_last())
    }
}

/// The content of the directory `path`, whose listing is `entries`: its
/// directories as folders and its image files as images, each sorted by name.
/// Entries that are neither are left out.
pub fn browse_folder(path: String, entries: &Vec<DirEntry>) -> (contents: FolderContents)
    ensures
        contents@.path == path@,
        is_sorted_by(
            folders_among(entries.deep_view()),
            folder_keys(folders_among(entries.deep_view())),
            contents@.folders,
        ),
        is_sorted_by(
            images_among(entries.deep_view()),
            image_keys(images_among(entries.deep_view())),
            contents@.images,
        ),
{
    let ghost all = entries.deep_view();
    let mut folders: Vec<FolderSummary> = Vec::new();
    let mut images: Vec<ImageInfo> = Vec::new();
    let mut i: usize = 0;
    assert(folders.deep_view() =~= folders_among(all.take(0)));
    assert(images.deep_view() =~= images_among(all.take(0)));
    while i < entries.len()
        invariant
            i <= entries.len(),
            all == entries.deep_view(),
            folders.deep_view() == folders_among(all.take(i as int)),
            images.deep_view() == images_among(all.take(i as int)),
        decreases entries.len() - i,
    {
        let ghost f = folders.deep_view();
        let ghost g = images.deep_view();
        proof {
            assert(all.take(i + 1).drop_last() =~= all.take(i as int));
            assert(all.take(i + 1).last() == entries@[i as int]@);
        }
        let entry = &entries[i];
        match entry.kind {
            EntryKind::Directory => {
                folders.push(
                    FolderSummary {
                        path: entry.path.full.clone(),
                        name: text_or_default(&entry.path.file_name, "Unknown"),
                        image_count: 0,
                    },
                );
                assert(folders.deep_view() =~= f.push(folder_of(entry@)));
            },
            _ => {
                if entry.is_image() {
                    images.push(
                        ImageInfo {
                            path: entry.path.full.clone(),
                            filename: text_or_default(&entry.path.file_name, "Unknown"),
                        },
                    );
                    assert(images.deep_view() =~= g.push(image_of(entry@)));
                }
            },
        }
        i = i + 1;
    }
    assert(all.take(entries.len() as int) =~= all);
    FolderContents { folders: sort_folders(&folders), images: sort_images(&images), path }
}

} // verus!

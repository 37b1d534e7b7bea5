//! Directory trees as values, and what a scan of one finds.
//!
//! The tree stands for a file system that does not change while it is walked.
//! The laws here say that a `Scanner` which is answered from such a tree ends
//! with exactly the images of the tree.

use vstd::prelude::*;
use crate::entry::{is_image_entry, DirEntryView, EntryKind, PathInfoView};
use crate::scan::{
    advanced, settled, started, FrameView, ListOutcomeView, ScanErrorView, ScanStatusView,
    ScannerView,
};

verus! {

/// An entry of a directory together with what lies below it. Only a directory
/// has anything below it.
pub struct TreeNode {
    pub entry: DirEntryView,
    pub children: Seq<TreeNode>,
}

/// The listing of a directory whose content is `nodes`.
pub open spec fn entries_of(nodes: Seq<TreeNode>) -> Seq<DirEntryView> {
    Seq::new(nodes.len(), |i: int| nodes[i].entry)
}

/// The images among `nodes` and below them: each node in turn, a directory
/// standing for the images of its content.
pub open spec fn images_under(nodes: Seq<TreeNode>) -> Seq<PathInfoView>
    decreases nodes,
{
    if nodes.len() == 0 {
        Seq::empty()
    } else {
        images_at(nodes.first()) + images_under(nodes.drop_first())
    }
}

/// The images at one node: those of its content for a directory, the node
/// itself for a file that is an image.
pub open spec fn images_at(node: TreeNode) -> Seq<PathInfoView>
    decreases node,
{
    if node.entry.kind == EntryKind::Directory {
        images_under(node.children)
    } else if is_image_entry(node.entry) {
        seq![node.entry.path]
    } else {
        Seq::empty()
    }
}

/// The number of directories among `nodes` and below them.
pub open spec fn directories_under(nodes: Seq<TreeNode>) -> nat
    decreases nodes,
{
    if nodes.len() == 0 {
        0
    } else {
        directories_at(nodes.first()) + directories_under(nodes.drop_first())
    }
}

/// The number of directories at one node, the node itself counted.
pub open spec fn directories_at(node: TreeNode) -> nat
    decreases node,
{
    if node.entry.kind == EntryKind::Directory {
        1 + directories_under(node.children)
    } else {
        0
    }
}

/// `node` is one of `nodes` or lies below one of them.
pub open spec fn lies_in(nodes: Seq<TreeNode>, node: TreeNode) -> bool
    decreases nodes,
{
    exists|i: int| 0 <= i < nodes.len() && lies_at(#[trigger] nodes[i], node)
}

/// `node` is `at` itself or lies below it.
pub open spec fn lies_at(at: TreeNode, node: TreeNode) -> bool
    decreases at,
{
    at == node || (at.entry.kind == EntryKind::Directory && lies_in(at.children, node))
}

proof fn lemma_images_under_split(nodes: Seq<TreeNode>, path: PathInfoView)
    ensures
        images_under(nodes).contains(path) <==> exists|i: int|
            0 <= i < nodes.len() && images_at(#[trigger] nodes[i]).contains(path),
    decreases nodes.len(),
{
    if nodes.len() > 0 {
        let rest = nodes.drop_first();
        lemma_images_under_split(rest, path);
        let first = images_at(nodes.first());
        let others = images_under(rest);
        if images_under(nodes).contains(path) {
            let k = choose|k: int| 0 <= k < (first + others).len() && (first + others)[k] == path;
            if k < first.len() {
                assert(first[k] == path);
                assert(images_at(nodes[0]).contains(path));
            } else {
                assert(others[k - first.len()] == path);
                let i = choose|i: int|
                    0 <= i < rest.len() && images_at(#[trigger] rest[i]).contains(path);
                assert(rest[i] == nodes[i + 1]);
            }
        }
        if exists|i: int| 0 <= i < nodes.len() && images_at(#[trigger] nodes[i]).contains(path) {
            let i = choose|i: int|
                0 <= i < nodes.len() && images_at(#[trigger] nodes[i]).contains(path);
            if i == 0 {
                let k = choose|k: int| 0 <= k < first.len() && first[k] == path;
                assert((first + others)[k] == path);
            } else {
                assert(rest[i - 1] == nodes[i]);
                assert(others.contains(path));
                let k = choose|k: int| 0 <= k < others.len() && others[k] == path;
                assert((first + others)[first.len() + k] == path);
            }
        }
    }
}

/// The images of a tree are its image files: what is found below `nodes` is
/// the path of a file that is an image and lies in the tree.
pub proof fn lemma_what_is_found_lies_in_the_tree(nodes: Seq<TreeNode>, path: PathInfoView)
    requires
        images_under(nodes).contains(path),
    ensures
        exists|node: TreeNode|
            #![trigger lies_in(nodes, node)]
            lies_in(nodes, node) && is_image_entry(node.entry) && node.entry.path == path,
    decreases nodes,
{
    lemma_images_under_split(nodes, path);
    let i = choose|i: int| 0 <= i < nodes.len() && images_at(#[trigger] nodes[i]).contains(path);
    let at = nodes[i];
    if at.entry.kind == EntryKind::Directory {
        lemma_what_is_found_lies_in_the_tree(at.children, path);
        let node = choose|node: TreeNode|
            #![trigger lies_in(at.children, node)]
            lies_in(at.children, node) && is_image_entry(node.entry) && node.entry.path == path;
        assert(lies_at(nodes[i], node));
        assert(lies_in(nodes, node));
    } else {
        assert(images_at(at)[0] == path);
        assert(lies_at(nodes[i], at));
        assert(lies_in(nodes, at));
    }
}

/// No image file of a tree is missed: the path of every file that is an image
/// and lies in the tree is among what is found.
pub proof fn lemma_every_image_is_found(nodes: Seq<TreeNode>, node: TreeNode)
    requires
        lies_in(nodes, node),
        is_image_entry(node.entry),
    ensures
        images_under(nodes).contains(node.entry.path),
    decreases nodes,
{
    let i = choose|i: int| 0 <= i < nodes.len() && lies_at(#[trigger] nodes[i], node);
    let at = nodes[i];
    if at == node {
        assert(images_at(at)[0] == node.entry.path);
    } else {
        lemma_every_image_is_found(at.children, node);
    }
    assert(images_at(nodes[i]).contains(node.entry.path));
    lemma_images_under_split(nodes, node.entry.path);
}

/// `answers` lists every directory among `nodes` and below them as the tree
/// has it.
pub open spec fn lists_all(
    answers: spec_fn(Seq<char>) -> ListOutcomeView,
    nodes: Seq<TreeNode>,
) -> bool
    decreases nodes,
{
    forall|i: int| 0 <= i < nodes.len() ==> lists_node(answers, #[trigger] nodes[i])
}

/// `answers` lists the directory at `node`, and every directory below it, as
/// the tree has it.
pub open spec fn lists_node(answers: spec_fn(Seq<char>) -> ListOutcomeView, node: TreeNode) -> bool
    decreases node,
{
    node.entry.kind == EntryKind::Directory ==> {
        &&& answers(node.entry.path.full) == ListOutcomeView::Entries(entries_of(node.children))
        &&& lists_all(answers, node.children)
    }
}

/// The state after at most `steps` listings, each pending directory being
/// answered by `answers`.
pub open spec fn run(
    s: ScannerView,
    answers: spec_fn(Seq<char>) -> ListOutcomeView,
    steps: nat,
) -> ScannerView
    decreases steps,
{
    if steps > 0 && s.status is Listing {
        run(advanced(s, answers(s.status->Listing_0)), answers, (steps - 1) as nat)
    } else {
        s
    }
}

/// State `s` with one more directory being walked: `entries`, of which `next`
/// are passed.
pub open spec fn within(s: ScannerView, entries: Seq<DirEntryView>, next: nat) -> ScannerView {
    ScannerView { frames: s.frames.push(FrameView { entries, next }), ..s }
}

/// State `s` with `found` in place of what it had found.
pub open spec fn with_found(s: ScannerView, found: Seq<PathInfoView>) -> ScannerView {
    ScannerView { found, ..s }
}

/// Where a walk goes on does not depend on what the scan waited for before.
pub proof fn lemma_settled_ignores_status(a: ScannerView, b: ScannerView)
    requires
        a.frames == b.frames,
        a.found == b.found,
    ensures
        settled(a) == settled(b),
    decreases a.frames.len(),
        if a.frames.len() > 0 {
            a.frames.last().entries.len() - a.frames.last().next
        } else {
            0
        },
{
    if a.frames.len() > 0 {
        let top = a.frames.last();
        if top.next >= top.entries.len() {
            lemma_settled_ignores_status(
                ScannerView { frames: a.frames.drop_last(), ..a },
                ScannerView { frames: b.frames.drop_last(), ..b },
            );
        } else {
            let entry = top.entries[top.next as int];
            let passed = a.frames.drop_last().push(FrameView { next: top.next + 1, ..top });
            if entry.kind == EntryKind::Directory {
            } else if is_image_entry(entry) {
                lemma_settled_ignores_status(
                    ScannerView { frames: passed, found: a.found.push(entry.path), ..a },
                    ScannerView { frames: passed, found: b.found.push(entry.path), ..b },
                );
            } else {
                lemma_settled_ignores_status(
                    ScannerView { frames: passed, ..a },
                    ScannerView { frames: passed, ..b },
                );
            }
        }
    }
}

proof fn lemma_skip_unfolds(nodes: Seq<TreeNode>, i: int)
    requires
        0 <= i < nodes.len(),
    ensures
        images_under(nodes.skip(i)) == images_at(nodes[i]) + images_under(nodes.skip(i + 1)),
        directories_under(nodes.skip(i)) == directories_at(nodes[i]) + directories_under(
            nodes.skip(i + 1),
        ),
{
    assert(nodes.skip(i).first() == nodes[i]);
    assert(nodes.skip(i).drop_first() =~= nodes.skip(i + 1));
}

/// Walking the entries of a directory from the `i`-th on, every directory
/// below being answered from the tree, ends where the walk would go on had
/// the directory held nothing more: with the images of those entries found,
/// after one listing for each directory among and below them.
pub proof fn lemma_walk(
    s: ScannerView,
    nodes: Seq<TreeNode>,
    i: int,
    answers: spec_fn(Seq<char>) -> ListOutcomeView,
    steps: nat,
)
    requires
        0 <= i <= nodes.len(),
        lists_all(answers, nodes),
    ensures
        run(
            settled(within(s, entries_of(nodes), i as nat)),
            answers,
            directories_under(nodes.skip(i)) + steps,
        ) == run(settled(with_found(s, s.found + images_under(nodes.skip(i)))), answers, steps),
    decreases nodes, nodes.len() - i,
{
    let entries = entries_of(nodes);
    let here = within(s, entries, i as nat);
    if i == nodes.len() {
        assert(here.frames.drop_last() =~= s.frames);
        assert(nodes.skip(i) =~= Seq::<TreeNode>::empty());
        assert(s.found + images_under(nodes.skip(i)) =~= s.found);
        assert(ScannerView { frames: here.frames.drop_last(), ..here } == s);
        assert(with_found(s, s.found) == s);
    } else {
        let node = nodes[i];
        let rest = nodes.skip(i + 1);
        lemma_skip_unfolds(nodes, i);
        let top = here.frames.last();
        assert(top == FrameView { entries, next: i as nat });
        let passed = s.frames.push(FrameView { entries, next: (i + 1) as nat });
        assert(here.frames.drop_last().push(FrameView { next: top.next + 1, ..top }) =~= passed);
        assert(top.entries[top.next as int] == node.entry);
        if node.entry.kind == EntryKind::Directory {
            let waiting = ScannerView {
                status: ScanStatusView::Listing(node.entry.path.full),
                frames: passed,
                found: s.found,
            };
            assert(settled(here) == waiting);
            assert(lists_node(answers, node));
            let below = directories_under(node.children);
            let after = directories_under(rest) + steps;
            assert(directories_under(nodes.skip(i)) + steps == 1 + below + after);
            assert(advanced(waiting, answers(node.entry.path.full)) == settled(
                within(waiting, entries_of(node.children), 0),
            ));
            assert(run(waiting, answers, 1 + below + after) == run(
                settled(within(waiting, entries_of(node.children), 0)),
                answers,
                below + after,
            ));
            assert(node.children.skip(0) =~= node.children);
            lemma_walk(waiting, node.children, 0, answers, after);
            let found = s.found + images_under(node.children);
            lemma_settled_ignores_status(
                with_found(waiting, found),
                within(with_found(s, found), entries, (i + 1) as nat),
            );
            lemma_walk(with_found(s, found), nodes, i + 1, answers, steps);
            assert(found + images_under(rest) =~= s.found + images_under(nodes.skip(i)));
        } else {
            let found = if is_image_entry(node.entry) {
                s.found.push(node.entry.path)
            } else {
                s.found
            };
            assert(settled(here) == settled(
                within(with_found(s, found), entries, (i + 1) as nat),
            ));
            lemma_walk(with_found(s, found), nodes, i + 1, answers, steps);
            assert(found + images_under(rest) =~= s.found + images_under(nodes.skip(i)));
        }
    }
}

/// A scan of a tree finds the images of the tree, and nothing else.
///
/// Let the directory `root` hold `content`, and let every listing be answered
/// as the tree has it. Then the scan that starts at `root` is done after one
/// listing for each directory, and what it has found is the sequence of the
/// image files of the tree, directories walked in depth.
pub proof fn lemma_scan_finds_the_images(
    root: Seq<char>,
    content: Seq<TreeNode>,
    answers: spec_fn(Seq<char>) -> ListOutcomeView,
)
    requires
        answers(root) == ListOutcomeView::Entries(entries_of(content)),
        lists_all(answers, content),
    ensures
        run(started(root), answers, 1 + directories_under(content)).status is Done,
        run(started(root), answers, 1 + directories_under(content)).found == images_under(content),
{
    let first = started(root);
    let total = directories_under(content);
    assert(run(first, answers, 1 + total) == run(
        settled(within(first, entries_of(content), 0)),
        answers,
        total,
    ));
    assert(content.skip(0) =~= content);
    lemma_walk(first, content, 0, answers, 0);
    let found = first.found + images_under(content);
    assert(found =~= images_under(content));
    let end = with_found(first, found);
    assert(end.frames.len() == 0);
    assert(settled(end) == ScannerView { status: ScanStatusView::Done, ..end });
}

/// A scan that has ended is not moved by further listings.
pub proof fn lemma_run_rests(
    s: ScannerView,
    answers: spec_fn(Seq<char>) -> ListOutcomeView,
    steps: nat,
)
    requires
        !(s.status is Listing),
    ensures
        run(s, answers, steps) == s,
{
}

/// A run of `n + k` listings is a run of `n` followed by a run of `k`.
pub proof fn lemma_run_splits(
    s: ScannerView,
    answers: spec_fn(Seq<char>) -> ListOutcomeView,
    n: nat,
    k: nat,
)
    ensures
        run(s, answers, n + k) == run(run(s, answers, n), answers, k),
    decreases n,
{
    if n > 0 && s.status is Listing {
        lemma_run_splits(
            advanced(s, answers(s.status->Listing_0)),
            answers,
            (n - 1) as nat,
            k,
        );
        assert((n + k - 1) as nat == (n - 1) as nat + k);
    } else if n > 0 {
        lemma_run_rests(s, answers, k);
    }
}

/// Scanning again gives the same result.
///
/// Two scans of the same root that get the same answers and both come to an
/// end, after however many listings, end in the same state: both done with
/// the same images in the same order, or both failed with the same error.
pub proof fn lemma_scan_repeatable(
    root: Seq<char>,
    answers: spec_fn(Seq<char>) -> ListOutcomeView,
    n: nat,
    m: nat,
)
    requires
        !(run(started(root), answers, n).status is Listing),
        !(run(started(root), answers, m).status is Listing),
    ensures
        run(started(root), answers, n) == run(started(root), answers, m),
{
    if n <= m {
        lemma_run_splits(started(root), answers, n, (m - n) as nat);
        lemma_run_rests(run(started(root), answers, n), answers, (m - n) as nat);
    } else {
        lemma_run_splits(started(root), answers, m, (n - m) as nat);
        lemma_run_rests(run(started(root), answers, m), answers, (n - m) as nat);
    }
}

/// A scan whose root does not exist fails at once, and names the root.
pub proof fn lemma_missing_root_fails(
    root: Seq<char>,
    answers: spec_fn(Seq<char>) -> ListOutcomeView,
    steps: nat,
)
    requires
        answers(root) == ListOutcomeView::Missing,
        steps > 0,
    ensures
        run(started(root), answers, steps).status == ScanStatusView::Failed(
            ScanErrorView::PathNotFound { path: root },
        ),
        run(started(root), answers, steps).found.len() == 0,
{
    let failed = advanced(started(root), answers(root));
    lemma_run_rests(failed, answers, (steps - 1) as nat);
}

} // verus!

//! What is below an output directory: walking it, comparing two walks, and
//! keeping links out of it.

use vstd::multiset::Multiset;
use vstd::prelude::*;

use crate::error::{UnpackError, UnpackErrorView};
use crate::order::{lemma_text_order, sorted_strings, sorted_texts, text_less};
use crate::path::{contains_path, is_below, path_views, FilePath};
use crate::text::texts;

verus! {

/// What a path leads to, links not followed.
#[derive(Debug, Clone, Copy, PartialEq, Eq, Structural)]
pub enum NodeKind {
    /// A regular file.
    File,
    /// A directory.
    Directory,
    /// A symbolic link.
    Symlink,
    /// Anything else.
    Other,
}

/// Whether an extractor may leave this behind.
pub open spec fn acceptable(kind: NodeKind) -> bool {
    kind == NodeKind::File || kind == NodeKind::Directory
}

/// A file met on a walk, with its path as text.
#[derive(Debug)]
pub struct ListedFile {
    /// Its path.
    pub path: FilePath,
    /// Its path as text.
    pub text: String,
}

/// A walk through a directory tree: the directories still to be read and the
/// regular files met so far.
#[derive(Debug)]
pub struct TreeWalk {
    pending: Vec<FilePath>,
    files: Vec<ListedFile>,
}

/// The paths of the files.
pub open spec fn listed_paths(files: Seq<ListedFile>) -> Seq<Seq<Seq<char>>> {
    files.map_values(|f: ListedFile| f.path@)
}

/// The paths of the files as text.
pub open spec fn listed_texts(files: Seq<ListedFile>) -> Seq<Seq<char>> {
    files.map_values(|f: ListedFile| f.text@)
}

/// The directories put off and the files kept after an entry has been noted.
pub open spec fn noted(
    pending: Seq<Seq<Seq<char>>>,
    files: Seq<Seq<Seq<char>>>,
    path: Seq<Seq<char>>,
    kind: NodeKind,
) -> (Seq<Seq<Seq<char>>>, Seq<Seq<Seq<char>>>) {
    match kind {
        NodeKind::Directory => (pending.push(path), files),
        NodeKind::File => (pending, files.push(path)),
        _ => (pending, files),
    }
}

impl TreeWalk {
    /// The directories still to be read.
    pub closed spec fn pending(&self) -> Seq<Seq<Seq<char>>> {
        path_views(self.pending@)
    }

    /// The paths of the files met so far.
    pub closed spec fn paths(&self) -> Seq<Seq<Seq<char>>> {
        listed_paths(self.files@)
    }

    /// The paths of the files met so far, as text.
    pub closed spec fn path_texts(&self) -> Seq<Seq<char>> {
        listed_texts(self.files@)
    }

    /// A walk that is to start at `root`.
    pub fn new(root: FilePath) -> (walk: TreeWalk)
        ensures
            walk.pending() == seq![root@],
            walk.paths() == Seq::<Seq<Seq<char>>>::empty(),
            walk.path_texts() == Seq::<Seq<char>>::empty(),
            walk.paths().len() == walk.path_texts().len(),
    {
        let mut pending: Vec<FilePath> = Vec::new();
        pending.push(root);
        let files: Vec<ListedFile> = Vec::new();
        assert(path_views(pending@) =~= seq![root@]);
        assert(listed_paths(files@) =~= Seq::empty());
        assert(listed_texts(files@) =~= Seq::empty());
        TreeWalk { pending, files }
    }

    /// The directory to be read next: the last one put off.
    pub fn next(&mut self) -> (directory: Option<FilePath>)
        ensures
            final(self).paths() == old(self).paths(),
            final(self).path_texts() == old(self).path_texts(),
            final(self).paths().len() == final(self).path_texts().len(),
            match directory {
                Some(d) => old(self).pending() == final(self).pending().push(d@),
                None => old(self).pending().len() == 0 && final(self).pending().len() == 0,
            },
    {
        let directory: Option<FilePath> = self.pending.pop();
        assert(directory matches Some(d) ==> old(self).pending() =~= self.pending().push(d@));
        directory
    }

    /// Notes an entry of the directory being read: a directory is put off, a
    /// regular file is kept, anything else passed over.
    pub fn note(&mut self, path: FilePath, text: String, kind: NodeKind)
        ensures
            (final(self).pending(), final(self).paths()) == noted(
                old(self).pending(),
                old(self).paths(),
                path@,
                kind,
            ),
            final(self).path_texts() == if kind == NodeKind::File {
                old(self).path_texts().push(text@)
            } else {
                old(self).path_texts()
            },
            final(self).paths().len() == final(self).path_texts().len(),
    {
        let ghost (p, t) = (path@, text@);
        if kind == NodeKind::Directory {
            self.pending.push(path);
            assert(self.pending() =~= old(self).pending().push(p));
        } else if kind == NodeKind::File {
            self.files.push(ListedFile { path, text });
            assert(self.paths() =~= old(self).paths().push(p));
            assert(self.path_texts() =~= old(self).path_texts().push(t));
        }
    }

    /// Notes an entry of a tree that an extractor left behind: as `note`, but a
    /// symbolic link, and what is neither a file nor a directory, is an error.
    pub fn validate(&mut self, path: FilePath, text: String, kind: NodeKind) -> (valid: Result<
        (),
        UnpackError,
    >)
        ensures
            valid is Ok <==> acceptable(kind),
            match kind {
                NodeKind::Symlink => valid matches Err(e) && e@ == (
                UnpackErrorView::LinkProduced { path: text@ }),
                NodeKind::Other => valid matches Err(e) && e@ == (
                UnpackErrorView::UnsupportedProduced { path: text@ }),
                _ => valid is Ok,
            },
            (final(self).pending(), final(self).paths()) == noted(
                old(self).pending(),
                old(self).paths(),
                path@,
                kind,
            ),
            final(self).path_texts() == if kind == NodeKind::File {
                old(self).path_texts().push(text@)
            } else {
                old(self).path_texts()
            },
            final(self).paths().len() == final(self).path_texts().len(),
    {
        if kind == NodeKind::Symlink {
            return Err(UnpackError::LinkProduced { path: text });
        }
        if kind == NodeKind::Other {
            return Err(UnpackError::UnsupportedProduced { path: text });
        }
        self.note(path, text, kind);
        Ok(())
    }

    /// The paths of the files met.
    pub fn into_paths(self) -> (paths: Vec<FilePath>)
        ensures
            path_views(paths@) == self.paths(),
    {
        let mut paths: Vec<FilePath> = Vec::new();
        let mut i: usize = 0;
        assert(path_views(paths@) =~= self.paths().subrange(0, 0));
        while i < self.files.len()
            invariant
                i <= self.files@.len(),
                path_views(paths@) == self.paths().subrange(0, i as int),
            decreases self.files@.len() - i,
        {
            let ghost earlier = path_views(paths@);
            paths.push(self.files[i].path.clone());
            assert(path_views(paths@) =~= earlier.push(self.paths()[i as int]));
            i = i + 1;
            assert(path_views(paths@) =~= self.paths().subrange(0, i as int));
        }
        assert(self.paths().subrange(0, i as int) =~= self.paths());
        paths
    }

    /// The files met that are not among `before`, as sorted text.
    ///
    /// Extractors do not report in a portable way what they wrote, so the files
    /// from before a run are held against those after it.
    pub fn newly_extracted_files(&self, before: &Vec<FilePath>) -> (list: Vec<String>)
        ensures
            self.paths().len() == self.path_texts().len(),
            sorted_texts(texts(list@)),
            texts(list@).to_multiset() == fresh_texts(
                path_views(before@),
                self.paths(),
                self.path_texts(),
            ).to_multiset(),
    {
        let mut fresh: Vec<String> = Vec::new();
        let mut i: usize = 0;
        assert(texts(fresh@) =~= Seq::empty());
        while i < self.files.len()
            invariant
                i <= self.files@.len(),
                texts(fresh@) == fresh_texts(
                    path_views(before@),
                    self.paths().subrange(0, i as int),
                    self.path_texts().subrange(0, i as int),
                ),
            decreases self.files@.len() - i,
        {
            let file: &ListedFile = &self.files[i];
            let ghost earlier = texts(fresh@);
            let ghost paths = self.paths().subrange(0, i + 1);
            let ghost shown = self.path_texts().subrange(0, i + 1);
            assert(paths.drop_last() =~= self.paths().subrange(0, i as int));
            assert(shown.drop_last() =~= self.path_texts().subrange(0, i as int));
            assert(paths.last() == file.path@);
            assert(shown.last() == file.text@);
            if !contains_path(before, &file.path) {
                fresh.push(file.text.clone());
                assert(texts(fresh@) =~= earlier.push(file.text@));
            }
            i = i + 1;
        }
        assert(self.paths().subrange(0, i as int) =~= self.paths());
        assert(self.path_texts().subrange(0, i as int) =~= self.path_texts());
        sorted_strings(fresh)
    }
}

/// The texts of the paths that are not among `before`, in order.
pub open spec fn fresh_texts(
    before: Seq<Seq<Seq<char>>>,
    paths: Seq<Seq<Seq<char>>>,
    shown: Seq<Seq<char>>,
) -> Seq<Seq<char>>
    decreases paths.len(),
{
    if paths.len() == 0 {
        Seq::empty()
    } else {
        let earlier = fresh_texts(before, paths.drop_last(), shown.drop_last());
        if before.contains(paths.last()) {
            earlier
        } else {
            earlier.push(shown.last())
        }
    }
}

/// In every walk there is one text for each path.
pub proof fn law_one_text_for_each_path(walk: TreeWalk)
    ensures
        walk.paths().len() == walk.path_texts().len(),
{
}

/// The texts that are left of distinct ones are distinct.
proof fn lemma_fresh_texts_distinct(
    before: Seq<Seq<Seq<char>>>,
    paths: Seq<Seq<Seq<char>>>,
    shown: Seq<Seq<char>>,
)
    requires
        paths.len() == shown.len(),
        shown.no_duplicates(),
    ensures
        fresh_texts(before, paths, shown).no_duplicates(),
        forall|text: Seq<char>| #[trigger]
            fresh_texts(before, paths, shown).contains(text) ==> shown.contains(text),
    decreases paths.len(),
{
    if paths.len() > 0 {
        let earlier = fresh_texts(before, paths.drop_last(), shown.drop_last());
        let all = fresh_texts(before, paths, shown);
        assert forall|i: int, j: int|
            0 <= i < shown.drop_last().len() && 0 <= j < shown.drop_last().len() && i
                != j implies shown.drop_last()[i] != shown.drop_last()[j] by {
            assert(shown[i] != shown[j]);
        }
        lemma_fresh_texts_distinct(before, paths.drop_last(), shown.drop_last());
        assert(!earlier.contains(shown.last())) by {
            if shown.drop_last().contains(shown.last()) {
                let k = choose|k: int|
                    0 <= k < shown.drop_last().len() && shown.drop_last()[k] == shown.last();
                assert(shown[k] == shown[shown.len() - 1]);
            }
        }
        assert forall|i: int, j: int|
            0 <= i < all.len() && 0 <= j < all.len() && i != j implies all[i] != all[j] by {
            if i < earlier.len() {
                assert(earlier.contains(earlier[i]));
            }
            if j < earlier.len() {
                assert(earlier.contains(earlier[j]));
            }
        }
        assert forall|text: Seq<char>| #[trigger] all.contains(text) implies shown.contains(
            text,
        ) by {
            let k = choose|k: int| 0 <= k < all.len() && all[k] == text;
            if k < earlier.len() {
                assert(earlier.contains(earlier[k]));
                assert(shown.drop_last().contains(text));
                let m = choose|m: int|
                    0 <= m < shown.drop_last().len() && shown.drop_last()[m] == text;
                assert(shown[m] == text);
            } else {
                assert(shown[shown.len() - 1] == text);
            }
        }
    }
}

/// Where every path has a text of its own, the new files that a walk lists are
/// strictly ascending: none is listed twice.
pub proof fn law_new_files_are_listed_once(
    before: Seq<Seq<Seq<char>>>,
    paths: Seq<Seq<Seq<char>>>,
    shown: Seq<Seq<char>>,
    list: Seq<Seq<char>>,
)
    requires
        paths.len() == shown.len(),
        shown.no_duplicates(),
        sorted_texts(list),
        list.to_multiset() == fresh_texts(before, paths, shown).to_multiset(),
    ensures
        forall|i: int, j: int| 0 <= i < j < list.len() ==> #[trigger] text_less(list[i], list[j]),
{
    let fresh = fresh_texts(before, paths, shown);
    lemma_fresh_texts_distinct(before, paths, shown);
    fresh.lemma_multiset_has_no_duplicates();
    assert(list.no_duplicates()) by {
        list.lemma_multiset_has_no_duplicates_conv();
    }
    assert forall|i: int, j: int| 0 <= i < j < list.len() implies #[trigger] text_less(
        list[i],
        list[j],
    ) by {
        lemma_text_order(list[i], list[j], list[j]);
        assert(!text_less(list[j], list[i]));
        assert(list[i] != list[j]);
    }
}

/// The first thing wrong with the path from its component `at` on: a symbolic
/// link anywhere, or anything but a directory before the end.
pub open spec fn first_offence(nodes: Seq<Option<NodeKind>>, at: int) -> Option<UnpackErrorView>
    decreases nodes.len() - at,
{
    if at >= nodes.len() {
        None
    } else if nodes[at] == Some(NodeKind::Symlink) {
        Some(UnpackErrorView::CrossesLink)
    } else if at < nodes.len() - 1 && nodes[at] is Some && nodes[at] != Some(NodeKind::Directory) {
        Some(UnpackErrorView::CrossesNonDirectory)
    } else {
        first_offence(nodes, at + 1)
    }
}

/// Where nothing is wrong no link is met, and directories alone before the end.
pub proof fn lemma_no_offence(nodes: Seq<Option<NodeKind>>, at: int)
    requires
        0 <= at,
        first_offence(nodes, at) is None,
    ensures
        forall|i: int| at <= i < nodes.len() ==> #[trigger] nodes[i] != Some(NodeKind::Symlink),
        forall|i: int|
            at <= i < nodes.len() - 1 && (#[trigger] nodes[i]) is Some ==> nodes[i] == Some(
                NodeKind::Directory,
            ),
    decreases nodes.len() - at,
{
    if at < nodes.len() {
        lemma_no_offence(nodes, at + 1);
    }
}

/// What is wrong with writing to `path` below `root`, if anything. `nodes` says
/// what is at `root` and at each prefix of `path` below it, up to `path`.
pub open spec fn path_offence(
    root: Seq<Seq<char>>,
    path: Seq<Seq<char>>,
    nodes: Seq<Option<NodeKind>>,
) -> Option<UnpackErrorView> {
    if !is_below(path, root) {
        Some(UnpackErrorView::OutsideRoot)
    } else if nodes[0] == Some(NodeKind::Symlink) {
        Some(UnpackErrorView::RootIsLink)
    } else {
        first_offence(nodes, 1)
    }
}

/// The paths that lead from `root` to `path`: `root`, each prefix of `path`
/// below it, and `path`. None if `path` does not lie below `root`.
pub fn paths_to_check(root: &FilePath, path: &FilePath) -> (prefixes: Option<Vec<FilePath>>)
    ensures
        match prefixes {
            None => !is_below(path@, root@),
            Some(list) => {
                &&& is_below(path@, root@)
                &&& list@.len() == path@.len() - root@.len() + 1
                &&& forall|i: int|
                    0 <= i < list@.len() ==> (#[trigger] list@[i])@ == path@.subrange(
                        0,
                        root@.len() + i,
                    )
            },
        },
{
    if !path.starts_with(root) {
        return None;
    }
    let mut list: Vec<FilePath> = Vec::new();
    let mut n: usize = root.len();
    let total: usize = path.len();
    loop
        invariant_except_break
            root@.len() <= n <= total == path@.len(),
            list@.len() == n - root@.len(),
        invariant
            forall|i: int|
                0 <= i < list@.len() ==> (#[trigger] list@[i])@ == path@.subrange(
                    0,
                    root@.len() + i,
                ),
        ensures
            list@.len() == path@.len() - root@.len() + 1,
        decreases total - n,
    {
        list.push(path.prefix(n));
        if n == total {
            break;
        }
        n = n + 1;
    }
    Some(list)
}

/// Refuses to write to `path` through a symbolic link or through anything that
/// is no directory. `nodes` says what is at each of the `paths_to_check`, none
/// where nothing is known to be there.
pub fn reject_symlinked_path(
    root: &FilePath,
    path: &FilePath,
    nodes: &Vec<Option<NodeKind>>,
) -> (safe: Result<(), UnpackError>)
    requires
        is_below(path@, root@) ==> nodes@.len() == path@.len() - root@.len() + 1,
    ensures
        match safe {
            Ok(_) => path_offence(root@, path@, nodes@) is None && is_below(path@, root@)
                && forall|i: int|
                0 <= i < nodes@.len() ==> #[trigger] nodes@[i] != Some(NodeKind::Symlink),
            Err(e) => path_offence(root@, path@, nodes@) == Some(e@),
        },
{
    if !path.starts_with(root) {
        return Err(UnpackError::OutsideRoot);
    }
    if let Some(NodeKind::Symlink) = nodes[0] {
        return Err(UnpackError::RootIsLink);
    }
    let mut at: usize = 1;
    while at < nodes.len()
        invariant
            1 <= at <= nodes@.len(),
            first_offence(nodes@, 1) == first_offence(nodes@, at as int),
            forall|i: int| 0 <= i < at ==> #[trigger] nodes@[i] != Some(NodeKind::Symlink),
            is_below(path@, root@),
        decreases nodes@.len() - at,
    {
        if let Some(kind) = nodes[at] {
            if kind == NodeKind::Symlink {
                return Err(UnpackError::CrossesLink);
            }
            if at < nodes.len() - 1 && kind != NodeKind::Directory {
                return Err(UnpackError::CrossesNonDirectory);
            }
        }
        at = at + 1;
    }
    Ok(())
}

// ---------------------------------------------------------------------------
// Whole walks
// ---------------------------------------------------------------------------

/// A directory tree as it stands on disk.
pub enum Tree {
    /// Anything but a directory.
    Leaf { path: Seq<Seq<char>>, kind: NodeKind },
    /// A directory and what is in it.
    Directory { path: Seq<Seq<char>>, entries: Seq<Tree> },
}

/// What is in a tree, directories aside.
pub open spec fn leaves(tree: Tree) -> Multiset<(Seq<Seq<char>>, NodeKind)>
    decreases tree,
{
    match tree {
        Tree::Leaf { path, kind } => Multiset::singleton((path, kind)),
        Tree::Directory { entries, .. } => leaves_of(entries),
    }
}

/// What is in several trees, directories aside.
pub open spec fn leaves_of(trees: Seq<Tree>) -> Multiset<(Seq<Seq<char>>, NodeKind)>
    decreases trees,
{
    if trees.len() == 0 {
        Multiset::empty()
    } else {
        leaves_of(trees.drop_last()).add(leaves(trees.last()))
    }
}

/// How many directories are in a tree.
pub open spec fn directories(tree: Tree) -> nat
    decreases tree,
{
    match tree {
        Tree::Leaf { .. } => 0,
        Tree::Directory { entries, .. } => 1 + directories_of(entries),
    }
}

/// How many directories are in several trees.
pub open spec fn directories_of(trees: Seq<Tree>) -> nat
    decreases trees,
{
    if trees.len() == 0 {
        0
    } else {
        directories_of(trees.drop_last()) + directories(trees.last())
    }
}

/// The entries of a directory that `TreeWalk::note` puts off, in order.
pub open spec fn put_off(entries: Seq<Tree>) -> Seq<Tree>
    decreases entries.len(),
{
    if entries.len() == 0 {
        Seq::empty()
    } else {
        match entries.last() {
            Tree::Leaf { .. } => put_off(entries.drop_last()),
            Tree::Directory { .. } => put_off(entries.drop_last()).push(entries.last()),
        }
    }
}

/// The other entries of a directory, in order.
pub open spec fn met_in(entries: Seq<Tree>) -> Seq<(Seq<Seq<char>>, NodeKind)>
    decreases entries.len(),
{
    if entries.len() == 0 {
        Seq::empty()
    } else {
        match entries.last() {
            Tree::Leaf { path, kind } => met_in(entries.drop_last()).push((path, kind)),
            Tree::Directory { .. } => met_in(entries.drop_last()),
        }
    }
}

/// What is in several trees, the last one taken apart.
proof fn lemma_last_tree(trees: Seq<Tree>)
    requires
        trees.len() > 0,
    ensures
        match trees.last() {
            Tree::Leaf { path, kind } => {
                &&& directories_of(trees) == directories_of(trees.drop_last())
                &&& leaves_of(trees) == leaves_of(trees.drop_last()).add(
                    Multiset::singleton((path, kind)),
                )
            },
            Tree::Directory { entries, .. } => {
                &&& directories_of(trees) == directories_of(trees.drop_last()) + 1
                    + directories_of(entries)
                &&& leaves_of(trees) == leaves_of(trees.drop_last()).add(leaves_of(entries))
            },
        },
{
    reveal_with_fuel(directories, 3);
    reveal_with_fuel(directories_of, 3);
    reveal_with_fuel(leaves, 3);
    reveal_with_fuel(leaves_of, 3);
}

/// The path of the root of a tree.
pub open spec fn tree_path(tree: Tree) -> Seq<Seq<char>> {
    match tree {
        Tree::Leaf { path, .. } => path,
        Tree::Directory { path, .. } => path,
    }
}

/// What the root of a tree is.
pub open spec fn tree_kind(tree: Tree) -> NodeKind {
    match tree {
        Tree::Leaf { kind, .. } => kind,
        Tree::Directory { .. } => NodeKind::Directory,
    }
}

/// The directories put off and the files kept after the entries of a directory
/// have been noted, one after the other.
pub open spec fn noted_all(
    pending: Seq<Seq<Seq<char>>>,
    files: Seq<Seq<Seq<char>>>,
    entries: Seq<Tree>,
) -> (Seq<Seq<Seq<char>>>, Seq<Seq<Seq<char>>>)
    decreases entries.len(),
{
    if entries.len() == 0 {
        (pending, files)
    } else {
        let earlier = noted_all(pending, files, entries.drop_last());
        noted(earlier.0, earlier.1, tree_path(entries.last()), tree_kind(entries.last()))
    }
}

/// The paths of the regular files among what was met, in order.
pub open spec fn file_paths(met: Seq<(Seq<Seq<char>>, NodeKind)>) -> Seq<Seq<Seq<char>>>
    decreases met.len(),
{
    if met.len() == 0 {
        Seq::empty()
    } else if met.last().1 == NodeKind::File {
        file_paths(met.drop_last()).push(met.last().0)
    } else {
        file_paths(met.drop_last())
    }
}

/// Noting the entries of a directory puts off its directories and keeps its
/// regular files.
pub proof fn law_noting_a_directory(
    pending: Seq<Seq<Seq<char>>>,
    files: Seq<Seq<Seq<char>>>,
    entries: Seq<Tree>,
)
    requires
        forall|i: int|
            0 <= i < entries.len() && #[trigger] entries[i] is Leaf ==> tree_kind(entries[i])
                != NodeKind::Directory,
    ensures
        noted_all(pending, files, entries) == (
            pending + put_off(entries).map_values(|tree: Tree| tree_path(tree)),
            files + file_paths(met_in(entries)),
        ),
    decreases entries.len(),
{
    let to_path = |tree: Tree| tree_path(tree);
    if entries.len() == 0 {
        assert(pending + put_off(entries).map_values(to_path) =~= pending);
        assert(files + file_paths(met_in(entries)) =~= files);
    } else {
        let earlier = entries.drop_last();
        assert forall|i: int| 0 <= i < earlier.len() && #[trigger] earlier[i] is Leaf implies
            tree_kind(earlier[i]) != NodeKind::Directory by {
            assert(earlier[i] == entries[i]);
        }
        law_noting_a_directory(pending, files, earlier);
        assert(entries.last() == entries[entries.len() - 1]);
        match entries.last() {
            Tree::Leaf { path, kind } => {
                assert(met_in(entries).drop_last() =~= met_in(earlier));
                assert(files + file_paths(met_in(earlier)).push(path) =~= (files + file_paths(
                    met_in(earlier),
                )).push(path));
            },
            Tree::Directory { path, .. } => {
                let put = put_off(earlier);
                assert(put_off(entries).map_values(to_path) =~= put.map_values(to_path).push(path));
                assert(pending + put_off(entries).map_values(to_path) =~= (pending + put.map_values(
                    to_path,
                )).push(path));
            },
        }
    }
}

proof fn lemma_directories_add(a: Seq<Tree>, b: Seq<Tree>)
    ensures
        directories_of(a + b) == directories_of(a) + directories_of(b),
    decreases b.len(),
{
    if b.len() == 0 {
        assert(a + b =~= a);
    } else {
        assert((a + b).drop_last() =~= a + b.drop_last());
        lemma_directories_add(a, b.drop_last());
    }
}

proof fn lemma_leaves_add(a: Seq<Tree>, b: Seq<Tree>)
    ensures
        leaves_of(a + b) =~= leaves_of(a).add(leaves_of(b)),
    decreases b.len(),
{
    if b.len() == 0 {
        assert(a + b =~= a);
    } else {
        assert((a + b).drop_last() =~= a + b.drop_last());
        lemma_leaves_add(a, b.drop_last());
    }
}

/// What is put off and what is met make up the entries of a directory.
proof fn lemma_entries_split(entries: Seq<Tree>)
    ensures
        directories_of(put_off(entries)) == directories_of(entries),
        leaves_of(entries) =~= leaves_of(put_off(entries)).add(met_in(entries).to_multiset()),
    decreases entries.len(),
{
    broadcast use vstd::seq_lib::group_to_multiset_ensures;

    if entries.len() > 0 {
        lemma_entries_split(entries.drop_last());
        lemma_last_tree(entries);
        match entries.last() {
            Tree::Leaf { path, kind } => {
                assert(met_in(entries).to_multiset() =~= met_in(
                    entries.drop_last(),
                ).to_multiset().insert((path, kind)));
            },
            Tree::Directory { .. } => {
                let earlier = put_off(entries.drop_last());
                assert(put_off(entries).drop_last() =~= earlier);
                lemma_last_tree(put_off(entries));
            },
        }
    }
}

/// A directory that is read leaves fewer directories to be read.
pub proof fn lemma_reading_goes_on(pending: Seq<Tree>)
    requires
        pending.len() > 0,
        pending.last() is Directory,
    ensures
        directories_of(pending.drop_last() + put_off(pending.last()->entries)) < directories_of(
            pending,
        ),
{
    lemma_last_tree(pending);
    lemma_entries_split(pending.last()->entries);
    lemma_directories_add(pending.drop_last(), put_off(pending.last()->entries));
}

/// What a walk meets, in order, with `pending` put off and `met` met already:
/// the directory put off last is read next, and its entries are noted.
pub open spec fn walk(
    pending: Seq<Tree>,
    met: Seq<(Seq<Seq<char>>, NodeKind)>,
) -> Seq<(Seq<Seq<char>>, NodeKind)>
    decreases directories_of(pending), pending.len(),
{
    if pending.len() == 0 {
        met
    } else {
        match pending.last() {
            Tree::Leaf { .. } => {
                proof {
                    assert(directories(pending.last()) == 0);
                }
                walk(pending.drop_last(), met)
            },
            Tree::Directory { entries, .. } => {
                proof {
                    lemma_reading_goes_on(pending);
                }
                walk(pending.drop_last() + put_off(entries), met + met_in(entries))
            },
        }
    }
}

/// Whether only directories are put off.
spec fn only_directories(pending: Seq<Tree>) -> bool {
    forall|i: int| 0 <= i < pending.len() ==> #[trigger] pending[i] is Directory
}

proof fn lemma_only_directories(entries: Seq<Tree>)
    ensures
        only_directories(put_off(entries)),
    decreases entries.len(),
{
    if entries.len() > 0 {
        lemma_only_directories(entries.drop_last());
    }
}

proof fn lemma_walk(pending: Seq<Tree>, met: Seq<(Seq<Seq<char>>, NodeKind)>)
    requires
        only_directories(pending),
    ensures
        walk(pending, met).to_multiset() =~= met.to_multiset().add(leaves_of(pending)),
    decreases directories_of(pending),
{
    if pending.len() > 0 {
        let entries = pending.last()->entries;
        let rest = pending.drop_last();
        assert(pending.last() is Directory);
        lemma_last_tree(pending);
        lemma_reading_goes_on(pending);
        lemma_only_directories(entries);
        lemma_walk(rest + put_off(entries), met + met_in(entries));
        lemma_entries_split(entries);
        lemma_leaves_add(rest, put_off(entries));
        vstd::seq_lib::lemma_multiset_commutative(met, met_in(entries));
    }
}

/// A walk that starts at the root of a tree meets everything in the tree, and
/// each thing once: what a link leads to is not walked.
pub proof fn law_a_walk_meets_everything_once(root: Seq<Seq<char>>, entries: Seq<Tree>)
    ensures
        ({
            let tree = Tree::Directory { path: root, entries };
            walk(seq![tree], Seq::empty()).to_multiset() == leaves(tree)
        }),
{
    broadcast use vstd::seq_lib::group_to_multiset_ensures;

    let tree = Tree::Directory { path: root, entries };
    let none = Seq::<(Seq<Seq<char>>, NodeKind)>::empty();
    lemma_walk(seq![tree], none);
    lemma_last_tree(seq![tree]);
    assert(seq![tree].drop_last() =~= Seq::empty());
    assert(leaves_of(seq![tree]) =~= leaves(tree));
    assert(none.to_multiset() =~= Multiset::empty());
}

/// Whether a walk that validates what it meets gets through a tree: nothing that
/// it meets, in order, is refused.
pub open spec fn passes_validation(tree: Tree) -> bool {
    let met = walk(seq![tree], Seq::empty());
    forall|i: int| 0 <= i < met.len() ==> acceptable((#[trigger] met[i]).1)
}

/// What an extractor left behind passes validation if and only if there is
/// nothing in it, however deep, but directories and regular files. What is a
/// leaf of the tree is no directory.
pub proof fn law_only_plain_trees_pass_validation(root: Seq<Seq<char>>, entries: Seq<Tree>)
    requires
        ({
            let tree = Tree::Directory { path: root, entries };
            forall|leaf: (Seq<Seq<char>>, NodeKind)| #[trigger]
                leaves(tree).contains(leaf) ==> leaf.1 != NodeKind::Directory
        }),
    ensures
        ({
            let tree = Tree::Directory { path: root, entries };
            passes_validation(tree) <==> forall|leaf: (Seq<Seq<char>>, NodeKind)| #[trigger]
                leaves(tree).contains(leaf) ==> leaf.1 == NodeKind::File
        }),
{
    let tree = Tree::Directory { path: root, entries };
    let met = walk(seq![tree], Seq::empty());
    law_a_walk_meets_everything_once(root, entries);
    assert forall|leaf: (Seq<Seq<char>>, NodeKind)| #[trigger]
        leaves(tree).contains(leaf) <==> met.contains(leaf) by {
        met.to_multiset_ensures();
    }
    if passes_validation(tree) {
        assert forall|leaf: (Seq<Seq<char>>, NodeKind)| #[trigger]
            leaves(tree).contains(leaf) implies leaf.1 == NodeKind::File by {
            let i = choose|i: int| 0 <= i < met.len() && met[i] == leaf;
            assert(acceptable(met[i].1));
        }
    } else {
        let i = choose|i: int| 0 <= i < met.len() && !acceptable((#[trigger] met[i]).1);
        assert(leaves(tree).contains(met[i]));
    }
}

/// When a write is let through: exactly if the path is the root and more
/// components, no link is at any place on the way or at the end, and before the
/// end there is a directory or nothing at each place after the root.
pub proof fn law_when_a_write_is_let_through(
    root: Seq<Seq<char>>,
    more: Seq<Seq<char>>,
    nodes: Seq<Option<NodeKind>>,
)
    requires
        nodes.len() == more.len() + 1,
    ensures
        path_offence(root, root + more, nodes) is None <==> {
            &&& forall|i: int| 0 <= i < nodes.len() ==> #[trigger] nodes[i] != Some(
                NodeKind::Symlink,
            )
            &&& forall|i: int|
                0 < i < nodes.len() - 1 ==> (#[trigger] nodes[i]) is None || nodes[i] == Some(
                    NodeKind::Directory,
                )
        },
        nodes[0] == Some(NodeKind::Symlink) ==> path_offence(root, root + more, nodes) == Some(
            UnpackErrorView::RootIsLink,
        ),
{
    assert((root + more).subrange(0, root.len() as int) =~= root);
    lemma_offence_free(nodes, 1);
}

proof fn lemma_offence_free(nodes: Seq<Option<NodeKind>>, at: int)
    requires
        0 <= at,
    ensures
        first_offence(nodes, at) is None <==> {
            &&& forall|i: int| at <= i < nodes.len() ==> #[trigger] nodes[i] != Some(
                NodeKind::Symlink,
            )
            &&& forall|i: int|
                at <= i < nodes.len() - 1 ==> (#[trigger] nodes[i]) is None || nodes[i] == Some(
                    NodeKind::Directory,
                )
        },
    decreases nodes.len() - at,
{
    if at < nodes.len() {
        lemma_offence_free(nodes, at + 1);
    }
}

/// What a write is refused for: for the first thing on the way that is wrong, a
/// link or something that is no directory; a path that is not the root and more
/// components is refused for that.
pub proof fn law_what_a_write_is_refused_for(
    root: Seq<Seq<char>>,
    more: Seq<Seq<char>>,
    nodes: Seq<Option<NodeKind>>,
    at: int,
    elsewhere: Seq<Seq<char>>,
)
    requires
        nodes.len() == more.len() + 1,
        0 < at < nodes.len(),
        nodes[0] != Some(NodeKind::Symlink),
        forall|i: int|
            0 < i < at ==> (#[trigger] nodes[i]) is None || nodes[i] == Some(NodeKind::Directory),
        forall|rest: Seq<Seq<char>>| #[trigger] (root + rest) != elsewhere,
    ensures
        nodes[at] == Some(NodeKind::Symlink) ==> path_offence(root, root + more, nodes) == Some(
            UnpackErrorView::CrossesLink,
        ),
        at < nodes.len() - 1 && (nodes[at] == Some(NodeKind::File) || nodes[at] == Some(
            NodeKind::Other,
        )) ==> path_offence(root, root + more, nodes) == Some(UnpackErrorView::CrossesNonDirectory),
        path_offence(root, elsewhere, nodes) == Some(UnpackErrorView::OutsideRoot),
{
    assert((root + more).subrange(0, root.len() as int) =~= root);
    lemma_first_offence_at(nodes, 1, at);
    if is_below(elsewhere, root) {
        let rest = elsewhere.subrange(root.len() as int, elsewhere.len() as int);
        assert(root + rest =~= elsewhere) by {
            assert forall|i: int| 0 <= i < root.len() implies root[i] == elsewhere[i] by {
                assert(elsewhere.subrange(0, root.len() as int)[i] == elsewhere[i]);
            }
        }
    }
}

proof fn lemma_first_offence_at(nodes: Seq<Option<NodeKind>>, from: int, at: int)
    requires
        0 < from <= at < nodes.len(),
        forall|i: int|
            from <= i < at ==> (#[trigger] nodes[i]) is None || nodes[i] == Some(
                NodeKind::Directory,
            ),
    ensures
        first_offence(nodes, from) == first_offence(nodes, at),
    decreases at - from,
{
    if from < at {
        assert(nodes[from] is None || nodes[from] == Some(NodeKind::Directory));
        lemma_first_offence_at(nodes, from + 1, at);
    }
}

/// What is new after a run: a file is listed under its text exactly if its path
/// is not among those from before, and what is found first is listed first.
pub proof fn law_new_files_are_those_not_there_before(
    before: Seq<Seq<Seq<char>>>,
    path: Seq<Seq<char>>,
    text: Seq<char>,
    a: Seq<Seq<Seq<char>>>,
    x: Seq<Seq<char>>,
    b: Seq<Seq<Seq<char>>>,
    y: Seq<Seq<char>>,
)
    requires
        a.len() == x.len(),
        b.len() == y.len(),
    ensures
        fresh_texts(before, Seq::empty(), Seq::empty()) == Seq::<Seq<char>>::empty(),
        before.contains(path) ==> fresh_texts(before, seq![path], seq![text]) == Seq::<
            Seq<char>,
        >::empty(),
        !before.contains(path) ==> fresh_texts(before, seq![path], seq![text]) == seq![text],
        fresh_texts(before, a + b, x + y) == fresh_texts(before, a, x) + fresh_texts(before, b, y),
    decreases b.len(),
{
    reveal_with_fuel(fresh_texts, 2);
    assert(seq![path].drop_last() =~= Seq::empty());
    assert(seq![text].drop_last() =~= Seq::empty());
    if b.len() == 0 {
        assert(a + b =~= a && x + y =~= x);
    } else {
        law_new_files_are_those_not_there_before(
            before,
            path,
            text,
            a,
            x,
            b.drop_last(),
            y.drop_last(),
        );
        assert((a + b).drop_last() =~= a + b.drop_last());
        assert((x + y).drop_last() =~= x + y.drop_last());
    }
}

/// What noting an entry does: a directory is put off last, a file is kept last,
/// and what is neither changes nothing.
pub proof fn law_what_noting_an_entry_does(
    pending: Seq<Seq<Seq<char>>>,
    files: Seq<Seq<Seq<char>>>,
    path: Seq<Seq<char>>,
)
    ensures
        noted(pending, files, path, NodeKind::Directory).0 == pending + seq![path],
        noted(pending, files, path, NodeKind::Directory).1 == files,
        noted(pending, files, path, NodeKind::File).0 == pending,
        noted(pending, files, path, NodeKind::File).1 == files + seq![path],
        noted(pending, files, path, NodeKind::Symlink) == (pending, files),
        noted(pending, files, path, NodeKind::Other) == (pending, files),
        acceptable(NodeKind::File) && acceptable(NodeKind::Directory),
        !acceptable(NodeKind::Symlink) && !acceptable(NodeKind::Other),
{
    assert(pending.push(path) =~= pending + seq![path]);
    assert(files.push(path) =~= files + seq![path]);
}

} // verus!

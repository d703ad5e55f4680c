//! The entries of ZIP and TAR archives: which of them are written, and where.

use vstd::prelude::*;

use crate::error::{UnpackError, UnpackErrorView};
use crate::path::{
    contains_path, entry_parts, is_below, is_unsafe_name, lemma_entry_parts_ok, path_views, FilePath,
};
use crate::text::texts;
use crate::tree::{lemma_no_offence, path_offence, reject_symlinked_path, NodeKind};
use crate::unpack::UnpackResult;

verus! {

/// What is to be done for an entry of an archive.
#[derive(Debug)]
pub enum EntryAction {
    /// Make a directory at this path.
    MakeDirectory(FilePath),
    /// Write the entry's contents to a file at this path.
    WriteFile(FilePath),
}

/// What an `EntryAction` holds.
pub enum EntryActionView {
    MakeDirectory(Seq<Seq<char>>),
    WriteFile(Seq<Seq<char>>),
}

impl View for EntryAction {
    type V = EntryActionView;

    open spec fn view(&self) -> EntryActionView {
        match self {
            EntryAction::MakeDirectory(path) => EntryActionView::MakeDirectory(path@),
            EntryAction::WriteFile(path) => EntryActionView::WriteFile(path@),
        }
    }
}

/// The path that is written to, or made a directory.
pub open spec fn action_path(action: EntryActionView) -> Seq<Seq<char>> {
    match action {
        EntryActionView::MakeDirectory(path) => path,
        EntryActionView::WriteFile(path) => path,
    }
}

impl EntryAction {
    /// The path that is written to, or made a directory.
    pub fn path(&self) -> (path: &FilePath)
        ensures
            path@ == action_path(self@),
    {
        match self {
            EntryAction::MakeDirectory(path) => path,
            EntryAction::WriteFile(path) => path,
        }
    }

    /// The action, unless a link or anything else that is no directory stands on
    /// its path. `nodes` says what is at each of the `paths_to_check`.
    pub fn checked(self, root: &FilePath, nodes: &Vec<Option<NodeKind>>) -> (checked: Result<
        EntryAction,
        UnpackError,
    >)
        requires
            is_below(action_path(self@), root@) ==> nodes@.len() == action_path(self@).len()
                - root@.len() + 1,
        ensures
            match checked {
                Ok(action) => {
                    &&& action == self
                    &&& path_offence(root@, action_path(self@), nodes@) is None
                },
                Err(e) => path_offence(root@, action_path(self@), nodes@) == Some(e@),
            },
    {
        match reject_symlinked_path(root, self.path(), nodes) {
            Ok(_) => Ok(self),
            Err(e) => Err(e),
        }
    }
}

/// What a verdict on an entry holds.
pub open spec fn verdict_view(verdict: Result<EntryAction, UnpackError>) -> Result<
    EntryActionView,
    UnpackErrorView,
> {
    match verdict {
        Ok(action) => Ok(action@),
        Err(e) => Err(e@),
    }
}

/// The output path of the entry with the given name, or that the name is
/// unsafe.
pub fn safe_archive_output_path(root: &FilePath, name: &str, kind: &str) -> (path: Result<
    FilePath,
    UnpackError,
>)
    ensures
        match path {
            Ok(p) => !is_unsafe_name(name@) && p@ == root@ + entry_parts(name@),
            Err(e) => is_unsafe_name(name@) && e@ == (UnpackErrorView::UnsafePath {
                kind: kind@,
                name: name@,
            }),
        },
{
    match root.safe_join(name) {
        Some(path) => Ok(path),
        None => Err(UnpackError::UnsafePath { kind: kind.to_owned(), name: name.to_owned() }),
    }
}

/// `tar::EntryType::is_symlink` holds of the type that `tar::EntryType::new`
/// makes of the type flag `2`, and of no other.
#[verifier::external_body]
fn flag_is_symlink(flag: u8) -> (symlink: bool)
    ensures
        symlink == (flag == 0x32),
{
    tar::EntryType::new(flag).is_symlink()
}

/// `tar::EntryType::is_hard_link` holds of the type that `tar::EntryType::new`
/// makes of the type flag `1`, and of no other.
#[verifier::external_body]
fn flag_is_hard_link(flag: u8) -> (hard_link: bool)
    ensures
        hard_link == (flag == 0x31),
{
    tar::EntryType::new(flag).is_hard_link()
}

/// `tar::EntryType::is_dir` holds of the type that `tar::EntryType::new` makes
/// of the type flag `5`, and of no other.
#[verifier::external_body]
fn flag_is_dir(flag: u8) -> (dir: bool)
    ensures
        dir == (flag == 0x35),
{
    tar::EntryType::new(flag).is_dir()
}

/// `tar::EntryType::is_file` holds of the type that `tar::EntryType::new` makes
/// of the type flag `0` and of a zero byte, and of no other.
#[verifier::external_body]
fn flag_is_file(flag: u8) -> (file: bool)
    ensures
        file == (flag == 0x30 || flag == 0),
{
    tar::EntryType::new(flag).is_file()
}

/// What is done for an entry of a ZIP archive, given the output paths of the
/// entries before it.
pub open spec fn zip_verdict(
    root: Seq<Seq<char>>,
    outputs: Seq<Seq<Seq<char>>>,
    name: Seq<char>,
    is_symlink: bool,
    is_dir: bool,
) -> Result<EntryActionView, UnpackErrorView> {
    let path = root + entry_parts(name);
    if is_symlink {
        Err(UnpackErrorView::SymbolicLink { kind: "ZIP"@, name })
    } else if is_unsafe_name(name) {
        Err(UnpackErrorView::UnsafePath { kind: "ZIP"@, name })
    } else if outputs.contains(path) {
        Err(UnpackErrorView::DuplicatePath { kind: "ZIP"@, name })
    } else if is_dir {
        Ok(EntryActionView::MakeDirectory(path))
    } else {
        Ok(EntryActionView::WriteFile(path))
    }
}

/// What is done for an entry of a TAR archive with the given type flag, given
/// the output paths of the entries before it.
pub open spec fn tar_verdict(
    root: Seq<Seq<char>>,
    outputs: Seq<Seq<Seq<char>>>,
    name: Seq<char>,
    flag: u8,
) -> Result<EntryActionView, UnpackErrorView> {
    let path = root + entry_parts(name);
    if flag == 0x32 {
        Err(UnpackErrorView::SymbolicLink { kind: "TAR"@, name })
    } else if flag == 0x31 {
        Err(UnpackErrorView::HardLink { name })
    } else if is_unsafe_name(name) {
        Err(UnpackErrorView::UnsafePath { kind: "TAR"@, name })
    } else if outputs.contains(path) {
        Err(UnpackErrorView::DuplicatePath { kind: "TAR"@, name })
    } else if flag == 0x35 {
        Ok(EntryActionView::MakeDirectory(path))
    } else if flag == 0x30 || flag == 0 {
        Ok(EntryActionView::WriteFile(path))
    } else {
        Err(UnpackErrorView::UnsupportedEntry { name })
    }
}

/// Whether the paths all differ and all lie below `root`.
pub open spec fn outputs_ok(root: Seq<Seq<char>>, outputs: Seq<Seq<Seq<char>>>) -> bool {
    &&& outputs.no_duplicates()
    &&& forall|i: int| 0 <= i < outputs.len() ==> is_below(#[trigger] outputs[i], root)
}

/// The output paths taken, once there is a verdict on the next entry: that of an
/// entry that is neither a file nor a directory is taken before it is refused.
pub open spec fn outputs_after(
    outputs: Seq<Seq<Seq<char>>>,
    path: Seq<Seq<char>>,
    verdict: Result<EntryActionView, UnpackErrorView>,
) -> Seq<Seq<Seq<char>>> {
    match verdict {
        Ok(_) => outputs.push(path),
        Err(e) => if e is UnsupportedEntry {
            outputs.push(path)
        } else {
            outputs
        },
    }
}

/// The files written, once there is a verdict on the next entry.
pub open spec fn written_after(
    written: Seq<Seq<Seq<char>>>,
    verdict: Result<EntryActionView, UnpackErrorView>,
) -> Seq<Seq<Seq<char>>> {
    match verdict {
        Ok(EntryActionView::WriteFile(path)) => written.push(path),
        _ => written,
    }
}

/// The extraction of one archive into a directory: the output paths that its
/// entries have taken so far, and those of the files among them. They all differ
/// and all lie below the directory.
#[derive(Debug)]
pub struct ArchivePlan {
    root: FilePath,
    outputs: Vec<FilePath>,
    written: Vec<FilePath>,
}

impl ArchivePlan {
    /// The directory that the archive is extracted into.
    pub closed spec fn root(&self) -> Seq<Seq<char>> {
        self.root@
    }

    /// The output paths of the entries so far.
    pub closed spec fn outputs(&self) -> Seq<Seq<Seq<char>>> {
        path_views(self.outputs@)
    }

    /// The paths of the files to be written so far, in order.
    pub closed spec fn written(&self) -> Seq<Seq<Seq<char>>> {
        path_views(self.written@)
    }

    #[verifier::type_invariant]
    spec fn well_formed(self) -> bool {
        outputs_ok(self.root(), self.outputs())
    }

    /// The extraction of an archive of which no entry has been seen.
    pub fn new(root: FilePath) -> (plan: ArchivePlan)
        ensures
            plan.root() == root@,
            plan.outputs() == Seq::<Seq<Seq<char>>>::empty(),
            plan.written() == Seq::<Seq<Seq<char>>>::empty(),
            outputs_ok(plan.root(), plan.outputs()),
    {
        let outputs: Vec<FilePath> = Vec::new();
        let written: Vec<FilePath> = Vec::new();
        assert(path_views(outputs@) =~= Seq::empty());
        assert(path_views(written@) =~= Seq::empty());
        ArchivePlan { root, outputs, written }
    }

    /// Takes the output path of the next entry, unless it is unsafe or taken.
    fn take(&mut self, name: &str, kind: &str) -> (taken: Result<FilePath, UnpackError>)
        ensures
            outputs_ok(final(self).root(), final(self).outputs()),
            final(self).root() == old(self).root(),
            final(self).written() == old(self).written(),
            ({
                let path = old(self).root() + entry_parts(name@);
                match taken {
                    Ok(p) => {
                        &&& !is_unsafe_name(name@)
                        &&& !old(self).outputs().contains(path)
                        &&& p@ == path
                        &&& final(self).outputs() == old(self).outputs().push(path)
                    },
                    Err(e) => {
                        &&& final(self).outputs() == old(self).outputs()
                        &&& is_unsafe_name(name@) ==> e@ == (UnpackErrorView::UnsafePath {
                            kind: kind@,
                            name: name@,
                        })
                        &&& !is_unsafe_name(name@) ==> old(self).outputs().contains(path)
                            && e@ == (UnpackErrorView::DuplicatePath { kind: kind@, name: name@ })
                    },
                }
            }),
    {
        proof {
            use_type_invariant(&*self);
        }
        let path: FilePath = match safe_archive_output_path(&self.root, name, kind) {
            Ok(path) => path,
            Err(e) => {
                return Err(e);
            },
        };
        if contains_path(&self.outputs, &path) {
            return Err(
                UnpackError::DuplicatePath { kind: kind.to_owned(), name: name.to_owned() },
            );
        }
        let mut outputs: Vec<FilePath> = Vec::new();
        std::mem::swap(&mut outputs, &mut self.outputs);
        let ghost before = path_views(outputs@);
        outputs.push(path.clone());
        assert(path_views(outputs@) =~= before.push(path@));
        assert(outputs_ok(self.root(), path_views(outputs@))) by {
            let after = path_views(outputs@);
            assert(is_below(path@, self.root())) by {
                assert(path@.subrange(0, self.root().len() as int) =~= self.root());
            }
            assert forall|i: int| 0 <= i < after.len() implies is_below(
                #[trigger] after[i],
                self.root(),
            ) by {
                if i < before.len() {
                    assert(after[i] == before[i]);
                }
            }
            assert(after.no_duplicates()) by {
                assert forall|i: int, j: int|
                    0 <= i < after.len() && 0 <= j < after.len() && i != j implies after[i]
                    != after[j] by {
                    if i < before.len() && j < before.len() {
                        assert(before[i] != before[j]);
                    } else if i < before.len() {
                        assert(before.contains(before[i]));
                    } else {
                        assert(before.contains(before[j]));
                    }
                }
            }
        }
        self.outputs = outputs;
        Ok(path)
    }

    /// Has a file written at a path.
    fn write(&mut self, path: FilePath) -> (action: EntryAction)
        requires
            outputs_ok(old(self).root(), old(self).outputs()),
        ensures
            action@ == EntryActionView::WriteFile(path@),
            final(self).root() == old(self).root(),
            final(self).outputs() == old(self).outputs(),
            final(self).written() == old(self).written().push(path@),
    {
        let mut written: Vec<FilePath> = Vec::new();
        std::mem::swap(&mut written, &mut self.written);
        let ghost before = path_views(written@);
        written.push(path.clone());
        assert(path_views(written@) =~= before.push(path@));
        self.written = written;
        EntryAction::WriteFile(path)
    }

    /// What is to be done for the next entry of a ZIP archive.
    pub fn zip_entry(&mut self, name: &str, is_symlink: bool, is_dir: bool) -> (verdict: Result<
        EntryAction,
        UnpackError,
    >)
        ensures
            outputs_ok(final(self).root(), final(self).outputs()),
            final(self).root() == old(self).root(),
            verdict_view(verdict) == zip_verdict(
                old(self).root(),
                old(self).outputs(),
                name@,
                is_symlink,
                is_dir,
            ),
            final(self).outputs() == outputs_after(
                old(self).outputs(),
                old(self).root() + entry_parts(name@),
                verdict_view(verdict),
            ),
            final(self).written() == written_after(old(self).written(), verdict_view(verdict)),
    {
        proof {
            use_type_invariant(&*self);
        }
        if is_symlink {
            return Err(UnpackError::SymbolicLink { kind: "ZIP".to_owned(), name: name.to_owned() });
        }
        match self.take(name, "ZIP") {
            Err(e) => Err(e),
            Ok(path) => if is_dir {
                Ok(EntryAction::MakeDirectory(path))
            } else {
                Ok(self.write(path))
            },
        }
    }

    /// What is to be done for the next entry of a TAR archive, given the type
    /// flag in its header. An entry that is neither a file nor a directory has
    /// taken its output path before it is refused.
    pub fn tar_entry(&mut self, name: &str, flag: u8) -> (verdict: Result<EntryAction, UnpackError>)
        ensures
            outputs_ok(final(self).root(), final(self).outputs()),
            final(self).root() == old(self).root(),
            verdict_view(verdict) == tar_verdict(
                old(self).root(),
                old(self).outputs(),
                name@,
                flag,
            ),
            final(self).outputs() == outputs_after(
                old(self).outputs(),
                old(self).root() + entry_parts(name@),
                verdict_view(verdict),
            ),
            final(self).written() == written_after(old(self).written(), verdict_view(verdict)),
    {
        proof {
            use_type_invariant(&*self);
        }
        if flag_is_symlink(flag) {
            return Err(UnpackError::SymbolicLink { kind: "TAR".to_owned(), name: name.to_owned() });
        }
        if flag_is_hard_link(flag) {
            return Err(UnpackError::HardLink { name: name.to_owned() });
        }
        let path: FilePath = match self.take(name, "TAR") {
            Err(e) => {
                return Err(e);
            },
            Ok(path) => path,
        };
        if flag_is_dir(flag) {
            return Ok(EntryAction::MakeDirectory(path));
        }
        if !flag_is_file(flag) {
            return Err(UnpackError::UnsupportedEntry { name: name.to_owned() });
        }
        Ok(self.write(path))
    }

    /// The files to be written so far, in order.
    pub fn written_files(&self) -> (files: &Vec<FilePath>)
        ensures
            path_views(files@) == self.written(),
    {
        &self.written
    }

    /// The result of an extraction that got through the archive: the files that
    /// were written, in order, as they are to be shown.
    pub fn finish(self, shown: Vec<String>) -> (result: UnpackResult)
        requires
            shown@.len() == self.written().len(),
        ensures
            result.success,
            texts(result.files_extracted@) == texts(shown@),
            result.files_extracted@.len() == self.written().len(),
            result.output@.len() == 0,
            result.error_output@.len() == 0,
    {
        UnpackResult {
            success: true,
            files_extracted: shown,
            output: String::new(),
            error_output: String::new(),
        }
    }
}

/// Whether a path is that of something below `root`, reached by names alone:
/// no component that was added is `..` or `.`, or holds a slash.
pub open spec fn stays_below(path: Seq<Seq<char>>, root: Seq<Seq<char>>) -> bool {
    &&& is_below(path, root)
    &&& forall|i: int|
        root.len() <= i < path.len() ==> {
            &&& #[trigger] path[i] != seq!['.', '.']
            &&& path[i] != seq!['.']
            &&& path[i].len() > 0
            &&& !path[i].contains('/')
        }
}

/// A safe name leads to a place below the root.
proof fn lemma_safe_names_stay_below(root: Seq<Seq<char>>, name: Seq<char>)
    requires
        !is_unsafe_name(name),
    ensures
        stays_below(root + entry_parts(name), root),
{
    let path = root + entry_parts(name);
    assert(path.subrange(0, root.len() as int) =~= root);
    assert forall|i: int| root.len() <= i < path.len() implies {
        &&& #[trigger] path[i] != seq!['.', '.']
        &&& path[i] != seq!['.']
        &&& path[i].len() > 0
        &&& !path[i].contains('/')
    } by {
        lemma_entry_parts_ok(name, i - root.len());
        assert(path[i] == entry_parts(name)[i - root.len()]);
    }
}

/// Nothing that an archive holds is written outside the directory that the
/// archive is extracted into.
pub proof fn law_entries_stay_below_the_root(
    root: Seq<Seq<char>>,
    outputs: Seq<Seq<Seq<char>>>,
    name: Seq<char>,
    is_symlink: bool,
    is_dir: bool,
    flag: u8,
)
    ensures
        zip_verdict(root, outputs, name, is_symlink, is_dir) matches Ok(action) ==> stays_below(
            action_path(action),
            root,
        ),
        tar_verdict(root, outputs, name, flag) matches Ok(action) ==> stays_below(
            action_path(action),
            root,
        ),
{
    if !is_unsafe_name(name) {
        lemma_safe_names_stay_below(root, name);
    }
}

/// No entry of an archive is written where an earlier one was.
pub proof fn law_entries_never_overwrite_each_other(
    root: Seq<Seq<char>>,
    outputs: Seq<Seq<Seq<char>>>,
    name: Seq<char>,
    is_symlink: bool,
    is_dir: bool,
    flag: u8,
)
    ensures
        zip_verdict(root, outputs, name, is_symlink, is_dir) matches Ok(action)
            ==> !outputs.contains(action_path(action)),
        tar_verdict(root, outputs, name, flag) matches Ok(action) ==> !outputs.contains(
            action_path(action),
        ),
{
}

/// No link is made, whatever its name.
pub proof fn law_links_are_refused(
    root: Seq<Seq<char>>,
    outputs: Seq<Seq<Seq<char>>>,
    name: Seq<char>,
    is_dir: bool,
)
    ensures
        zip_verdict(root, outputs, name, true, is_dir) is Err,
        tar_verdict(root, outputs, name, 0x31) is Err,
        tar_verdict(root, outputs, name, 0x32) is Err,
{
}

/// An entry that was accepted and then checked is written below the root, with
/// nothing but directories, or nothing yet, on the way to it and no link at its
/// place.
pub proof fn law_no_write_goes_through_a_link(
    root: Seq<Seq<char>>,
    outputs: Seq<Seq<Seq<char>>>,
    name: Seq<char>,
    verdict: Result<EntryActionView, UnpackErrorView>,
    is_dir: bool,
    flag: u8,
    nodes: Seq<Option<NodeKind>>,
)
    requires
        verdict == zip_verdict(root, outputs, name, false, is_dir) || verdict == tar_verdict(
            root,
            outputs,
            name,
            flag,
        ),
        verdict is Ok,
        nodes.len() == action_path(verdict->Ok_0).len() - root.len() + 1,
        path_offence(root, action_path(verdict->Ok_0), nodes) is None,
    ensures
        stays_below(action_path(verdict->Ok_0), root),
        forall|i: int| 0 <= i < nodes.len() ==> #[trigger] nodes[i] != Some(NodeKind::Symlink),
        forall|i: int|
            1 <= i < nodes.len() - 1 && (#[trigger] nodes[i]) is Some ==> nodes[i] == Some(
                NodeKind::Directory,
            ),
{
    law_entries_stay_below_the_root(root, outputs, name, false, is_dir, flag);
    lemma_no_offence(nodes, 1);
}

/// Every entry with a safe name whose output path no earlier entry took is
/// accepted, at its own place below the root: a ZIP entry that is no link, and a
/// TAR entry with the flag of a file (`0` or a zero byte) or of a directory (`5`).
/// That an earlier entry lies above or below it is no obstacle.
pub proof fn law_good_entries_are_accepted(
    root: Seq<Seq<char>>,
    outputs: Seq<Seq<Seq<char>>>,
    name: Seq<char>,
)
    requires
        !is_unsafe_name(name),
        forall|i: int| 0 <= i < outputs.len() ==> #[trigger] outputs[i] != root + entry_parts(name),
    ensures
        ({
            let file = Ok::<EntryActionView, UnpackErrorView>(
                EntryActionView::WriteFile(root + entry_parts(name)),
            );
            let directory = Ok::<EntryActionView, UnpackErrorView>(
                EntryActionView::MakeDirectory(root + entry_parts(name)),
            );
            &&& zip_verdict(root, outputs, name, false, false) == file
            &&& zip_verdict(root, outputs, name, false, true) == directory
            &&& tar_verdict(root, outputs, name, 48) == file
            &&& tar_verdict(root, outputs, name, 0) == file
            &&& tar_verdict(root, outputs, name, 53) == directory
        }),
{
    if outputs.contains(root + entry_parts(name)) {
        let i = choose|i: int|
            0 <= i < outputs.len() && outputs[i] == root + entry_parts(name);
        assert(outputs[i] != root + entry_parts(name));
    }
}

/// What an entry is refused for, and that it is refused: a link for being one,
/// whatever its name; else an unsafe name for that; else an output path that an
/// earlier entry took, at any place, for that; else, in a TAR, a flag that is
/// neither that of a file nor of a directory. The error names the entry.
pub proof fn law_bad_entries_are_refused(
    root: Seq<Seq<char>>,
    outputs: Seq<Seq<Seq<char>>>,
    name: Seq<char>,
    is_dir: bool,
    flag: u8,
    i: int,
)
    ensures
        zip_verdict(root, outputs, name, true, is_dir) == Err::<EntryActionView, UnpackErrorView>(
            UnpackErrorView::SymbolicLink { kind: "ZIP"@, name },
        ),
        tar_verdict(root, outputs, name, 50) == Err::<EntryActionView, UnpackErrorView>(
            UnpackErrorView::SymbolicLink { kind: "TAR"@, name },
        ),
        tar_verdict(root, outputs, name, 49) == Err::<EntryActionView, UnpackErrorView>(
            UnpackErrorView::HardLink { name },
        ),
        is_unsafe_name(name) ==> zip_verdict(root, outputs, name, false, is_dir) == Err::<
            EntryActionView,
            UnpackErrorView,
        >(UnpackErrorView::UnsafePath { kind: "ZIP"@, name }),
        is_unsafe_name(name) && flag != 49 && flag != 50 ==> tar_verdict(root, outputs, name, flag)
            == Err::<EntryActionView, UnpackErrorView>(
            UnpackErrorView::UnsafePath { kind: "TAR"@, name },
        ),
        !is_unsafe_name(name) && 0 <= i < outputs.len() && outputs[i] == root + entry_parts(name)
            ==> zip_verdict(root, outputs, name, false, is_dir) == Err::<
            EntryActionView,
            UnpackErrorView,
        >(UnpackErrorView::DuplicatePath { kind: "ZIP"@, name }),
        !is_unsafe_name(name) && 0 <= i < outputs.len() && outputs[i] == root + entry_parts(name)
            && flag != 49 && flag != 50 ==> tar_verdict(root, outputs, name, flag) == Err::<
            EntryActionView,
            UnpackErrorView,
        >(UnpackErrorView::DuplicatePath { kind: "TAR"@, name }),
        !is_unsafe_name(name) && !outputs.contains(root + entry_parts(name)) && flag != 0 && flag
            != 48 && flag != 49 && flag != 50 && flag != 53 ==> tar_verdict(
            root,
            outputs,
            name,
            flag,
        ) == Err::<EntryActionView, UnpackErrorView>(UnpackErrorView::UnsupportedEntry { name }),
{
    if 0 <= i < outputs.len() && outputs[i] == root + entry_parts(name) {
        assert(outputs.contains(outputs[i]));
    }
}

/// The list of written files grows by every file that is to be written, at its
/// end, and by nothing else.
pub proof fn law_exactly_the_files_are_listed(
    written: Seq<Seq<Seq<char>>>,
    path: Seq<Seq<char>>,
    error: UnpackErrorView,
)
    ensures
        written_after(written, Ok(EntryActionView::WriteFile(path))) == written + seq![path],
        written_after(written, Ok(EntryActionView::MakeDirectory(path))) == written,
        written_after(written, Err(error)) == written,
        action_path(EntryActionView::WriteFile(path)) == path,
        action_path(EntryActionView::MakeDirectory(path)) == path,
{
    assert(written.push(path) =~= written + seq![path]);
}

/// One entry of an archive, as it is looked at.
pub struct EntryView {
    pub name: Seq<char>,
    pub is_dir: bool,
}

/// The output paths of entries that were all accepted.
pub open spec fn outputs_of(root: Seq<Seq<char>>, entries: Seq<EntryView>) -> Seq<Seq<Seq<char>>> {
    entries.map_values(|entry: EntryView| root + entry_parts(entry.name))
}

/// An archive whose entries have safe names and pairwise different output paths
/// is extracted whole: the entry at any position is accepted, whatever came
/// before it, be it the directory it is in.
pub proof fn law_good_archives_are_extracted_whole(
    root: Seq<Seq<char>>,
    entries: Seq<EntryView>,
    at: int,
)
    requires
        0 <= at < entries.len(),
        forall|i: int| 0 <= i < entries.len() ==> !is_unsafe_name((#[trigger] entries[i]).name),
        forall|i: int, j: int|
            0 <= i < j < entries.len() ==> entry_parts((#[trigger] entries[i]).name)
                != entry_parts((#[trigger] entries[j]).name),
    ensures
        zip_verdict(
            root,
            outputs_of(root, entries.take(at)),
            entries[at].name,
            false,
            entries[at].is_dir,
        ) is Ok,
        tar_verdict(
            root,
            outputs_of(root, entries.take(at)),
            entries[at].name,
            if entries[at].is_dir {
                53
            } else {
                48
            },
        ) is Ok,
{
    let outputs = outputs_of(root, entries.take(at));
    let name = entries[at].name;
    assert forall|i: int| 0 <= i < outputs.len() implies #[trigger] outputs[i] != root
        + entry_parts(name) by {
        assert(outputs[i] == root + entry_parts(entries[i].name));
        assert(entry_parts(entries[i].name) != entry_parts(entries[at].name));
        if root + entry_parts(entries[i].name) == root + entry_parts(name) {
            let (a, b) = (entry_parts(entries[i].name), entry_parts(name));
            assert((root + a).len() == (root + b).len());
            assert forall|k: int| 0 <= k < a.len() implies a[k] == b[k] by {
                assert((root + a)[root.len() + k] == (root + b)[root.len() + k]);
            }
            assert(a =~= b);
        }
    }
    law_good_entries_are_accepted(root, outputs, name);
}

/// Two entries of an archive that name the same place are never both accepted: once
/// the first was, as a file or as a directory, the second is a duplicate, however
/// many entries are in between. Nothing that was taken is given up.
pub proof fn law_a_place_is_taken_once(
    root: Seq<Seq<char>>,
    outputs: Seq<Seq<Seq<char>>>,
    path: Seq<Seq<char>>,
    verdict: Result<EntryActionView, UnpackErrorView>,
    more: Seq<Seq<Seq<char>>>,
    name: Seq<char>,
    is_dir: bool,
    flag: u8,
)
    requires
        verdict is Ok,
        path == root + entry_parts(name),
    ensures
        zip_verdict(root, outputs_after(outputs, path, verdict) + more, name, false, is_dir) is Err,
        tar_verdict(root, outputs_after(outputs, path, verdict) + more, name, flag) is Err,
        outputs_after(outputs, path, verdict) == outputs + seq![path],
{
    let taken = outputs_after(outputs, path, verdict);
    assert(taken =~= outputs + seq![path]);
    assert((taken + more)[outputs.len() as int] == path);
}

/// An entry that was refused has taken no place, unless it is of a kind that is not
/// supported.
pub proof fn law_refused_entries_take_no_place(
    outputs: Seq<Seq<Seq<char>>>,
    path: Seq<Seq<char>>,
    error: UnpackErrorView,
)
    ensures
        error !is UnsupportedEntry ==> outputs_after(outputs, path, Err(error)) == outputs,
        error is UnsupportedEntry ==> outputs_after(outputs, path, Err(error)) == outputs
            + seq![path],
{
    assert(outputs.push(path) =~= outputs + seq![path]);
}

} // verus!

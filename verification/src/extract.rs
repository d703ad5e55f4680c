//! The extract stage: which archives are extracted, in what order, how deep
//! into archives within archives, and what the stage reports.
//!
//! The stage alternates listings and extractions, which the caller does, with
//! decisions, which are here: every method takes what the caller found and
//! says what is to be done next.

use vstd::prelude::*;
use vstd::string::StringExecFns;

use crate::path::{contains_path, path_views, FilePath};
use crate::stage::{stage_result, stage_view, StageResult, StageStatus, StageView};
use crate::text::{
    decimal, decimal_text, first_line, head_line, join, joined, texts, trim, trimmed,
};
use crate::unpack::UnpackResult;

verus! {

/// The kinds of archives.
#[derive(Debug, Clone, Copy, PartialEq, Eq, Structural)]
pub enum ArchiveType {
    Rar,
    SevenZip,
    Tar,
    Zip,
}

/// An archive found in a directory.
#[derive(Debug)]
pub struct Archive {
    /// Its kind.
    pub kind: ArchiveType,
    /// What its kind is called in messages.
    pub label: String,
    /// Its path; of an archive in several volumes, that of the first one.
    pub path: FilePath,
}

/// What an `Archive` holds.
pub struct ArchiveView {
    pub kind: ArchiveType,
    pub label: Seq<char>,
    pub path: Seq<Seq<char>>,
}

impl View for Archive {
    type V = ArchiveView;

    open spec fn view(&self) -> ArchiveView {
        ArchiveView { kind: self.kind, label: self.label@, path: self.path@ }
    }
}

/// What a list of archives holds.
pub open spec fn archive_views(archives: Seq<Archive>) -> Seq<ArchiveView> {
    archives.map_values(|a: Archive| a@)
}

/// The paths of archives.
pub open spec fn archive_paths(archives: Seq<ArchiveView>) -> Seq<Seq<Seq<char>>> {
    archives.map_values(|a: ArchiveView| a.path)
}

/// The archives found whose paths are not known, each path once.
pub open spec fn fresh_archives(
    known: Seq<Seq<Seq<char>>>,
    found: Seq<ArchiveView>,
) -> Seq<ArchiveView>
    decreases found.len(),
{
    if found.len() == 0 {
        Seq::empty()
    } else {
        let earlier = fresh_archives(known, found.drop_last());
        if known.contains(found.last().path) || archive_paths(earlier).contains(
            found.last().path,
        ) {
            earlier
        } else {
            earlier.push(found.last())
        }
    }
}

/// How the extraction of one archive ended.
pub enum OutcomeView {
    /// The extractor ran: whether it succeeded, and what it wrote to its
    /// standard error.
    Ran { success: bool, error_output: Seq<char> },
    /// The extractor did not run, or its result was refused.
    Error(Seq<char>),
}

/// How the extraction of one archive ended.
pub open spec fn outcome_of(outcome: Result<UnpackResult, String>) -> OutcomeView {
    match outcome {
        Ok(result) => OutcomeView::Ran {
            success: result.success,
            error_output: result.error_output@,
        },
        Err(text) => OutcomeView::Error(text@),
    }
}

/// Whether the archive was extracted.
pub open spec fn outcome_ok(outcome: OutcomeView) -> bool {
    outcome matches OutcomeView::Ran { success, .. } && success
}

/// What is said of one archive.
pub open spec fn outcome_text(depth: u8, label: Seq<char>, outcome: OutcomeView) -> Seq<char> {
    let head = "depth "@ + decimal_text(depth as nat) + " "@ + label;
    match outcome {
        OutcomeView::Ran { success, error_output } => if success {
            head + ": OK"@
        } else if trimmed(error_output).len() == 0 {
            head + ": failed"@
        } else {
            head + ": failed ("@ + first_line(trimmed(error_output)) + ")"@
        },
        OutcomeView::Error(text) => head + ": "@ + text,
    }
}

/// What is said where archives are left at the deepest level.
pub open spec fn depth_limit_text(max_depth: u8) -> Seq<char> {
    "nested archive depth limit ("@ + decimal_text(max_depth as nat)
        + ") reached; source files retained"@
}

/// An extract stage under way.
#[derive(Debug)]
pub struct ExtractRun {
    /// The directory with the job's archives.
    pub source_dir: FilePath,
    /// The directory that archives are extracted into.
    pub output_dir: FilePath,
    /// How deep archives within archives are followed; zero for the outer
    /// archives only.
    pub max_depth: u8,
    /// The archives that were in the output directory before the stage.
    pub present: Vec<FilePath>,
    /// The archives that the stage has taken on.
    pub taken: Vec<FilePath>,
    /// What there is to say about them.
    pub messages: Vec<String>,
    /// Whether all went well so far.
    pub all_ok: bool,
}

/// What an `ExtractRun` holds.
#[verifier::ext_equal]
pub struct ExtractView {
    pub source_dir: Seq<Seq<char>>,
    pub output_dir: Seq<Seq<char>>,
    pub max_depth: u8,
    pub present: Seq<Seq<Seq<char>>>,
    pub taken: Seq<Seq<Seq<char>>>,
    pub messages: Seq<Seq<char>>,
    pub all_ok: bool,
}

impl View for ExtractRun {
    type V = ExtractView;

    open spec fn view(&self) -> ExtractView {
        ExtractView {
            source_dir: self.source_dir@,
            output_dir: self.output_dir@,
            max_depth: self.max_depth,
            present: path_views(self.present@),
            taken: path_views(self.taken@),
            messages: texts(self.messages@),
            all_ok: self.all_ok,
        }
    }
}

impl ExtractView {
    /// The archives that are not to be taken on: those that were in the output
    /// directory before, and those that have been taken on already.
    pub open spec fn known(self) -> Seq<Seq<Seq<char>>> {
        self.present + self.taken
    }

    /// The directory that is searched at a depth: the source directory first,
    /// the output directory for archives that came out of archives.
    pub open spec fn scan_dir(self, depth: u8) -> Seq<Seq<char>> {
        if depth == 0 {
            self.source_dir
        } else {
            self.output_dir
        }
    }

    /// The directory in which what is left is looked for.
    pub open spec fn left_dir(self, in_output: bool) -> Seq<Seq<char>> {
        if in_output {
            self.output_dir
        } else {
            self.source_dir
        }
    }

    /// No archive has been taken on twice, and none that was there before.
    pub open spec fn takes_each_once(self) -> bool {
        &&& self.taken.no_duplicates()
        &&& forall|i: int|
            0 <= i < self.taken.len() ==> !self.present.contains(#[trigger] self.taken[i])
    }
}

/// What is to be done next in an extract stage.
#[derive(Debug)]
pub enum ExtractStep {
    /// List the archives in the output directory: `output_listed`.
    ListOutput(ExtractRun),
    /// List the archives in the directory that `scan_dir` gives: `scanned`.
    Scan { run: ExtractRun, depth: u8 },
    /// Extract the archive at position `at` of the queue: `extracted`.
    Extract { run: ExtractRun, depth: u8, queue: Vec<Archive>, at: usize },
    /// List what archives are left in the directory that `left_dir` gives:
    /// `left_over`.
    FinalScan { run: ExtractRun, in_output: bool },
    /// Report: `report`.
    Finish(ExtractRun),
}

/// What an `ExtractStep` holds.
#[verifier::ext_equal]
pub enum ExtractStepView {
    ListOutput(ExtractView),
    Scan { run: ExtractView, depth: u8 },
    Extract { run: ExtractView, depth: u8, queue: Seq<ArchiveView>, at: int },
    FinalScan { run: ExtractView, in_output: bool },
    Finish(ExtractView),
}

impl View for ExtractStep {
    type V = ExtractStepView;

    open spec fn view(&self) -> ExtractStepView {
        match self {
            ExtractStep::ListOutput(run) => ExtractStepView::ListOutput(run@),
            ExtractStep::Scan { run, depth } => ExtractStepView::Scan { run: run@, depth: *depth },
            ExtractStep::Extract { run, depth, queue, at } => ExtractStepView::Extract {
                run: run@,
                depth: *depth,
                queue: archive_views(queue@),
                at: *at as int,
            },
            ExtractStep::FinalScan { run, in_output } => ExtractStepView::FinalScan {
                run: run@,
                in_output: *in_output,
            },
            ExtractStep::Finish(run) => ExtractStepView::Finish(run@),
        }
    }
}

/// The first step of an extract stage. Archives that are in the output
/// directory before the stage are left alone, unless that is also where the
/// job's archives are.
pub open spec fn extract_start(
    source_dir: Seq<Seq<char>>,
    output_dir: Seq<Seq<char>>,
    max_depth: u8,
) -> ExtractStepView {
    let run = ExtractView {
        source_dir,
        output_dir,
        max_depth,
        present: Seq::empty(),
        taken: Seq::empty(),
        messages: Seq::empty(),
        all_ok: true,
    };
    if source_dir == output_dir {
        ExtractStepView::Scan { run, depth: 0 }
    } else {
        ExtractStepView::ListOutput(run)
    }
}

/// The step after the archives in the output directory were listed.
pub open spec fn after_listing(
    run: ExtractView,
    present: Seq<Seq<Seq<char>>>,
) -> ExtractStepView {
    ExtractStepView::Scan { run: ExtractView { present, ..run }, depth: 0 }
}

/// The step after the archives at a depth were listed: the new ones are
/// extracted; if there are none, what is left is looked at.
pub open spec fn after_scan(
    run: ExtractView,
    depth: u8,
    found: Seq<ArchiveView>,
) -> ExtractStepView {
    let fresh = fresh_archives(run.known(), found);
    if fresh.len() > 0 {
        ExtractStepView::Extract {
            run: ExtractView { taken: run.taken + archive_paths(fresh), ..run },
            depth,
            queue: fresh,
            at: 0,
        }
    } else if run.all_ok {
        ExtractStepView::FinalScan { run, in_output: depth > 0 }
    } else {
        ExtractStepView::Finish(run)
    }
}

/// The step after the archive at position `at` of the queue was extracted: the
/// rest of the queue, then, if all went well, the next depth. At the deepest
/// one what is left is looked at.
pub open spec fn after_archive(
    run: ExtractView,
    depth: u8,
    queue: Seq<ArchiveView>,
    at: int,
    outcome: OutcomeView,
) -> ExtractStepView {
    let next = ExtractView {
        messages: run.messages.push(outcome_text(depth, queue[at].label, outcome)),
        all_ok: run.all_ok && outcome_ok(outcome),
        ..run
    };
    if at + 1 < queue.len() {
        ExtractStepView::Extract { run: next, depth, queue, at: at + 1 }
    } else if !next.all_ok {
        ExtractStepView::Finish(next)
    } else if depth >= run.max_depth {
        ExtractStepView::FinalScan { run: next, in_output: true }
    } else {
        ExtractStepView::Scan { run: next, depth: (depth + 1) as u8 }
    }
}

/// The step after what is left was looked at: an archive that was neither there
/// before nor taken on is one too deep.
pub open spec fn after_final_scan(
    run: ExtractView,
    left: Seq<Seq<Seq<char>>>,
) -> ExtractStepView {
    if forall|i: int| 0 <= i < left.len() ==> run.known().contains(#[trigger] left[i]) {
        ExtractStepView::Finish(run)
    } else {
        ExtractStepView::Finish(
            ExtractView {
                messages: run.messages.push(depth_limit_text(run.max_depth)),
                all_ok: false,
                ..run
            },
        )
    }
}

/// What an extract stage reports, and which archives it has extracted.
pub open spec fn extract_report(run: ExtractView, duration_nanos: u64) -> (
    StageView,
    Seq<Seq<Seq<char>>>,
) {
    if run.taken.len() == 0 {
        (
            stage_view("Extract"@, StageStatus::Skipped, "No archives found"@, duration_nanos),
            Seq::empty(),
        )
    } else {
        (
            stage_view(
                "Extract"@,
                if run.all_ok {
                    StageStatus::Success
                } else {
                    StageStatus::Failed
                },
                joined(run.messages, "; "@),
                duration_nanos,
            ),
            run.taken,
        )
    }
}

/// The archives found that are new to the stage, each path once.
fn fresh(run: &ExtractRun, found: Vec<Archive>) -> (list: Vec<Archive>)
    ensures
        archive_views(list@) == fresh_archives(run@.known(), archive_views(found@)),
{
    let ghost all = archive_views(found@);
    let ghost known = run@.known();
    let mut list: Vec<Archive> = Vec::new();
    let mut i: usize = 0;
    assert(archive_views(list@) =~= fresh_archives(known, all.subrange(0, 0)));
    while i < found.len()
        invariant
            i <= found@.len(),
            all == archive_views(found@),
            known == run@.known(),
            archive_views(list@) == fresh_archives(known, all.subrange(0, i as int)),
        decreases found@.len() - i,
    {
        let ghost earlier = archive_views(list@);
        assert(all.subrange(0, i + 1).drop_last() =~= all.subrange(0, i as int));
        let archive: &Archive = &found[i];
        assert(all.subrange(0, i + 1).last() == archive@);
        let there: bool = contains_path(&run.present, &archive.path);
        let taken: bool = contains_path(&run.taken, &archive.path);
        let queued: bool = queue_has(&list, &archive.path);
        proof {
            lemma_sum_contains(run@.present, run@.taken, archive.path@);
        }
        if !there && !taken && !queued {
            list.push(
                Archive {
                    kind: archive.kind,
                    label: archive.label.clone(),
                    path: archive.path.clone(),
                },
            );
            assert(archive_views(list@) =~= earlier.push(archive@));
        }
        i = i + 1;
    }
    assert(all.subrange(0, i as int) =~= all);
    list
}

/// What the concatenation of two sequences holds.
proof fn lemma_sum_contains(a: Seq<Seq<Seq<char>>>, b: Seq<Seq<Seq<char>>>, x: Seq<Seq<char>>)
    ensures
        (a + b).contains(x) <==> a.contains(x) || b.contains(x),
{
    let s = a + b;
    if a.contains(x) {
        let k = choose|k: int| 0 <= k < a.len() && a[k] == x;
        assert(s[k] == x);
    }
    if b.contains(x) {
        let k = choose|k: int| 0 <= k < b.len() && b[k] == x;
        assert(s[a.len() + k] == x);
    }
    if s.contains(x) {
        let k = choose|k: int| 0 <= k < s.len() && s[k] == x;
        if k < a.len() {
            assert(a[k] == x);
        } else {
            assert(b[k - a.len()] == x);
        }
    }
}

/// Whether an archive with the given path is in the list.
fn queue_has(list: &Vec<Archive>, path: &FilePath) -> (found: bool)
    ensures
        found == archive_paths(archive_views(list@)).contains(path@),
{
    let mut i: usize = 0;
    while i < list.len()
        invariant
            i <= list@.len(),
            forall|k: int| 0 <= k < i ==> archive_paths(archive_views(list@))[k] != path@,
        decreases list@.len() - i,
    {
        if list[i].path.same_as(path) {
            assert(archive_paths(archive_views(list@))[i as int] == path@);
            return true;
        }
        i = i + 1;
    }
    false
}

/// What is said of one archive.
fn outcome_message(depth: u8, label: &str, outcome: &Result<UnpackResult, String>) -> (text: String)
    ensures
        text@ == outcome_text(depth, label@, outcome_of(*outcome)),
{
    let mut text: String = "depth ".to_owned();
    text.append(decimal(depth as u64).as_str());
    text.append(" ");
    text.append(label);
    match outcome {
        Ok(result) => {
            if result.success {
                text.append(": OK");
            } else {
                let error_text: String = trim(result.error_output.as_str());
                if error_text.as_str().is_empty() {
                    text.append(": failed");
                } else {
                    text.append(": failed (");
                    text.append(head_line(error_text.as_str()).as_str());
                    text.append(")");
                }
            }
        },
        Err(error) => {
            text.append(": ");
            text.append(error.as_str());
        },
    }
    text
}

impl ExtractRun {
    /// Begins an extract stage.
    pub fn start(source_dir: FilePath, output_dir: FilePath, max_depth: u8) -> (step: ExtractStep)
        ensures
            step@ == extract_start(source_dir@, output_dir@, max_depth),
    {
        let same: bool = source_dir.same_as(&output_dir);
        let run: ExtractRun = ExtractRun {
            source_dir,
            output_dir,
            max_depth,
            present: Vec::new(),
            taken: Vec::new(),
            messages: Vec::new(),
            all_ok: true,
        };
        assert(run@.present =~= Seq::empty());
        assert(run@.taken =~= Seq::empty());
        assert(run@.messages =~= Seq::empty());
        if same {
            ExtractStep::Scan { run, depth: 0 }
        } else {
            ExtractStep::ListOutput(run)
        }
    }

    /// Goes on after the archives in the output directory were listed.
    pub fn output_listed(self, present: Vec<FilePath>) -> (step: ExtractStep)
        ensures
            step@ == after_listing(self@, path_views(present@)),
    {
        let mut run: ExtractRun = self;
        run.present = present;
        ExtractStep::Scan { run, depth: 0 }
    }

    /// The directory to be searched at a depth.
    pub fn scan_dir(&self, depth: u8) -> (dir: &FilePath)
        ensures
            dir@ == self@.scan_dir(depth),
    {
        if depth == 0 {
            &self.source_dir
        } else {
            &self.output_dir
        }
    }

    /// The directory in which what is left is to be looked for.
    pub fn left_dir(&self, in_output: bool) -> (dir: &FilePath)
        ensures
            dir@ == self@.left_dir(in_output),
    {
        if in_output {
            &self.output_dir
        } else {
            &self.source_dir
        }
    }

    /// Goes on after the archives at a depth were listed.
    pub fn scanned(self, depth: u8, found: Vec<Archive>) -> (step: ExtractStep)
        ensures
            step@ == after_scan(self@, depth, archive_views(found@)),
    {
        let queue: Vec<Archive> = fresh(&self, found);
        let mut run: ExtractRun = self;
        if queue.len() == 0 {
            if run.all_ok {
                return ExtractStep::FinalScan { run, in_output: depth > 0 };
            }
            return ExtractStep::Finish(run);
        }
        let ghost before = run@;
        let ghost paths = archive_paths(archive_views(queue@));
        let mut i: usize = 0;
        assert(before.taken + paths.subrange(0, 0) =~= before.taken);
        while i < queue.len()
            invariant
                i <= queue@.len(),
                paths == archive_paths(archive_views(queue@)),
                run@ == (ExtractView { taken: before.taken + paths.subrange(0, i as int), ..before
                }),
            decreases queue@.len() - i,
        {
            let ghost earlier = run@.taken;
            run.taken.push(queue[i].path.clone());
            assert(run@.taken =~= earlier.push(paths[i as int]));
            i = i + 1;
            assert(run@.taken =~= before.taken + paths.subrange(0, i as int));
        }
        assert(paths.subrange(0, i as int) =~= paths);
        ExtractStep::Extract { run, depth, queue, at: 0 }
    }

    /// Goes on after the archive at position `at` of the queue was extracted.
    pub fn extracted(
        self,
        depth: u8,
        queue: Vec<Archive>,
        at: usize,
        outcome: Result<UnpackResult, String>,
    ) -> (step: ExtractStep)
        requires
            at < queue@.len(),
        ensures
            step@ == after_archive(
                self@,
                depth,
                archive_views(queue@),
                at as int,
                outcome_of(outcome),
            ),
    {
        let message: String = outcome_message(depth, queue[at].label.as_str(), &outcome);
        let ok: bool = match &outcome {
            Ok(result) => result.success,
            Err(_) => false,
        };
        let mut run: ExtractRun = self;
        let ghost said = message@;
        run.messages.push(message);
        assert(run@.messages =~= self@.messages.push(said));
        run.all_ok = run.all_ok && ok;
        let last: usize = queue.len() - 1;
        if at < last {
            ExtractStep::Extract { run, depth, queue, at: at + 1 }
        } else if !run.all_ok {
            ExtractStep::Finish(run)
        } else if depth >= run.max_depth {
            ExtractStep::FinalScan { run, in_output: true }
        } else {
            ExtractStep::Scan { run, depth: depth + 1 }
        }
    }

    /// Goes on after what is left was looked at.
    pub fn left_over(self, left: &Vec<FilePath>) -> (step: ExtractStep)
        ensures
            step@ == after_final_scan(self@, path_views(left@)),
    {
        let mut run: ExtractRun = self;
        let ghost paths = path_views(left@);
        let mut i: usize = 0;
        while i < left.len()
            invariant
                i <= left@.len(),
                paths == path_views(left@),
                run@ == self@,
                forall|k: int| 0 <= k < i ==> self@.known().contains(#[trigger] paths[k]),
            decreases left@.len() - i,
        {
            proof {
                lemma_sum_contains(run@.present, run@.taken, paths[i as int]);
            }
            if !contains_path(&run.present, &left[i]) && !contains_path(&run.taken, &left[i]) {
                assert(!self@.known().contains(paths[i as int]));
                let mut message: String = "nested archive depth limit (".to_owned();
                message.append(decimal(run.max_depth as u64).as_str());
                message.append(") reached; source files retained");
                let ghost said = message@;
                run.messages.push(message);
                assert(run@.messages =~= self@.messages.push(said));
                run.all_ok = false;
                return ExtractStep::Finish(run);
            }
            i = i + 1;
        }
        ExtractStep::Finish(run)
    }

    /// The report of the stage, and the archives that it has extracted.
    pub fn report(self, duration_nanos: u64) -> (report: (StageResult, Vec<FilePath>))
        ensures
            (report.0@, path_views(report.1@)) == extract_report(self@, duration_nanos),
    {
        if self.taken.len() == 0 {
            let none: Vec<FilePath> = Vec::new();
            assert(path_views(none@) =~= Seq::empty());
            return (
                stage_result(
                    "Extract",
                    StageStatus::Skipped,
                    "No archives found".to_owned(),
                    duration_nanos,
                ),
                none,
            );
        }
        let status: StageStatus = if self.all_ok {
            StageStatus::Success
        } else {
            StageStatus::Failed
        };
        (
            stage_result("Extract", status, join(&self.messages, "; "), duration_nanos),
            self.taken,
        )
    }
}

// ---------------------------------------------------------------------------
// Whole stages
// ---------------------------------------------------------------------------

/// What the caller of an extract stage has found out.
pub enum ExtractEvent {
    /// The archives in the output directory before the stage.
    OutputListed(Seq<Seq<Seq<char>>>),
    /// The archives at a depth.
    Scanned(Seq<ArchiveView>),
    /// How an extraction ended.
    Extracted(OutcomeView),
    /// The archives that are left.
    FinalScanned(Seq<Seq<Seq<char>>>),
}

/// The step after an event that the step waits for; any other changes nothing.
pub open spec fn extract_next(step: ExtractStepView, event: ExtractEvent) -> ExtractStepView {
    match (step, event) {
        (ExtractStepView::ListOutput(run), ExtractEvent::OutputListed(present)) => after_listing(
            run,
            present,
        ),
        (ExtractStepView::Scan { run, depth }, ExtractEvent::Scanned(found)) => after_scan(
            run,
            depth,
            found,
        ),
        (
            ExtractStepView::Extract { run, depth, queue, at },
            ExtractEvent::Extracted(outcome),
        ) => after_archive(run, depth, queue, at, outcome),
        (
            ExtractStepView::FinalScan { run, in_output },
            ExtractEvent::FinalScanned(left),
        ) => after_final_scan(run, left),
        _ => step,
    }
}

/// The step after a sequence of events.
pub open spec fn extract_after(step: ExtractStepView, events: Seq<ExtractEvent>) -> ExtractStepView
    decreases events.len(),
{
    if events.len() == 0 {
        step
    } else {
        extract_next(extract_after(step, events.drop_last()), events.last())
    }
}

impl ExtractStepView {
    /// The stage that the step belongs to.
    pub open spec fn run(self) -> ExtractView {
        match self {
            ExtractStepView::ListOutput(run) => run,
            ExtractStepView::Scan { run, .. } => run,
            ExtractStepView::Extract { run, .. } => run,
            ExtractStepView::FinalScan { run, .. } => run,
            ExtractStepView::Finish(run) => run,
        }
    }

    /// How deep the step goes.
    pub open spec fn depth(self) -> u8 {
        match self {
            ExtractStepView::Scan { depth, .. } => depth,
            ExtractStepView::Extract { depth, .. } => depth,
            _ => 0,
        }
    }
}

/// The archives taken on are new, and differ from one another.
proof fn lemma_fresh_archives(known: Seq<Seq<Seq<char>>>, found: Seq<ArchiveView>)
    ensures
        archive_paths(fresh_archives(known, found)).no_duplicates(),
        forall|i: int|
            0 <= i < fresh_archives(known, found).len() ==> !known.contains(
                #[trigger] archive_paths(fresh_archives(known, found))[i],
            ),
    decreases found.len(),
{
    if found.len() > 0 {
        lemma_fresh_archives(known, found.drop_last());
        let earlier = fresh_archives(known, found.drop_last());
        let all = fresh_archives(known, found);
        if all.len() > earlier.len() {
            assert(archive_paths(all) =~= archive_paths(earlier).push(found.last().path));
            assert(archive_paths(all).no_duplicates()) by {
                assert forall|i: int, j: int|
                    0 <= i < all.len() && 0 <= j < all.len() && i != j implies archive_paths(
                    all,
                )[i] != archive_paths(all)[j] by {
                    if i < earlier.len() && j < earlier.len() {
                        assert(archive_paths(earlier)[i] != archive_paths(earlier)[j]);
                    } else if i < earlier.len() {
                        assert(archive_paths(earlier).contains(archive_paths(earlier)[i]));
                    } else {
                        assert(archive_paths(earlier).contains(archive_paths(earlier)[j]));
                    }
                }
            }
            assert forall|i: int| 0 <= i < all.len() implies !known.contains(
                #[trigger] archive_paths(all)[i],
            ) by {
                if i < earlier.len() {
                    assert(archive_paths(all)[i] == archive_paths(earlier)[i]);
                }
            }
        }
    }
}

/// Whatever the listings and the extractors say, no archive is extracted twice
/// in a stage, and none that was in the output directory before it.
pub proof fn law_each_archive_is_taken_once(
    source_dir: Seq<Seq<char>>,
    output_dir: Seq<Seq<char>>,
    max_depth: u8,
    events: Seq<ExtractEvent>,
)
    ensures
        extract_after(
            extract_start(source_dir, output_dir, max_depth),
            events,
        ).run().takes_each_once(),
    decreases events.len(),
{
    let start = extract_start(source_dir, output_dir, max_depth);
    if events.len() > 0 {
        let before = extract_after(start, events.drop_last());
        law_each_archive_is_taken_once(source_dir, output_dir, max_depth, events.drop_last());
        lemma_listing_comes_first(source_dir, output_dir, max_depth, events.drop_last());
        match (before, events.last()) {
            (ExtractStepView::Scan { run, depth }, ExtractEvent::Scanned(found)) => {
                let fresh = archive_paths(fresh_archives(run.known(), found));
                lemma_fresh_archives(run.known(), found);
                let taken = run.taken + fresh;
                assert forall|i: int| 0 <= i < taken.len() implies !run.present.contains(
                    #[trigger] taken[i],
                ) by {
                    if i >= run.taken.len() {
                        let x = fresh[i - run.taken.len()];
                        lemma_sum_contains(run.present, run.taken, x);
                        assert(taken[i] == x);
                    } else {
                        assert(taken[i] == run.taken[i]);
                    }
                }
                assert forall|i: int, j: int|
                    0 <= i < taken.len() && 0 <= j < taken.len() && i != j implies taken[i]
                    != taken[j] by {
                    if i < run.taken.len() && j < run.taken.len() {
                        assert(run.taken[i] != run.taken[j]);
                    } else if i >= run.taken.len() && j >= run.taken.len() {
                        assert(fresh[i - run.taken.len()] != fresh[j - run.taken.len()]);
                    } else if i < run.taken.len() {
                        let x = fresh[j - run.taken.len()];
                        lemma_sum_contains(run.present, run.taken, x);
                        assert(run.taken.contains(run.taken[i]));
                    } else {
                        let x = fresh[i - run.taken.len()];
                        lemma_sum_contains(run.present, run.taken, x);
                        assert(run.taken.contains(run.taken[j]));
                    }
                }
            },
            _ => {},
        }
    }
}

/// The output directory is listed before anything is taken on.
proof fn lemma_listing_comes_first(
    source_dir: Seq<Seq<char>>,
    output_dir: Seq<Seq<char>>,
    max_depth: u8,
    events: Seq<ExtractEvent>,
)
    ensures
        ({
            let step = extract_after(extract_start(source_dir, output_dir, max_depth), events);
            step is ListOutput ==> step.run().taken.len() == 0
        }),
    decreases events.len(),
{
    if events.len() > 0 {
        lemma_listing_comes_first(source_dir, output_dir, max_depth, events.drop_last());
    }
}

/// No step goes deeper than the stage may, and the limit does not change.
pub proof fn law_depth_is_bounded(
    source_dir: Seq<Seq<char>>,
    output_dir: Seq<Seq<char>>,
    max_depth: u8,
    events: Seq<ExtractEvent>,
)
    ensures
        ({
            let step = extract_after(extract_start(source_dir, output_dir, max_depth), events);
            &&& step.depth() <= max_depth
            &&& step.run().max_depth == max_depth
        }),
    decreases events.len(),
{
    if events.len() > 0 {
        law_depth_is_bounded(source_dir, output_dir, max_depth, events.drop_last());
    }
}

/// Once something went wrong it stays so.
proof fn lemma_failure_stays(step: ExtractStepView, events: Seq<ExtractEvent>)
    requires
        !step.run().all_ok,
    ensures
        !extract_after(step, events).run().all_ok,
    decreases events.len(),
{
    if events.len() > 0 {
        lemma_failure_stays(step, events.drop_last());
    }
}

/// An archive that could not be extracted fails the stage, whatever comes after.
pub proof fn law_a_failed_archive_fails_the_stage(
    step: ExtractStepView,
    outcome: OutcomeView,
    later: Seq<ExtractEvent>,
    duration_nanos: u64,
)
    requires
        step is Extract,
        step.run().taken.len() > 0,
        !outcome_ok(outcome),
    ensures
        ({
            let end = extract_after(extract_next(step, ExtractEvent::Extracted(outcome)), later);
            &&& !end.run().all_ok
            &&& extract_report(end.run(), duration_nanos).0.status == StageStatus::Failed
        }),
{
    let next = extract_next(step, ExtractEvent::Extracted(outcome));
    lemma_failure_stays(next, later);
    lemma_taken_only_grows(next, later);
}

/// What has been taken on stays taken on.
proof fn lemma_taken_only_grows(step: ExtractStepView, events: Seq<ExtractEvent>)
    ensures
        extract_after(step, events).run().taken.len() >= step.run().taken.len(),
    decreases events.len(),
{
    if events.len() > 0 {
        lemma_taken_only_grows(step, events.drop_last());
    }
}

/// A stage that ends well has looked at what is left, and left no archive but
/// those that were there before and those that it has extracted.
pub proof fn law_success_leaves_no_archive(
    source_dir: Seq<Seq<char>>,
    output_dir: Seq<Seq<char>>,
    max_depth: u8,
    events: Seq<ExtractEvent>,
    last: ExtractEvent,
)
    requires
        ({
            let start = extract_start(source_dir, output_dir, max_depth);
            let before = extract_after(start, events);
            &&& before !is Finish
            &&& extract_next(before, last) is Finish
            &&& extract_next(before, last).run().all_ok
        }),
    ensures
        ({
            let start = extract_start(source_dir, output_dir, max_depth);
            let run = extract_next(extract_after(start, events), last).run();
            last matches ExtractEvent::FinalScanned(left) && forall|i: int|
                0 <= i < left.len() ==> run.known().contains(#[trigger] left[i])
        }),
{
}

/// The archives that have been handed to an extractor, in order.
pub open spec fn tried(start: ExtractStepView, events: Seq<ExtractEvent>) -> Seq<Seq<Seq<char>>>
    decreases events.len(),
{
    if events.len() == 0 {
        Seq::empty()
    } else {
        let earlier = tried(start, events.drop_last());
        match (extract_after(start, events.drop_last()), events.last()) {
            (ExtractStepView::Extract { queue, at, .. }, ExtractEvent::Extracted(_)) =>
                earlier.push(queue[at].path),
            _ => earlier,
        }
    }
}

/// What came of them, in order.
pub open spec fn outcomes(start: ExtractStepView, events: Seq<ExtractEvent>) -> Seq<OutcomeView>
    decreases events.len(),
{
    if events.len() == 0 {
        Seq::empty()
    } else {
        let earlier = outcomes(start, events.drop_last());
        match (extract_after(start, events.drop_last()), events.last()) {
            (ExtractStepView::Extract { .. }, ExtractEvent::Extracted(outcome)) => earlier.push(
                outcome,
            ),
            _ => earlier,
        }
    }
}

/// Every archive that a stage takes on is handed to an extractor, once and in the
/// order in which they were taken on: those that have been are the ones taken on,
/// but for the rest of the queue while there is one. So a finished stage has tried
/// every archive that it reports.
pub proof fn law_every_archive_is_tried(
    source_dir: Seq<Seq<char>>,
    output_dir: Seq<Seq<char>>,
    max_depth: u8,
    events: Seq<ExtractEvent>,
)
    ensures
        ({
            let start = extract_start(source_dir, output_dir, max_depth);
            let step = extract_after(start, events);
            &&& outcomes(start, events).len() == tried(start, events).len()
            &&& step !is Extract ==> tried(start, events) == step.run().taken
            &&& step matches ExtractStepView::Extract { queue, at, .. } ==> {
                &&& 0 <= at < queue.len()
                &&& tried(start, events) + archive_paths(queue).subrange(at, queue.len() as int)
                    == step.run().taken
            }
        }),
    decreases events.len(),
{
    let start = extract_start(source_dir, output_dir, max_depth);
    if events.len() > 0 {
        law_every_archive_is_tried(source_dir, output_dir, max_depth, events.drop_last());
        let before = extract_after(start, events.drop_last());
        let earlier = tried(start, events.drop_last());
        match (before, events.last()) {
            (ExtractStepView::Scan { run, .. }, ExtractEvent::Scanned(found)) => {
                let fresh = fresh_archives(run.known(), found);
                if fresh.len() > 0 {
                    assert(archive_paths(fresh).subrange(0, fresh.len() as int) =~= archive_paths(
                        fresh,
                    ));
                }
            },
            (ExtractStepView::Extract { run, queue, at, .. }, ExtractEvent::Extracted(_)) => {
                let paths = archive_paths(queue);
                let rest = paths.subrange(at, queue.len() as int);
                assert(paths[at] == queue[at].path);
                assert(rest =~= seq![queue[at].path] + paths.subrange(
                    at + 1,
                    queue.len() as int,
                ));
                assert(earlier + rest =~= earlier.push(queue[at].path) + paths.subrange(
                    at + 1,
                    queue.len() as int,
                ));
                if at + 1 == queue.len() {
                    assert(paths.subrange(at + 1, queue.len() as int) =~= Seq::empty());
                    assert(earlier.push(queue[at].path) + Seq::<Seq<Seq<char>>>::empty()
                        =~= earlier.push(queue[at].path));
                }
            },
            _ => {},
        }
    }
}

/// Until it is finished a stage has gone well exactly if every archive that was
/// tried was extracted; a finished one that went well has extracted all.
pub proof fn law_a_stage_goes_well_if_all_do(
    source_dir: Seq<Seq<char>>,
    output_dir: Seq<Seq<char>>,
    max_depth: u8,
    events: Seq<ExtractEvent>,
)
    ensures
        ({
            let start = extract_start(source_dir, output_dir, max_depth);
            let step = extract_after(start, events);
            let all = forall|i: int|
                0 <= i < outcomes(start, events).len() ==> {
                    (#[trigger] outcomes(start, events)[i]) matches OutcomeView::Ran { success, .. }
                        && success
                };
            &&& step !is Finish ==> (step.run().all_ok <==> all)
            &&& step is Finish && step.run().all_ok ==> all
        }),
    decreases events.len(),
{
    let start = extract_start(source_dir, output_dir, max_depth);
    if events.len() > 0 {
        law_a_stage_goes_well_if_all_do(source_dir, output_dir, max_depth, events.drop_last());
        let earlier = outcomes(start, events.drop_last());
        let now = outcomes(start, events);
        match (extract_after(start, events.drop_last()), events.last()) {
            (ExtractStepView::Extract { .. }, ExtractEvent::Extracted(outcome)) => {
                assert(now[earlier.len() as int] == outcome);
                assert forall|i: int| 0 <= i < earlier.len() implies #[trigger] now[i]
                    == earlier[i] by {}
                let good = |o: OutcomeView| o matches OutcomeView::Ran { success, .. } && success;
                if forall|i: int| 0 <= i < now.len() ==> good(#[trigger] now[i]) {
                    assert forall|i: int| 0 <= i < earlier.len() implies good(
                        #[trigger] earlier[i],
                    ) by {
                        assert(now[i] == earlier[i]);
                    }
                    assert(good(now[earlier.len() as int]));
                }
            },
            _ => {},
        }
    }
}

/// What follows an archive: the next one of the queue, at any depth and whether it
/// could be extracted or not. After the last one, if all went well, the next depth
/// up to the deepest, and then a look at what is left in the output directory; if
/// not, the end.
pub proof fn law_what_follows_an_archive(
    run: ExtractView,
    depth: u8,
    queue: Seq<ArchiveView>,
    at: int,
    outcome: OutcomeView,
)
    requires
        0 <= at < queue.len(),
    ensures
        ({
            let ok = run.all_ok && (outcome matches OutcomeView::Ran { success, .. } && success);
            let next = extract_next(
                ExtractStepView::Extract { run, depth, queue, at },
                ExtractEvent::Extracted(outcome),
            );
            &&& next.run().all_ok == ok
            &&& next.run().taken == run.taken && next.run().present == run.present
            &&& next.run().source_dir == run.source_dir && next.run().output_dir == run.output_dir
            &&& next.run().max_depth == run.max_depth
            &&& next.run().messages.len() == run.messages.len() + 1
            &&& next.run().messages.drop_last() == run.messages
            &&& at + 1 < queue.len() ==> next == (ExtractStepView::Extract {
                run: next.run(),
                depth,
                queue,
                at: at + 1,
            })
            &&& at + 1 == queue.len() && ok && depth < run.max_depth ==> next == (
            ExtractStepView::Scan { run: next.run(), depth: (depth + 1) as u8 })
            &&& at + 1 == queue.len() && ok && depth >= run.max_depth ==> next == (
            ExtractStepView::FinalScan { run: next.run(), in_output: true })
            &&& at + 1 == queue.len() && !ok ==> next is Finish
        }),
{
    let next = extract_next(
        ExtractStepView::Extract { run, depth, queue, at },
        ExtractEvent::Extracted(outcome),
    );
    assert(next.run().messages.drop_last() =~= run.messages);
}

/// What is said of an archive: the depth, the kind, and that it is fine, or why
/// not: the error, or the first line of what the extractor wrote, or just that it
/// failed if it wrote nothing.
pub proof fn law_what_is_said_of_an_archive(
    run: ExtractView,
    depth: u8,
    queue: Seq<ArchiveView>,
    at: int,
    written: Seq<char>,
)
    requires
        0 <= at < queue.len(),
    ensures
        ({
            let said = |outcome: OutcomeView|
                extract_next(
                    ExtractStepView::Extract { run, depth, queue, at },
                    ExtractEvent::Extracted(outcome),
                ).run().messages.last();
            let head = "depth "@ + decimal_text(depth as nat) + " "@ + queue[at].label;
            &&& said(OutcomeView::Ran { success: true, error_output: written }) == head + ": OK"@
            &&& said(OutcomeView::Error(written)) == head + ": "@ + written
            &&& trimmed(written).len() == 0 ==> said(
                OutcomeView::Ran { success: false, error_output: written },
            ) == head + ": failed"@
            &&& trimmed(written).len() > 0 ==> said(
                OutcomeView::Ran { success: false, error_output: written },
            ) == head + ": failed ("@ + first_line(trimmed(written)) + ")"@
        }),
{
}

/// Where a stage starts: where the job's archives are in the output directory, with
/// these; otherwise with a list of what is in the output directory, which is then
/// left alone.
pub proof fn law_where_a_stage_starts(
    source_dir: Seq<Seq<char>>,
    output_dir: Seq<Seq<char>>,
    max_depth: u8,
    present: Seq<Seq<Seq<char>>>,
)
    ensures
        ({
            let fresh = ExtractView {
                source_dir,
                output_dir,
                max_depth,
                present: Seq::empty(),
                taken: Seq::empty(),
                messages: Seq::empty(),
                all_ok: true,
            };
            let start = extract_start(source_dir, output_dir, max_depth);
            &&& source_dir == output_dir ==> start == (ExtractStepView::Scan {
                run: fresh,
                depth: 0,
            })
            &&& source_dir != output_dir ==> start == ExtractStepView::ListOutput(fresh)
            &&& source_dir != output_dir ==> extract_next(start, ExtractEvent::OutputListed(present))
                == (ExtractStepView::Scan { run: ExtractView { present, ..fresh }, depth: 0 })
            &&& fresh.scan_dir(0) == source_dir
            &&& forall|depth: u8| depth > 0 ==> #[trigger] fresh.scan_dir(depth) == output_dir
            &&& fresh.left_dir(true) == output_dir
            &&& fresh.left_dir(false) == source_dir
        }),
{
}

/// What a search comes to: the archives that are new are taken on and queued from
/// the first one; if there are none, what is left is looked for where the search
/// was made.
pub proof fn law_what_a_search_comes_to(run: ExtractView, depth: u8, found: Seq<ArchiveView>)
    requires
        run.all_ok,
    ensures
        ({
            let fresh = fresh_archives(run.present + run.taken, found);
            let next = extract_next(
                ExtractStepView::Scan { run, depth },
                ExtractEvent::Scanned(found),
            );
            &&& fresh.len() > 0 ==> next == (ExtractStepView::Extract {
                run: ExtractView {
                    taken: run.taken + fresh.map_values(|a: ArchiveView| a.path),
                    ..run
                },
                depth,
                queue: fresh,
                at: 0,
            })
            &&& fresh.len() == 0 ==> next is FinalScan && next.run() == run && run.left_dir(
                next->in_output,
            ) == run.scan_dir(depth)
        }),
{
}

/// Which archives are new: every one that was found and whose path is not known is
/// queued, unless one with the same path is queued before it; all that are queued
/// were found, are not known, and have different paths; and they keep their order.
pub proof fn law_which_archives_are_new(
    known: Seq<Seq<Seq<char>>>,
    one: ArchiveView,
    a: Seq<ArchiveView>,
    b: Seq<ArchiveView>,
    i: int,
)
    ensures
        fresh_archives(known, seq![one]) == if known.contains(one.path) {
            Seq::<ArchiveView>::empty()
        } else {
            seq![one]
        },
        fresh_archives(known, a + b) == fresh_archives(known, a) + fresh_archives(
            known + fresh_archives(known, a).map_values(|x: ArchiveView| x.path),
            b,
        ),
        0 <= i < a.len() && !known.contains(a[i].path) ==> archive_paths(
            fresh_archives(known, a),
        ).contains(a[i].path),
        fresh_archives(known, a).map_values(|x: ArchiveView| x.path).no_duplicates(),
        0 <= i < fresh_archives(known, a).len() ==> !known.contains(
            fresh_archives(known, a)[i].path,
        ) && a.contains(fresh_archives(known, a)[i]),
{
    reveal_with_fuel(fresh_archives, 2);
    assert(seq![one].drop_last() =~= Seq::empty());
    lemma_fresh_in_a_row(known, a, b);
    lemma_fresh_archives(known, a);
    lemma_fresh_complete(known, a, i);
    if 0 <= i < fresh_archives(known, a).len() {
        assert(archive_paths(fresh_archives(known, a))[i] == fresh_archives(known, a)[i].path);
    }
}

proof fn lemma_fresh_in_a_row(
    known: Seq<Seq<Seq<char>>>,
    a: Seq<ArchiveView>,
    b: Seq<ArchiveView>,
)
    ensures
        fresh_archives(known, a + b) == fresh_archives(known, a) + fresh_archives(
            known + archive_paths(fresh_archives(known, a)),
            b,
        ),
    decreases b.len(),
{
    let first = fresh_archives(known, a);
    let more = known + archive_paths(first);
    if b.len() == 0 {
        assert(a + b =~= a);
        assert(first + fresh_archives(more, b) =~= first);
    } else {
        lemma_fresh_in_a_row(known, a, b.drop_last());
        assert((a + b).drop_last() =~= a + b.drop_last());
        assert((a + b).last() == b.last());
        let second = fresh_archives(more, b.drop_last());
        let x = b.last().path;
        assert(archive_paths(first + second) =~= archive_paths(first) + archive_paths(second));
        lemma_sum_contains(known, archive_paths(first), x);
        lemma_sum_contains(archive_paths(first), archive_paths(second), x);
        assert(fresh_archives(known, a + b) =~= first + fresh_archives(more, b));
    }
}

proof fn lemma_fresh_complete(known: Seq<Seq<Seq<char>>>, found: Seq<ArchiveView>, i: int)
    ensures
        0 <= i < found.len() && !known.contains(found[i].path) ==> archive_paths(
            fresh_archives(known, found),
        ).contains(found[i].path),
        0 <= i < fresh_archives(known, found).len() ==> found.contains(
            fresh_archives(known, found)[i],
        ),
    decreases found.len(),
{
    if found.len() > 0 {
        let earlier = found.drop_last();
        let fresh = fresh_archives(known, found);
        let before = fresh_archives(known, earlier);
        lemma_fresh_complete(known, earlier, i);
        if 0 <= i < found.len() && !known.contains(found[i].path) {
            if i < earlier.len() {
                assert(earlier[i] == found[i]);
                let k = choose|k: int|
                    0 <= k < archive_paths(before).len() && archive_paths(before)[k]
                        == found[i].path;
                assert(archive_paths(fresh)[k] == found[i].path);
            } else if fresh.len() > before.len() {
                assert(archive_paths(fresh)[before.len() as int] == found[i].path);
            }
        }
        if 0 <= i < fresh.len() {
            if i < before.len() {
                let k = choose|k: int| 0 <= k < earlier.len() && earlier[k] == before[i];
                assert(found[k] == fresh[i]);
            } else {
                assert(found[found.len() - 1] == fresh[i]);
            }
        }
    }
}

/// How a stage ends once what is left has been listed: well exactly if all that is
/// left was there before or has been taken on; otherwise it says that there are
/// archives too deep, and how deep it may go.
pub proof fn law_how_a_stage_ends(
    run: ExtractView,
    in_output: bool,
    left: Seq<Seq<Seq<char>>>,
)
    requires
        run.all_ok,
    ensures
        ({
            let end = extract_next(
                ExtractStepView::FinalScan { run, in_output },
                ExtractEvent::FinalScanned(left),
            );
            let all_known = forall|i: int|
                0 <= i < left.len() ==> run.present.contains(#[trigger] left[i])
                    || run.taken.contains(left[i]);
            &&& end is Finish
            &&& end.run().all_ok <==> all_known
            &&& end.run().taken == run.taken
            &&& all_known ==> end.run() == run
            &&& !all_known ==> end.run().messages == run.messages + seq![
                "nested archive depth limit ("@ + decimal_text(run.max_depth as nat)
                    + ") reached; source files retained"@,
            ]
        }),
{
    let text = depth_limit_text(run.max_depth);
    assert(run.messages.push(text) =~= run.messages + seq![text]);
    assert forall|i: int| 0 <= i < left.len() implies run.known().contains(#[trigger] left[i]) == (
    run.present.contains(left[i]) || run.taken.contains(left[i])) by {
        lemma_sum_contains(run.present, run.taken, left[i]);
    }
    if forall|i: int|
        0 <= i < left.len() ==> run.present.contains(#[trigger] left[i]) || run.taken.contains(
            left[i],
        ) {
        assert forall|i: int| 0 <= i < left.len() implies run.known().contains(
            #[trigger] left[i],
        ) by {}
    } else {
        let i = choose|i: int|
            0 <= i < left.len() && !(run.present.contains(#[trigger] left[i])
                || run.taken.contains(left[i]));
        assert(!run.known().contains(left[i]));
    }
}

/// What a stage reports: that it found nothing, if it took on no archive; otherwise
/// success exactly if all went well, all that it said, and all archives that it
/// took on.
pub proof fn law_what_a_stage_reports(run: ExtractView, duration_nanos: u64)
    ensures
        run.taken.len() == 0 ==> extract_report(run, duration_nanos) == (
            StageView {
                name: "Extract"@,
                status: StageStatus::Skipped,
                message: Some("No archives found"@),
                duration_nanos,
            },
            Seq::<Seq<Seq<char>>>::empty(),
        ),
        run.taken.len() > 0 ==> extract_report(run, duration_nanos) == (
            StageView {
                name: "Extract"@,
                status: if run.all_ok {
                    StageStatus::Success
                } else {
                    StageStatus::Failed
                },
                message: Some(joined(run.messages, "; "@)),
                duration_nanos,
            },
            run.taken,
        ),
{
}

/// What counts of an extraction: whether it succeeded and what was written to the
/// standard error, or the error as it is.
pub proof fn law_what_counts_of_an_extraction(result: UnpackResult, error: String)
    ensures
        outcome_of(Ok(result)) == (OutcomeView::Ran {
            success: result.success,
            error_output: result.error_output@,
        }),
        outcome_of(Err(error)) == OutcomeView::Error(error@),
{
}

} // verus!

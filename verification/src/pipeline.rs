//! Post-processing pipeline orchestrator.
//!
//! Stages:
//! - **Verify**: PAR2 verification (skipped when no article failed)
//! - **Repair**: PAR2 repair when files are damaged
//! - **Extract**: unpack archives
//! - **Cleanup**: remove archive and PAR2 files
//!
//! The pipeline alternates outside work, which the caller does, with decisions,
//! which are here: every method takes what came of the work and says what is to
//! be done next.

use vstd::prelude::*;
use vstd::string::StringExecFns;

use crate::cleanup::{cleanup_view, Removal};
use crate::extract::{extract_report, ExtractView};
use crate::par2::{
    block_sum, damage_of, damage_view, repair_view, Damage, Par2View, RepairOutcome, VerifyReport,
};
use crate::path::{path_views, FilePath};
use crate::resources::WorkStage;
use crate::stage::{stage_result, stage_view, stage_views, StageResult, StageStatus, StageView};
use crate::text::{
    decimal, decimal_text, join, joined, law_joining_is_putting_between,
    law_occurring_is_standing_between, occurs_in, texts,
};

verus! {

/// Final result of the complete post-processing pipeline.
#[derive(Debug)]
pub struct PostProcResult {
    /// Whether all stages completed successfully.
    pub success: bool,
    /// Results from each stage that was attempted.
    pub stages: Vec<StageResult>,
    /// Error message if the pipeline failed.
    pub error: Option<String>,
}

/// Configuration for the post-processing pipeline.
#[derive(Debug, Clone)]
pub struct PostProcConfig {
    /// Remove par2 and archive files after successful extraction.
    pub cleanup_after_extract: bool,
    /// Directory where extracted files should be placed.
    /// If None, extracts into the job directory itself.
    pub output_dir: Option<FilePath>,
    /// Number of articles that failed during download.
    /// When 0, par2 verification is skipped (files are known-good).
    pub articles_failed: usize,
    /// Failed articles belonging to source/content files. PAR2 volume
    /// failures do not make an otherwise intact archive unextractable.
    pub content_articles_failed: usize,
    /// When true, direct unpack already extracted the outer archive during the
    /// download phase; what it extracted is searched for nested archives.
    pub skip_extract: bool,
    /// Optional archive password (from NZB metadata or indexer API).
    pub password: Option<String>,
    /// Maximum archive nesting depth processed automatically. Zero permits
    /// the outer archive only; the default handles five nested layers.
    pub max_nested_archive_depth: u8,
}

impl Default for PostProcConfig {
    fn default() -> (config: Self)
        ensures
            config.cleanup_after_extract,
            config.output_dir is None,
            config.articles_failed == 0,
            config.content_articles_failed == 0,
            !config.skip_extract,
            config.password is None,
            config.max_nested_archive_depth == 5,
    {
        PostProcConfig {
            cleanup_after_extract: true,
            output_dir: None,
            articles_failed: 0,
            content_articles_failed: 0,
            skip_extract: false,
            password: None,
            max_nested_archive_depth: 5,
        }
    }
}

/// What the pipeline reads of its configuration, and the job's directory.
pub struct JobView {
    pub job_dir: Seq<Seq<char>>,
    pub cleanup_after_extract: bool,
    pub output_dir: Seq<Seq<char>>,
    pub articles_failed: usize,
    pub content_articles_failed: usize,
    pub skip_extract: bool,
    pub password: Option<Seq<char>>,
    pub max_nested_archive_depth: u8,
}

/// What the pipeline reads of its configuration. Without an output directory
/// files are extracted into the job's directory.
pub open spec fn job_view(job_dir: FilePath, config: PostProcConfig) -> JobView {
    JobView {
        job_dir: job_dir@,
        cleanup_after_extract: config.cleanup_after_extract,
        output_dir: match config.output_dir {
            Some(dir) => dir@,
            None => job_dir@,
        },
        articles_failed: config.articles_failed,
        content_articles_failed: config.content_articles_failed,
        skip_extract: config.skip_extract,
        password: match config.password {
            Some(text) => Some(text@),
            None => None,
        },
        max_nested_archive_depth: config.max_nested_archive_depth,
    }
}

/// How a verification, and the repair that followed it, ended.
#[derive(Debug)]
pub enum VerifyRepairOutcome {
    /// All files are correct.
    AllCorrect { intact_count: usize },
    /// There was damage, and an attempt to repair it.
    Damaged { damage: Damage, repair: RepairOutcome },
}

/// What a `RepairOutcome` holds.
pub enum RepairOutcomeView {
    Completed { success: bool, message: Seq<char> },
    Failed { error: Seq<char> },
}

/// What a `VerifyRepairOutcome` holds.
pub enum VerifyOutcomeView {
    AllCorrect { intact_count: usize },
    Damaged { damage: Damage, repair: RepairOutcomeView },
}

impl View for VerifyRepairOutcome {
    type V = VerifyOutcomeView;

    open spec fn view(&self) -> VerifyOutcomeView {
        match self {
            VerifyRepairOutcome::AllCorrect { intact_count } => VerifyOutcomeView::AllCorrect {
                intact_count: *intact_count,
            },
            VerifyRepairOutcome::Damaged { damage, repair } => VerifyOutcomeView::Damaged {
                damage: *damage,
                repair: match repair {
                    RepairOutcome::Completed { success, message } => RepairOutcomeView::Completed {
                        success: *success,
                        message: message@,
                    },
                    RepairOutcome::Failed { error } => RepairOutcomeView::Failed { error: error@ },
                },
            },
        }
    }
}

/// What is to be done after the files were verified.
#[derive(Debug)]
pub enum VerifyStep {
    /// Nothing: this is the outcome.
    Done(VerifyRepairOutcome),
    /// A repair; the damage and its outcome are `VerifyRepairOutcome::Damaged`.
    Repair(Damage),
}

/// What a `VerifyStep` holds.
pub enum VerifyStepView {
    Done(VerifyOutcomeView),
    Repair(Damage),
}

impl View for VerifyStep {
    type V = VerifyStepView;

    open spec fn view(&self) -> VerifyStepView {
        match self {
            VerifyStep::Done(outcome) => VerifyStepView::Done(outcome@),
            VerifyStep::Repair(damage) => VerifyStepView::Repair(*damage),
        }
    }
}

/// What is to be done after the files were verified.
pub open spec fn native_step(report: VerifyReport) -> VerifyStepView {
    if report.is_correct() {
        VerifyStepView::Done(VerifyOutcomeView::AllCorrect { intact_count: report.intact })
    } else {
        VerifyStepView::Repair(damage_view(report))
    }
}

/// What is to be done after the files were verified: damage is repaired with
/// what recovery blocks there are.
pub fn after_native_verify(report: &VerifyReport) -> (step: VerifyStep)
    requires
        report.lost_blocks() <= u32::MAX,
    ensures
        step@ == native_step(*report),
        match step {
            VerifyStep::Done(outcome) => report.is_correct() && outcome@ == (
            VerifyOutcomeView::AllCorrect { intact_count: report.intact }),
            VerifyStep::Repair(damage) => {
                &&& !report.is_correct()
                &&& damage.intact == report.intact
                &&& damage.damaged == report.damaged@.len()
                &&& damage.missing == report.missing@.len()
                &&& damage.blocks_needed == report.lost_blocks()
                &&& damage.blocks_available == report.recovery_blocks_available
            },
        },
{
    match damage_of(report) {
        None => VerifyStep::Done(
            VerifyRepairOutcome::AllCorrect { intact_count: report.intact },
        ),
        Some(damage) => VerifyStep::Repair(damage),
    }
}

/// The counters that the pipeline increments.
#[derive(Debug, Clone, Copy, PartialEq, Eq, Structural)]
pub enum Counter {
    VerifySuccess,
    RepairSuccess,
    RepairFailure,
}

impl Counter {
    /// The name of the counter.
    pub open spec fn text(self) -> Seq<char> {
        match self {
            Counter::VerifySuccess => "par2.verify_success"@,
            Counter::RepairSuccess => "par2.repair_success"@,
            Counter::RepairFailure => "par2.repair_failure"@,
        }
    }

    /// The name of the counter.
    pub fn name(self) -> (name: &'static str)
        ensures
            name@ == self.text(),
    {
        match self {
            Counter::VerifySuccess => "par2.verify_success",
            Counter::RepairSuccess => "par2.repair_success",
            Counter::RepairFailure => "par2.repair_failure",
        }
    }
}

/// The counter to increment after a verification.
pub open spec fn counter_of(outcome: VerifyOutcomeView) -> Counter {
    match outcome {
        VerifyOutcomeView::AllCorrect { .. } => Counter::VerifySuccess,
        VerifyOutcomeView::Damaged { repair, .. } => match repair {
            RepairOutcomeView::Completed { success, .. } => if success {
                Counter::RepairSuccess
            } else {
                Counter::RepairFailure
            },
            RepairOutcomeView::Failed { .. } => Counter::RepairFailure,
        },
    }
}

/// The counter to increment after a repair stage.
pub open spec fn counter_of_stage(status: StageStatus) -> Counter {
    if status == StageStatus::Failed {
        Counter::RepairFailure
    } else {
        Counter::RepairSuccess
    }
}

/// The counter to increment after a verification.
pub fn verify_counter(outcome: &VerifyRepairOutcome) -> (counter: Counter)
    ensures
        counter == counter_of(outcome@),
{
    match outcome {
        VerifyRepairOutcome::AllCorrect { .. } => Counter::VerifySuccess,
        VerifyRepairOutcome::Damaged { repair, .. } => match repair {
            RepairOutcome::Completed { success, .. } => if *success {
                Counter::RepairSuccess
            } else {
                Counter::RepairFailure
            },
            RepairOutcome::Failed { .. } => Counter::RepairFailure,
        },
    }
}

/// The counter to increment after a repair stage.
pub fn repair_counter(status: StageStatus) -> (counter: Counter)
    ensures
        counter == counter_of_stage(status),
{
    if status == StageStatus::Failed {
        Counter::RepairFailure
    } else {
        Counter::RepairSuccess
    }
}

/// A pipeline under way.
#[derive(Debug)]
pub struct PipelineRun {
    /// The reports of the stages so far.
    pub stages: Vec<StageResult>,
    /// Whether the pipeline has not failed so far.
    pub ok: bool,
    /// The archives that were extracted.
    pub archives: Vec<FilePath>,
}

/// What a `PipelineRun` holds.
#[verifier::ext_equal]
pub struct PipelineView {
    pub stages: Seq<StageView>,
    pub ok: bool,
    pub archives: Seq<Seq<Seq<char>>>,
}

impl View for PipelineRun {
    type V = PipelineView;

    open spec fn view(&self) -> PipelineView {
        PipelineView {
            stages: stage_views(self.stages@),
            ok: self.ok,
            archives: path_views(self.archives@),
        }
    }
}

/// What is to be done next in a pipeline. While it is done the worker that
/// `worker` gives is held, from one step to the next if it is the same.
#[derive(Debug)]
pub enum PipelineStep {
    /// Parse the PAR2 index file: `index_parsed`.
    Parse { run: PipelineRun, verify: bool },
    /// Rename the files to their PAR2 names: `renamed`.
    Rename { run: PipelineRun, verify: bool },
    /// Verify the files, and repair them if there is damage: `verified`, or
    /// `verify_panicked`.
    Verify(PipelineRun),
    /// Run a repair stage of its own: `repaired`.
    Repair(PipelineRun),
    /// Run an extract stage (`ExtractRun::start`) to the given depth and with the
    /// given password: `extracted`.
    Extract {
        run: PipelineRun,
        source_dir: FilePath,
        output_dir: FilePath,
        max_depth: u8,
        password: Option<String>,
    },
    /// Run a cleanup stage: `cleaned`.
    Cleanup { run: PipelineRun, cleanup_root: FilePath },
    /// Nothing: `finish`.
    Finish(PipelineRun),
}

/// What a `PipelineStep` holds.
#[verifier::ext_equal]
pub enum PipelineStepView {
    Parse { run: PipelineView, verify: bool },
    Rename { run: PipelineView, verify: bool },
    Verify(PipelineView),
    Repair(PipelineView),
    Extract {
        run: PipelineView,
        source_dir: Seq<Seq<char>>,
        output_dir: Seq<Seq<char>>,
        max_depth: u8,
        password: Option<Seq<char>>,
    },
    Cleanup { run: PipelineView, cleanup_root: Seq<Seq<char>> },
    Finish(PipelineView),
}

impl View for PipelineStep {
    type V = PipelineStepView;

    open spec fn view(&self) -> PipelineStepView {
        match self {
            PipelineStep::Parse { run, verify } => PipelineStepView::Parse {
                run: run@,
                verify: *verify,
            },
            PipelineStep::Rename { run, verify } => PipelineStepView::Rename {
                run: run@,
                verify: *verify,
            },
            PipelineStep::Verify(run) => PipelineStepView::Verify(run@),
            PipelineStep::Repair(run) => PipelineStepView::Repair(run@),
            PipelineStep::Extract { run, source_dir, output_dir, max_depth, password } =>
                PipelineStepView::Extract {
                run: run@,
                source_dir: source_dir@,
                output_dir: output_dir@,
                max_depth: *max_depth,
                password: match password {
                    Some(text) => Some(text@),
                    None => None,
                },
            },
            PipelineStep::Cleanup { run, cleanup_root } => PipelineStepView::Cleanup {
                run: run@,
                cleanup_root: cleanup_root@,
            },
            PipelineStep::Finish(run) => PipelineStepView::Finish(run@),
        }
    }
}

impl PipelineStepView {
    /// The worker that is held during the step: a repair worker from the index
    /// file on where there is a verification, an extraction worker to extract.
    pub open spec fn worker(self) -> Option<WorkStage> {
        match self {
            PipelineStepView::Parse { verify, .. } => if verify {
                Some(WorkStage::Repair)
            } else {
                None
            },
            PipelineStepView::Rename { verify, .. } => if verify {
                Some(WorkStage::Repair)
            } else {
                None
            },
            PipelineStepView::Verify(_) => Some(WorkStage::Repair),
            PipelineStepView::Repair(_) => Some(WorkStage::Repair),
            PipelineStepView::Extract { .. } => Some(WorkStage::Extract),
            PipelineStepView::Cleanup { .. } => None,
            PipelineStepView::Finish(_) => None,
        }
    }
}

impl PipelineStep {
    /// The worker to be held during the step.
    pub fn worker(&self) -> (worker: Option<WorkStage>)
        ensures
            worker == self@.worker(),
    {
        match self {
            PipelineStep::Parse { verify, .. } => if *verify {
                Some(WorkStage::Repair)
            } else {
                None
            },
            PipelineStep::Rename { verify, .. } => if *verify {
                Some(WorkStage::Repair)
            } else {
                None
            },
            PipelineStep::Verify(_) => Some(WorkStage::Repair),
            PipelineStep::Repair(_) => Some(WorkStage::Repair),
            PipelineStep::Extract { .. } => Some(WorkStage::Extract),
            PipelineStep::Cleanup { .. } => None,
            PipelineStep::Finish(_) => None,
        }
    }
}

impl PipelineView {
    /// The pipeline with one more report, and failed if the stage failed it.
    pub open spec fn with(self, stage: StageView, ok: bool) -> PipelineView {
        PipelineView { stages: self.stages.push(stage), ok: self.ok && ok, ..self }
    }
}

/// The step after verification and repair: extraction, unless they failed. The
/// outer archives are in the job's directory, or, where direct unpack has
/// extracted them, what came out of them is in the output directory.
pub open spec fn to_extract(job: JobView, run: PipelineView) -> PipelineStepView {
    if run.ok {
        PipelineStepView::Extract {
            run,
            source_dir: if job.skip_extract {
                job.output_dir
            } else {
                job.job_dir
            },
            output_dir: job.output_dir,
            max_depth: job.max_nested_archive_depth,
            password: job.password,
        }
    } else {
        PipelineStepView::Finish(run)
    }
}

/// The step after extraction: cleanup, if all went well and it is wanted.
pub open spec fn to_cleanup(job: JobView, run: PipelineView) -> PipelineStepView {
    if run.ok && job.cleanup_after_extract {
        PipelineStepView::Cleanup { run, cleanup_root: job.output_dir }
    } else {
        PipelineStepView::Finish(run)
    }
}

/// What is said where content is missing and cannot be recovered.
pub open spec fn no_recovery_text(content_articles_failed: usize) -> Seq<char> {
    decimal_text(content_articles_failed as nat)
        + " content article(s) missing and no PAR2 recovery set is available"@
}

/// The first step, given the number of PAR2 files in the job's directory.
/// Without any, missing content is beyond recovery. Files of which no article
/// failed are known to be good: they are renamed but not verified.
pub open spec fn pipeline_start(job: JobView, par2_files: usize) -> PipelineStepView {
    let run = PipelineView { stages: Seq::empty(), ok: true, archives: Seq::empty() };
    if par2_files > 0 {
        PipelineStepView::Parse { run, verify: job.articles_failed > 0 }
    } else if job.content_articles_failed > 0 {
        to_extract(
            job,
            run.with(
                stage_view(
                    "Verify"@,
                    StageStatus::Failed,
                    no_recovery_text(job.content_articles_failed),
                    0,
                ),
                false,
            ),
        )
    } else {
        to_extract(
            job,
            run.with(
                stage_view("Verify"@, StageStatus::Skipped, "No par2 files found"@, 0),
                true,
            ),
        )
    }
}

/// The step after the index file was parsed: renaming, if it can be parsed;
/// otherwise a repair stage of its own if articles failed, else extraction.
pub open spec fn after_parse(
    job: JobView,
    run: PipelineView,
    verify: bool,
    parsed: Result<(), Seq<char>>,
    duration_nanos: u64,
) -> PipelineStepView {
    match parsed {
        Ok(_) => PipelineStepView::Rename { run, verify },
        Err(error) => if verify {
            PipelineStepView::Repair(
                run.with(
                    stage_view(
                        "Verify"@,
                        StageStatus::Skipped,
                        "PAR2 parse failed ("@ + error + "), attempting repair"@,
                        duration_nanos,
                    ),
                    true,
                ),
            )
        } else {
            to_extract(
                job,
                run.with(
                    stage_view(
                        "Verify"@,
                        StageStatus::Skipped,
                        "Skipped — zero article failures (PAR2 parse failed: "@ + error + ")"@,
                        duration_nanos,
                    ),
                    true,
                ),
            )
        },
    }
}

/// The step after the files were renamed.
pub open spec fn after_rename_pass(
    job: JobView,
    run: PipelineView,
    verify: bool,
    duration_nanos: u64,
) -> PipelineStepView {
    if verify {
        PipelineStepView::Verify(run)
    } else {
        to_extract(
            job,
            run.with(
                stage_view(
                    "Verify"@,
                    StageStatus::Skipped,
                    "Skipped — zero article failures (PAR2-guided rename applied)"@,
                    duration_nanos,
                ),
                true,
            ),
        )
    }
}

/// What is said of files that are all correct.
pub open spec fn all_correct_text(intact_count: usize, seconds: Seq<char>) -> Seq<char> {
    "All "@ + decimal_text(intact_count as nat) + " files correct (native verify, "@ + seconds
        + "s)"@
}

/// What is said of damage.
pub open spec fn damage_text(damage: Damage) -> Seq<char> {
    decimal_text(damage.intact as nat) + " intact, "@ + decimal_text(damage.damaged as nat)
        + " damaged, "@ + decimal_text(damage.missing as nat) + " missing — "@ + decimal_text(
        damage.blocks_needed as nat,
    ) + " blocks needed (native verify)"@
}

/// The pipeline after a verification and the repair that followed it.
pub open spec fn with_outcome(
    run: PipelineView,
    outcome: VerifyOutcomeView,
    seconds: Seq<char>,
    duration_nanos: u64,
) -> PipelineView {
    match outcome {
        VerifyOutcomeView::AllCorrect { intact_count } => run.with(
            stage_view(
                "Verify"@,
                StageStatus::Success,
                all_correct_text(intact_count, seconds),
                duration_nanos,
            ),
            true,
        ),
        VerifyOutcomeView::Damaged { damage, repair } => {
            let verified = run.with(
                stage_view("Verify"@, StageStatus::Success, damage_text(damage), duration_nanos),
                true,
            );
            match repair {
                RepairOutcomeView::Completed { success, message } => verified.with(
                    stage_view(
                        "Repair"@,
                        if success {
                            StageStatus::Success
                        } else {
                            StageStatus::Failed
                        },
                        message,
                        duration_nanos,
                    ),
                    success,
                ),
                RepairOutcomeView::Failed { error } => verified.with(
                    stage_view(
                        "Repair"@,
                        StageStatus::Failed,
                        "Repair failed: "@ + error,
                        duration_nanos,
                    ),
                    false,
                ),
            }
        },
    }
}

/// The step after a verification broke off.
pub open spec fn after_panic(
    job: JobView,
    run: PipelineView,
    error: Seq<char>,
    duration_nanos: u64,
) -> PipelineStepView {
    to_extract(
        job,
        run.with(
            stage_view(
                "Verify"@,
                StageStatus::Failed,
                "Verify task panicked: "@ + error,
                duration_nanos,
            ),
            false,
        ),
    )
}

/// The step after a repair stage of its own.
pub open spec fn after_repair_stage(
    job: JobView,
    run: PipelineView,
    result: StageView,
) -> PipelineStepView {
    to_extract(job, run.with(result, result.status != StageStatus::Failed))
}

/// The step after the extract stage.
pub open spec fn after_extract_stage(
    job: JobView,
    run: PipelineView,
    result: StageView,
    archives: Seq<Seq<Seq<char>>>,
) -> PipelineStepView {
    to_cleanup(
        job,
        PipelineView {
            stages: run.stages.push(result),
            ok: if result.status == StageStatus::Failed {
                false
            } else if result.status == StageStatus::Success {
                true
            } else {
                run.ok
            },
            archives,
        },
    )
}

/// The step after the cleanup stage. It is the last one, and fails the pipeline
/// as any other does.
pub open spec fn after_cleanup_stage(run: PipelineView, result: StageView) -> PipelineStepView {
    PipelineStepView::Finish(run.with(result, result.status != StageStatus::Failed))
}

/// The messages of the stages that failed.
pub open spec fn failure_messages(stages: Seq<StageView>) -> Seq<Seq<char>>
    decreases stages.len(),
{
    if stages.len() == 0 {
        Seq::empty()
    } else {
        let earlier = failure_messages(stages.drop_last());
        match stages.last().message {
            Some(text) if stages.last().status == StageStatus::Failed => earlier.push(text),
            _ => earlier,
        }
    }
}

/// What a finished pipeline says of its failure, if it failed.
pub open spec fn error_text(run: PipelineView) -> Option<Seq<char>> {
    if run.ok {
        None
    } else {
        Some(joined(failure_messages(run.stages), "; "@))
    }
}

/// The output directory of a job.
fn output_dir_of(job_dir: &FilePath, config: &PostProcConfig) -> (dir: FilePath)
    ensures
        dir@ == job_view(*job_dir, *config).output_dir,
{
    match &config.output_dir {
        Some(dir) => dir.clone(),
        None => job_dir.clone(),
    }
}

impl PipelineRun {
    /// Adds the report of a stage, and fails the pipeline if the stage did.
    fn push(self, stage: StageResult, ok: bool) -> (run: PipelineRun)
        ensures
            run@ == self@.with(stage@, ok),
    {
        let mut run: PipelineRun = self;
        run.stages.push(stage);
        run.ok = run.ok && ok;
        assert(run@.stages =~= self@.stages.push(stage@));
        run
    }

    /// Goes on to extraction, unless verification or repair failed.
    fn to_extract(self, job_dir: &FilePath, config: &PostProcConfig) -> (step: PipelineStep)
        ensures
            step@ == to_extract(job_view(*job_dir, *config), self@),
    {
        if !self.ok {
            return PipelineStep::Finish(self);
        }
        let output_dir: FilePath = output_dir_of(job_dir, config);
        let source_dir: FilePath = if config.skip_extract {
            output_dir.clone()
        } else {
            job_dir.clone()
        };
        let password: Option<String> = match &config.password {
            Some(text) => Some(text.clone()),
            None => None,
        };
        PipelineStep::Extract {
            run: self,
            source_dir,
            output_dir,
            max_depth: config.max_nested_archive_depth,
            password,
        }
    }

    /// Begins a pipeline, given the number of PAR2 files in the job's directory.
    pub fn start(job_dir: &FilePath, config: &PostProcConfig, par2_files: usize) -> (step:
        PipelineStep)
        ensures
            step@ == pipeline_start(job_view(*job_dir, *config), par2_files),
    {
        let run: PipelineRun = PipelineRun { stages: Vec::new(), ok: true, archives: Vec::new() };
        assert(run@.stages =~= Seq::empty());
        assert(run@.archives =~= Seq::empty());
        if par2_files > 0 {
            return PipelineStep::Parse { run, verify: config.articles_failed > 0 };
        }
        if config.content_articles_failed > 0 {
            let mut message: String = decimal(config.content_articles_failed as u64);
            message.append(" content article(s) missing and no PAR2 recovery set is available");
            let stage: StageResult = stage_result("Verify", StageStatus::Failed, message, 0);
            return run.push(stage, false).to_extract(job_dir, config);
        }
        let stage: StageResult = stage_result(
            "Verify",
            StageStatus::Skipped,
            "No par2 files found".to_owned(),
            0,
        );
        run.push(stage, true).to_extract(job_dir, config)
    }

    /// Goes on after the index file was parsed, or could not be.
    pub fn index_parsed(
        self,
        job_dir: &FilePath,
        config: &PostProcConfig,
        verify: bool,
        parsed: Result<(), String>,
        duration_nanos: u64,
    ) -> (step: PipelineStep)
        ensures
            step@ == after_parse(
                job_view(*job_dir, *config),
                self@,
                verify,
                match parsed {
                    Ok(_) => Ok(()),
                    Err(error) => Err(error@),
                },
                duration_nanos,
            ),
    {
        match parsed {
            Ok(_) => PipelineStep::Rename { run: self, verify },
            Err(error) => {
                if verify {
                    let mut message: String = "PAR2 parse failed (".to_owned();
                    message.append(error.as_str());
                    message.append("), attempting repair");
                    let stage: StageResult = stage_result(
                        "Verify",
                        StageStatus::Skipped,
                        message,
                        duration_nanos,
                    );
                    return PipelineStep::Repair(self.push(stage, true));
                }
                let mut message: String =
                    "Skipped — zero article failures (PAR2 parse failed: ".to_owned();
                message.append(error.as_str());
                message.append(")");
                let stage: StageResult = stage_result(
                    "Verify",
                    StageStatus::Skipped,
                    message,
                    duration_nanos,
                );
                self.push(stage, true).to_extract(job_dir, config)
            },
        }
    }

    /// Goes on after the files were renamed.
    pub fn renamed(
        self,
        job_dir: &FilePath,
        config: &PostProcConfig,
        verify: bool,
        duration_nanos: u64,
    ) -> (step: PipelineStep)
        ensures
            step@ == after_rename_pass(
                job_view(*job_dir, *config),
                self@,
                verify,
                duration_nanos,
            ),
    {
        if verify {
            return PipelineStep::Verify(self);
        }
        let stage: StageResult = stage_result(
            "Verify",
            StageStatus::Skipped,
            "Skipped — zero article failures (PAR2-guided rename applied)".to_owned(),
            duration_nanos,
        );
        self.push(stage, true).to_extract(job_dir, config)
    }

    /// Goes on after a verification and the repair that followed it. `seconds`
    /// is how long they took, as it is to be shown.
    pub fn verified(
        self,
        job_dir: &FilePath,
        config: &PostProcConfig,
        outcome: VerifyRepairOutcome,
        seconds: &str,
        duration_nanos: u64,
    ) -> (step: PipelineStep)
        ensures
            step@ == to_extract(
                job_view(*job_dir, *config),
                with_outcome(self@, outcome@, seconds@, duration_nanos),
            ),
    {
        match outcome {
            VerifyRepairOutcome::AllCorrect { intact_count } => {
                let mut message: String = "All ".to_owned();
                message.append(decimal(intact_count as u64).as_str());
                message.append(" files correct (native verify, ");
                message.append(seconds);
                message.append("s)");
                let stage: StageResult = stage_result(
                    "Verify",
                    StageStatus::Success,
                    message,
                    duration_nanos,
                );
                self.push(stage, true).to_extract(job_dir, config)
            },
            VerifyRepairOutcome::Damaged { damage, repair } => {
                let mut message: String = decimal(damage.intact as u64);
                message.append(" intact, ");
                message.append(decimal(damage.damaged as u64).as_str());
                message.append(" damaged, ");
                message.append(decimal(damage.missing as u64).as_str());
                message.append(" missing — ");
                message.append(decimal(damage.blocks_needed as u64).as_str());
                message.append(" blocks needed (native verify)");
                let stage: StageResult = stage_result(
                    "Verify",
                    StageStatus::Success,
                    message,
                    duration_nanos,
                );
                let run: PipelineRun = self.push(stage, true);
                match repair {
                    RepairOutcome::Completed { success, message } => {
                        let status: StageStatus = if success {
                            StageStatus::Success
                        } else {
                            StageStatus::Failed
                        };
                        let repaired: StageResult = stage_result(
                            "Repair",
                            status,
                            message,
                            duration_nanos,
                        );
                        run.push(repaired, success).to_extract(job_dir, config)
                    },
                    RepairOutcome::Failed { error } => {
                        let mut text: String = "Repair failed: ".to_owned();
                        text.append(error.as_str());
                        let repaired: StageResult = stage_result(
                            "Repair",
                            StageStatus::Failed,
                            text,
                            duration_nanos,
                        );
                        run.push(repaired, false).to_extract(job_dir, config)
                    },
                }
            },
        }
    }

    /// Goes on after a verification broke off.
    pub fn verify_panicked(
        self,
        job_dir: &FilePath,
        config: &PostProcConfig,
        error: &str,
        duration_nanos: u64,
    ) -> (step: PipelineStep)
        ensures
            step@ == after_panic(job_view(*job_dir, *config), self@, error@, duration_nanos),
    {
        let mut message: String = "Verify task panicked: ".to_owned();
        message.append(error);
        let stage: StageResult = stage_result(
            "Verify",
            StageStatus::Failed,
            message,
            duration_nanos,
        );
        self.push(stage, false).to_extract(job_dir, config)
    }

    /// Goes on after a repair stage of its own.
    pub fn repaired(
        self,
        job_dir: &FilePath,
        config: &PostProcConfig,
        result: StageResult,
    ) -> (step: PipelineStep)
        ensures
            step@ == after_repair_stage(job_view(*job_dir, *config), self@, result@),
    {
        let ok: bool = result.status != StageStatus::Failed;
        self.push(result, ok).to_extract(job_dir, config)
    }

    /// Goes on after the extract stage.
    pub fn extracted(
        self,
        job_dir: &FilePath,
        config: &PostProcConfig,
        result: StageResult,
        archives: Vec<FilePath>,
    ) -> (step: PipelineStep)
        ensures
            step@ == after_extract_stage(
                job_view(*job_dir, *config),
                self@,
                result@,
                path_views(archives@),
            ),
    {
        let status: StageStatus = result.status;
        let mut run: PipelineRun = self;
        run.archives = archives;
        if status == StageStatus::Failed {
            run.ok = false;
        } else if status == StageStatus::Success {
            run.ok = true;
        }
        run.stages.push(result);
        assert(run@.stages =~= self@.stages.push(result@));
        if run.ok && config.cleanup_after_extract {
            return PipelineStep::Cleanup { run, cleanup_root: output_dir_of(job_dir, config) };
        }
        PipelineStep::Finish(run)
    }

    /// Goes on after the cleanup stage.
    pub fn cleaned(self, result: StageResult) -> (step: PipelineStep)
        ensures
            step@ == after_cleanup_stage(self@, result@),
    {
        let ok: bool = result.status != StageStatus::Failed;
        PipelineStep::Finish(self.push(result, ok))
    }

    /// The result of the pipeline.
    pub fn finish(self) -> (result: PostProcResult)
        ensures
            result.success == self@.ok,
            stage_views(result.stages@) == self@.stages,
            match result.error {
                None => error_text(self@) is None,
                Some(text) => error_text(self@) == Some(text@),
            },
    {
        if self.ok {
            return PostProcResult { success: true, stages: self.stages, error: None };
        }
        let mut messages: Vec<String> = Vec::new();
        let mut i: usize = 0;
        assert(texts(messages@) =~= failure_messages(self@.stages.subrange(0, 0)));
        while i < self.stages.len()
            invariant
                i <= self.stages@.len(),
                texts(messages@) == failure_messages(self@.stages.subrange(0, i as int)),
            decreases self.stages@.len() - i,
        {
            let ghost earlier = texts(messages@);
            let ghost prefix = self@.stages.subrange(0, i + 1);
            let stage: &StageResult = &self.stages[i];
            assert(prefix.drop_last() =~= self@.stages.subrange(0, i as int));
            assert(prefix.last() == stage@);
            if stage.status == StageStatus::Failed {
                if let Some(text) = &stage.message {
                    messages.push(text.clone());
                    assert(texts(messages@) =~= earlier.push(text@));
                }
            }
            i = i + 1;
        }
        assert(self@.stages.subrange(0, i as int) =~= self@.stages);
        PostProcResult {
            success: false,
            stages: self.stages,
            error: Some(join(&messages, "; ")),
        }
    }
}

// ---------------------------------------------------------------------------
// Whole pipelines
// ---------------------------------------------------------------------------

/// What came of the work that a step asks for.
pub enum PipelineEvent {
    /// The index file was parsed, or could not be.
    Parsed { parsed: Result<(), Seq<char>>, duration_nanos: u64 },
    /// The files were renamed.
    Renamed { duration_nanos: u64 },
    /// The files were verified, and repaired where there was damage.
    Verified { outcome: VerifyOutcomeView, seconds: Seq<char>, duration_nanos: u64 },
    /// The verification broke off.
    Panicked { error: Seq<char>, duration_nanos: u64 },
    /// A repair stage has reported.
    Repaired(StageView),
    /// An extract stage has reported, and says which archives it took on.
    Extracted { result: StageView, archives: Seq<Seq<Seq<char>>> },
    /// A cleanup stage has reported.
    Cleaned(StageView),
}

impl PipelineEvent {
    /// Whether a report bears the name of the stage that it is from.
    pub open spec fn well_named(self) -> bool {
        match self {
            PipelineEvent::Repaired(result) => result.name == "Repair"@,
            PipelineEvent::Extracted { result, .. } => result.name == "Extract"@,
            PipelineEvent::Cleaned(result) => result.name == "Cleanup"@,
            _ => true,
        }
    }
}

/// The step after an event that the step waits for; any other changes nothing.
pub open spec fn pipeline_next(
    job: JobView,
    step: PipelineStepView,
    event: PipelineEvent,
) -> PipelineStepView {
    match (step, event) {
        (
            PipelineStepView::Parse { run, verify },
            PipelineEvent::Parsed { parsed, duration_nanos },
        ) => after_parse(job, run, verify, parsed, duration_nanos),
        (
            PipelineStepView::Rename { run, verify },
            PipelineEvent::Renamed { duration_nanos },
        ) => after_rename_pass(job, run, verify, duration_nanos),
        (
            PipelineStepView::Verify(run),
            PipelineEvent::Verified { outcome, seconds, duration_nanos },
        ) => to_extract(job, with_outcome(run, outcome, seconds, duration_nanos)),
        (
            PipelineStepView::Verify(run),
            PipelineEvent::Panicked { error, duration_nanos },
        ) => after_panic(job, run, error, duration_nanos),
        (PipelineStepView::Repair(run), PipelineEvent::Repaired(result)) => after_repair_stage(
            job,
            run,
            result,
        ),
        (
            PipelineStepView::Extract { run, .. },
            PipelineEvent::Extracted { result, archives },
        ) => after_extract_stage(job, run, result, archives),
        (PipelineStepView::Cleanup { run, .. }, PipelineEvent::Cleaned(result)) =>
            after_cleanup_stage(run, result),
        _ => step,
    }
}

/// The step of a pipeline after a sequence of events.
pub open spec fn pipeline_after(
    job: JobView,
    par2_files: usize,
    events: Seq<PipelineEvent>,
) -> PipelineStepView
    decreases events.len(),
{
    if events.len() == 0 {
        pipeline_start(job, par2_files)
    } else {
        pipeline_next(job, pipeline_after(job, par2_files, events.drop_last()), events.last())
    }
}

/// Whether every report bears the name of the stage that it is from.
pub open spec fn well_named(events: Seq<PipelineEvent>) -> bool {
    forall|i: int| 0 <= i < events.len() ==> (#[trigger] events[i]).well_named()
}

impl PipelineStepView {
    /// The pipeline that the step belongs to.
    pub open spec fn run(self) -> PipelineView {
        match self {
            PipelineStepView::Parse { run, .. } => run,
            PipelineStepView::Rename { run, .. } => run,
            PipelineStepView::Verify(run) => run,
            PipelineStepView::Repair(run) => run,
            PipelineStepView::Extract { run, .. } => run,
            PipelineStepView::Cleanup { run, .. } => run,
            PipelineStepView::Finish(run) => run,
        }
    }
}

/// The place of a stage in the order of the stages.
pub open spec fn stage_place(name: Seq<char>) -> int {
    if name == "Verify"@ {
        0
    } else if name == "Repair"@ {
        1
    } else if name == "Extract"@ {
        2
    } else if name == "Cleanup"@ {
        3
    } else {
        4
    }
}

/// The four stages have four places.
proof fn lemma_stage_places()
    ensures
        stage_place("Verify"@) == 0,
        stage_place("Repair"@) == 1,
        stage_place("Extract"@) == 2,
        stage_place("Cleanup"@) == 3,
{
    reveal_strlit("Verify");
    reveal_strlit("Repair");
    reveal_strlit("Extract");
    reveal_strlit("Cleanup");
    assert("Verify"@[0] == 'V' && "Repair"@[0] == 'R' && "Extract"@[0] == 'E' && "Cleanup"@[0]
        == 'C');
}

/// Whether the stages come in their order, from verification on, each once.
pub open spec fn in_order(stages: Seq<StageView>) -> bool {
    &&& stages.len() > 0 ==> stages[0].name == "Verify"@
    &&& forall|i: int, j: int|
        0 <= i < j < stages.len() ==> stage_place(#[trigger] stages[i].name) < stage_place(
            #[trigger] stages[j].name,
        )
    &&& forall|i: int| 0 <= i < stages.len() ==> stage_place(#[trigger] stages[i].name) <= 3
}

/// Whether there is a report from the stage at a place.
pub open spec fn has_stage(stages: Seq<StageView>, place: int) -> bool {
    exists|i: int| 0 <= i < stages.len() && stage_place(#[trigger] stages[i].name) == place
}

/// Whether a stage before the one at `place` failed.
pub open spec fn failed_before(stages: Seq<StageView>, place: int) -> bool {
    exists|i: int|
        0 <= i < stages.len() && stage_place(#[trigger] stages[i].name) < place
            && stages[i].status == StageStatus::Failed
}

/// What holds of a pipeline at every step.
spec fn step_ok(job: JobView, step: PipelineStepView) -> bool {
    let stages = step.run().stages;
    &&& in_order(stages)
    &&& step.run().ok == !failed_before(stages, 4)
    &&& match step {
        PipelineStepView::Parse { .. }
        | PipelineStepView::Rename { .. }
        | PipelineStepView::Verify(_) => stages.len() == 0 && step.run().ok,
        PipelineStepView::Repair(_) => stages.len() == 1 && step.run().ok,
        PipelineStepView::Extract { .. } => {
            &&& stages.len() > 0
            &&& !has_stage(stages, 2)
            &&& !has_stage(stages, 3)
            &&& step.run().ok
            &&& step == to_extract(job, step.run())
        },
        PipelineStepView::Cleanup { .. } => {
            &&& stages.len() > 0
            &&& has_stage(stages, 2)
            &&& !has_stage(stages, 3)
            &&& step.run().ok
            &&& job.cleanup_after_extract
        },
        PipelineStepView::Finish(_) => {
            &&& stages.len() > 0
            &&& has_stage(stages, 2) == !failed_before(stages, 2)
            &&& has_stage(stages, 3) == (!failed_before(stages, 3) && job.cleanup_after_extract)
        },
    }
}

/// One more report, from a later stage than all before it.
proof fn lemma_one_more_stage(stages: Seq<StageView>, stage: StageView)
    requires
        in_order(stages),
        stage_place(stage.name) <= 3,
        stages.len() == 0 ==> stage.name == "Verify"@,
        forall|i: int|
            0 <= i < stages.len() ==> stage_place(#[trigger] stages[i].name) < stage_place(
                stage.name,
            ),
    ensures
        in_order(stages.push(stage)),
        forall|place: int|
            failed_before(stages.push(stage), place) == (failed_before(stages, place) || (
            stage_place(stage.name) < place && stage.status == StageStatus::Failed)),
        forall|place: int|
            has_stage(stages.push(stage), place) == (has_stage(stages, place) || stage_place(
                stage.name,
            ) == place),
{
    let more = stages.push(stage);
    assert(more[stages.len() as int] == stage);
    assert forall|place: int|
        failed_before(more, place) == (failed_before(stages, place) || (stage_place(stage.name)
            < place && stage.status == StageStatus::Failed)) by {
        if failed_before(stages, place) {
            let i = choose|i: int|
                0 <= i < stages.len() && stage_place(#[trigger] stages[i].name) < place
                    && stages[i].status == StageStatus::Failed;
            assert(more[i] == stages[i]);
        }
        if failed_before(more, place) {
            let i = choose|i: int|
                0 <= i < more.len() && stage_place(#[trigger] more[i].name) < place
                    && more[i].status == StageStatus::Failed;
            if i < stages.len() {
                assert(more[i] == stages[i]);
            }
        }
    }
    assert forall|place: int|
        has_stage(more, place) == (has_stage(stages, place) || stage_place(stage.name)
            == place) by {
        if has_stage(stages, place) {
            let i = choose|i: int|
                0 <= i < stages.len() && stage_place(#[trigger] stages[i].name) == place;
            assert(more[i] == stages[i]);
        }
        if has_stage(more, place) {
            let i = choose|i: int|
                0 <= i < more.len() && stage_place(#[trigger] more[i].name) == place;
            if i < stages.len() {
                assert(more[i] == stages[i]);
            }
        }
    }
}

/// After the first stage's report.
proof fn lemma_first_stage(stages: Seq<StageView>, stage: StageView)
    requires
        stages.len() == 0,
        stage.name == "Verify"@,
    ensures
        in_order(stages.push(stage)),
        !has_stage(stages.push(stage), 2),
        !has_stage(stages.push(stage), 3),
        failed_before(stages.push(stage), 2) == (stage.status == StageStatus::Failed),
        failed_before(stages.push(stage), 3) == (stage.status == StageStatus::Failed),
        failed_before(stages.push(stage), 4) == (stage.status == StageStatus::Failed),
{
    lemma_stage_places();
    lemma_one_more_stage(stages, stage);
}

/// What holds at every step holds at the first.
proof fn lemma_start_ok(job: JobView, par2_files: usize)
    ensures
        step_ok(job, pipeline_start(job, par2_files)),
{
    let none = Seq::<StageView>::empty();
    lemma_first_stage(
        none,
        stage_view(
            "Verify"@,
            StageStatus::Failed,
            no_recovery_text(job.content_articles_failed),
            0,
        ),
    );
    lemma_first_stage(
        none,
        stage_view("Verify"@, StageStatus::Skipped, "No par2 files found"@, 0),
    );
}

/// What holds at every step holds at the next.
proof fn lemma_next_ok(job: JobView, step: PipelineStepView, event: PipelineEvent)
    requires
        step_ok(job, step),
        event.well_named(),
    ensures
        step_ok(job, pipeline_next(job, step, event)),
{
    lemma_stage_places();
    let stages = step.run().stages;
    let next = pipeline_next(job, step, event);
    let more = next.run().stages;
    match (step, event) {
        (PipelineStepView::Parse { .. }, PipelineEvent::Parsed { parsed, .. }) => {
            if parsed is Err {
                lemma_first_stage(stages, more[0]);
            }
        },
        (PipelineStepView::Rename { verify, .. }, PipelineEvent::Renamed { .. }) => {
            if !verify {
                lemma_first_stage(stages, more[0]);
            }
        },
        (PipelineStepView::Verify(_), PipelineEvent::Verified { outcome, .. }) => {
            lemma_first_stage(stages, more[0]);
            if outcome is Damaged {
                lemma_one_more_stage(stages.push(more[0]), more[1]);
            }
        },
        (PipelineStepView::Verify(_), PipelineEvent::Panicked { .. }) => {
            lemma_first_stage(stages, more[0]);
        },
        (PipelineStepView::Repair(_), PipelineEvent::Repaired(result)) => {
            lemma_one_more_stage(stages, result);
        },
        (PipelineStepView::Extract { .. }, PipelineEvent::Extracted { result, .. }) => {
            lemma_one_more_stage(stages, result);
        },
        (PipelineStepView::Cleanup { .. }, PipelineEvent::Cleaned(result)) => {
            lemma_one_more_stage(stages, result);
        },
        _ => {},
    }
}

/// What holds at every step.
proof fn lemma_step_ok(job: JobView, par2_files: usize, events: Seq<PipelineEvent>)
    requires
        well_named(events),
    ensures
        step_ok(job, pipeline_after(job, par2_files, events)),
    decreases events.len(),
{
    if events.len() == 0 {
        lemma_start_ok(job, par2_files);
    } else {
        assert(events.last().well_named());
        assert forall|i: int| 0 <= i < events.drop_last().len() implies (
        #[trigger] events.drop_last()[i]).well_named() by {
            assert(events.drop_last()[i] == events[i]);
        }
        lemma_step_ok(job, par2_files, events.drop_last());
        lemma_next_ok(
            job,
            pipeline_after(job, par2_files, events.drop_last()),
            events.last(),
        );
    }
}

/// The stages are reported in their order, verification first, and each at
/// most once.
pub proof fn law_stages_come_in_order(
    job: JobView,
    par2_files: usize,
    events: Seq<PipelineEvent>,
)
    requires
        well_named(events),
    ensures
        in_order(pipeline_after(job, par2_files, events).run().stages),
{
    lemma_step_ok(job, par2_files, events);
}

/// A pipeline has succeeded so far if and only if none of its stages failed.
pub proof fn law_success_means_no_failed_stage(
    job: JobView,
    par2_files: usize,
    events: Seq<PipelineEvent>,
)
    requires
        well_named(events),
    ensures
        ({
            let run = pipeline_after(job, par2_files, events).run();
            run.ok <==> forall|i: int|
                0 <= i < run.stages.len() ==> (#[trigger] run.stages[i]).status
                    != StageStatus::Failed
        }),
{
    lemma_step_ok(job, par2_files, events);
    let run = pipeline_after(job, par2_files, events).run();
    assert forall|i: int| run.ok && 0 <= i < run.stages.len() implies (
    #[trigger] run.stages[i]).status != StageStatus::Failed by {
        assert(stage_place(run.stages[i].name) <= 3);
    }
}

/// A finished pipeline has extracted if and only if neither verification nor
/// repair failed: damaged content is never taken for an archive.
pub proof fn law_extraction_needs_good_content(
    job: JobView,
    par2_files: usize,
    events: Seq<PipelineEvent>,
)
    requires
        well_named(events),
        pipeline_after(job, par2_files, events) is Finish,
    ensures
        ({
            let stages = pipeline_after(job, par2_files, events).run().stages;
            has_stage(stages, stage_place("Extract"@)) <==> !failed_before(
                stages,
                stage_place("Extract"@),
            )
        }),
{
    lemma_stage_places();
    lemma_step_ok(job, par2_files, events);
}

/// Whenever extraction comes, it is to the depth and with the password that the
/// job is configured with, out of the job's directory, or out of the output
/// directory after direct unpack, and into the output directory.
pub proof fn law_extraction_follows_the_configuration(
    job: JobView,
    par2_files: usize,
    events: Seq<PipelineEvent>,
)
    requires
        well_named(events),
    ensures
        pipeline_after(job, par2_files, events) matches PipelineStepView::Extract {
            source_dir,
            output_dir,
            max_depth,
            password,
            ..
        } ==> {
            &&& source_dir == if job.skip_extract {
                job.output_dir
            } else {
                job.job_dir
            }
            &&& output_dir == job.output_dir
            &&& max_depth == job.max_nested_archive_depth
            &&& password == job.password
        },
{
    lemma_step_ok(job, par2_files, events);
}

/// A finished pipeline has cleaned up if and only if no stage before failed and
/// it is configured to: after a failure nothing is removed.
pub proof fn law_cleanup_needs_success(
    job: JobView,
    par2_files: usize,
    events: Seq<PipelineEvent>,
)
    requires
        well_named(events),
        pipeline_after(job, par2_files, events) is Finish,
    ensures
        ({
            let stages = pipeline_after(job, par2_files, events).run().stages;
            has_stage(stages, stage_place("Cleanup"@)) <==> !failed_before(
                stages,
                stage_place("Cleanup"@),
            ) && job.cleanup_after_extract
        }),
{
    lemma_stage_places();
    lemma_step_ok(job, par2_files, events);
}

/// Files are renamed to their PAR2 names whenever the index file can be
/// parsed, whether or not an article failed.
pub proof fn law_names_are_restored_without_failures(
    job: JobView,
    par2_files: usize,
    duration_nanos: u64,
)
    requires
        par2_files > 0,
    ensures
        pipeline_next(
            job,
            pipeline_start(job, par2_files),
            (PipelineEvent::Parsed { parsed: Ok(()), duration_nanos }),
        ) is Rename,
{
}

/// Without PAR2 files, missing content fails the job before anything is
/// extracted, and there is one report that says so.
pub proof fn law_missing_content_without_recovery_fails(
    job: JobView,
    events: Seq<PipelineEvent>,
)
    requires
        job.content_articles_failed > 0,
    ensures
        ({
            let end = pipeline_after(job, 0, events);
            &&& end is Finish
            &&& !end.run().ok
            &&& end.run().stages == seq![
                stage_view(
                    "Verify"@,
                    StageStatus::Failed,
                    no_recovery_text(job.content_articles_failed),
                    0,
                ),
            ]
        }),
    decreases events.len(),
{
    if events.len() > 0 {
        law_missing_content_without_recovery_fails(job, events.drop_last());
    }
}

/// Where no article failed nothing is verified or repaired, so a bad index
/// file alone cannot fail the job.
pub proof fn law_good_downloads_reach_extraction(
    job: JobView,
    par2_files: usize,
    parsed: Result<(), Seq<char>>,
    parse_nanos: u64,
    rename_nanos: u64,
)
    requires
        job.articles_failed == 0,
        job.content_articles_failed == 0,
    ensures
        ({
            let start = pipeline_start(job, par2_files);
            let second = pipeline_next(
                job,
                start,
                PipelineEvent::Parsed { parsed, duration_nanos: parse_nanos },
            );
            let third = pipeline_next(
                job,
                second,
                PipelineEvent::Renamed { duration_nanos: rename_nanos },
            );
            &&& third is Extract
            &&& third.run().stages.len() == 1
            &&& third.run().stages[0].status == StageStatus::Skipped
        }),
{
}

/// The stages of this library report under their names.
pub proof fn law_reports_bear_their_names(
    repaired: Option<Result<Par2View, Seq<char>>>,
    extract: ExtractView,
    removals: Seq<Removal>,
    duration_nanos: u64,
)
    ensures
        PipelineEvent::Repaired(repair_view(repaired, duration_nanos)).well_named(),
        (PipelineEvent::Extracted {
            result: extract_report(extract, duration_nanos).0,
            archives: extract_report(extract, duration_nanos).1,
        }).well_named(),
        PipelineEvent::Cleaned(cleanup_view(removals, duration_nanos)).well_named(),
{
}

/// Whether a step comes before extraction: the index file, the names, a
/// verification or a repair.
pub open spec fn before_extraction(step: PipelineStepView) -> bool {
    step is Parse || step is Rename || step is Verify || step is Repair
}

/// A verification follows if and only if articles failed.
proof fn lemma_verify_flag(job: JobView, par2_files: usize, events: Seq<PipelineEvent>)
    ensures
        match pipeline_after(job, par2_files, events) {
            PipelineStepView::Parse { verify, .. } => par2_files > 0 && verify == (
            job.articles_failed > 0),
            PipelineStepView::Rename { verify, .. } => par2_files > 0 && verify == (
            job.articles_failed > 0),
            PipelineStepView::Verify(_) => par2_files > 0 && job.articles_failed > 0,
            PipelineStepView::Repair(_) => par2_files > 0 && job.articles_failed > 0,
            _ => true,
        },
    decreases events.len(),
{
    if events.len() > 0 {
        lemma_verify_flag(job, par2_files, events.drop_last());
    }
}

/// A repair worker is held exactly before extraction, in a job with PAR2 files
/// of which articles failed; such a job holds one from its start. An extraction
/// worker is held exactly to extract. So no job holds both, or ever holds a
/// worker of the pipeline itself.
pub proof fn law_workers_are_held_where_they_work(
    job: JobView,
    par2_files: usize,
    events: Seq<PipelineEvent>,
)
    ensures
        ({
            let step = pipeline_after(job, par2_files, events);
            &&& step.worker() == Some(WorkStage::Repair) <==> par2_files > 0 && job.articles_failed
                > 0 && before_extraction(step)
            &&& step.worker() == Some(WorkStage::Extract) <==> step is Extract
            &&& step.worker() != Some(WorkStage::Pipeline)
        }),
        par2_files > 0 && job.articles_failed > 0 <==> pipeline_start(job, par2_files).worker()
            == Some(WorkStage::Repair),
{
    lemma_verify_flag(job, par2_files, events);
}

/// Once a worker has been let go it is not asked for again: a job asks at most
/// once for a repair worker and at most once for an extraction worker.
pub proof fn law_workers_are_asked_for_once(
    job: JobView,
    step: PipelineStepView,
    event: PipelineEvent,
)
    ensures
        step.worker() != Some(WorkStage::Repair) ==> pipeline_next(job, step, event).worker()
            != Some(WorkStage::Repair),
        step is Cleanup || step is Finish ==> pipeline_next(job, step, event).worker() is None,
{
}

// ---------------------------------------------------------------------------
// What each step comes to
// ---------------------------------------------------------------------------

/// Whether `after` is `before` with one more report at its end, and the archives
/// kept.
pub open spec fn reported(
    before: PipelineView,
    after: PipelineView,
    name: Seq<char>,
    status: StageStatus,
    message: Seq<char>,
    duration_nanos: u64,
) -> bool {
    &&& after.stages == before.stages + seq![
        StageView { name, status, message: Some(message), duration_nanos },
    ]
    &&& after.archives == before.archives
}

/// Articles failed and there is a PAR2 set: after the renaming the files are
/// verified, with nothing reported so far. Without failed articles they are not,
/// and that is reported.
pub proof fn law_a_renaming_is_followed_by_a_verification(
    job: JobView,
    run: PipelineView,
    duration_nanos: u64,
)
    ensures
        pipeline_next(
            job,
            PipelineStepView::Rename { run, verify: true },
            PipelineEvent::Renamed { duration_nanos },
        ) == PipelineStepView::Verify(run),
        ({
            let next = pipeline_next(
                job,
                PipelineStepView::Rename { run, verify: false },
                PipelineEvent::Renamed { duration_nanos },
            );
            &&& run.ok ==> next is Extract && next.run().ok
            &&& reported(
                run,
                next.run(),
                "Verify"@,
                StageStatus::Skipped,
                "Skipped — zero article failures (PAR2-guided rename applied)"@,
                duration_nanos,
            )
        }),
{
    assert(pipeline_next(
        job,
        PipelineStepView::Rename { run, verify: false },
        PipelineEvent::Renamed { duration_nanos },
    ).run().stages =~= run.stages + seq![
        StageView {
            name: "Verify"@,
            status: StageStatus::Skipped,
            message: Some("Skipped — zero article failures (PAR2-guided rename applied)"@),
            duration_nanos,
        },
    ]);
}

/// Whether an event tells that the content is good: all files are correct, or they
/// were repaired, or a repair stage did not fail.
pub open spec fn tells_of_good_content(event: PipelineEvent) -> bool {
    match event {
        PipelineEvent::Verified { outcome: VerifyOutcomeView::AllCorrect { .. }, .. } => true,
        PipelineEvent::Verified {
            outcome: VerifyOutcomeView::Damaged {
                repair: RepairOutcomeView::Completed { success, .. },
                ..
            },
            ..
        } => success,
        PipelineEvent::Repaired(result) => result.status != StageStatus::Failed,
        _ => false,
    }
}

/// In a job with PAR2 files of which articles failed, extraction is reached, and
/// the job succeeds, only after a verification or a repair has told that the
/// content is good.
pub proof fn law_failed_downloads_are_verified_first(
    job: JobView,
    par2_files: usize,
    events: Seq<PipelineEvent>,
)
    requires
        par2_files > 0,
        job.articles_failed > 0,
    ensures
        ({
            let step = pipeline_after(job, par2_files, events);
            step is Extract || step is Cleanup || (step is Finish && step.run().ok) ==> exists|
                i: int,
            |
                0 <= i < events.len() && tells_of_good_content(#[trigger] events[i])
        }),
    decreases events.len(),
{
    lemma_unchecked(job, par2_files, events);
}

/// Before that no job has got further than the steps before extraction, or has
/// failed.
proof fn lemma_unchecked(job: JobView, par2_files: usize, events: Seq<PipelineEvent>)
    requires
        par2_files > 0,
        job.articles_failed > 0,
    ensures
        (forall|i: int| 0 <= i < events.len() ==> !tells_of_good_content(#[trigger] events[i])) ==> {
            let step = pipeline_after(job, par2_files, events);
            ||| before_extraction(step)
            ||| step is Finish && !step.run().ok
        },
    decreases events.len(),
{
    if events.len() > 0 {
        lemma_unchecked(job, par2_files, events.drop_last());
        lemma_verify_flag(job, par2_files, events.drop_last());
        if forall|i: int| 0 <= i < events.len() ==> !tells_of_good_content(#[trigger] events[i]) {
            assert forall|i: int| 0 <= i < events.drop_last().len() implies !tells_of_good_content(
                #[trigger] events.drop_last()[i],
            ) by {
                assert(events.drop_last()[i] == events[i]);
            }
            assert(!tells_of_good_content(events[events.len() - 1]));
        }
    }
}

/// What a job starts with: the index file where there are PAR2 files, with a
/// verification to follow exactly if articles failed; otherwise extraction, which
/// no verification comes before, or failure where content is missing.
pub proof fn law_what_a_job_starts_with(job: JobView, par2_files: usize)
    ensures
        ({
            let none = PipelineView { stages: Seq::empty(), ok: true, archives: Seq::empty() };
            let start = pipeline_start(job, par2_files);
            &&& par2_files > 0 ==> start == (PipelineStepView::Parse {
                run: none,
                verify: job.articles_failed > 0,
            })
            &&& par2_files == 0 && job.content_articles_failed == 0 ==> start is Extract
                && start.run().ok && reported(
                none,
                start.run(),
                "Verify"@,
                StageStatus::Skipped,
                "No par2 files found"@,
                0,
            )
            &&& par2_files == 0 && job.content_articles_failed > 0 ==> start is Finish
                && !start.run().ok && reported(
                none,
                start.run(),
                "Verify"@,
                StageStatus::Failed,
                decimal_text(job.content_articles_failed as nat)
                    + " content article(s) missing and no PAR2 recovery set is available"@,
                0,
            )
        }),
{
    let none = Seq::<StageView>::empty();
    assert forall|stage: StageView| none.push(stage) =~= none + #[trigger] seq![stage] by {}
}

/// What the index file comes to: if it can be parsed the files are renamed, with
/// nothing reported; if not, a repair stage is tried where articles failed, and
/// otherwise the files are extracted as they are.
pub proof fn law_what_the_index_file_comes_to(
    job: JobView,
    run: PipelineView,
    verify: bool,
    error: Seq<char>,
    duration_nanos: u64,
)
    ensures
        pipeline_next(
            job,
            PipelineStepView::Parse { run, verify },
            PipelineEvent::Parsed { parsed: Ok(()), duration_nanos },
        ) == (PipelineStepView::Rename { run, verify }),
        ({
            let next = pipeline_next(
                job,
                PipelineStepView::Parse { run, verify },
                PipelineEvent::Parsed { parsed: Err(error), duration_nanos },
            );
            &&& next.run().ok == run.ok
            &&& verify ==> next is Repair && reported(
                run,
                next.run(),
                "Verify"@,
                StageStatus::Skipped,
                "PAR2 parse failed ("@ + error + "), attempting repair"@,
                duration_nanos,
            )
            &&& !verify ==> (next is Extract <==> run.ok) && reported(
                run,
                next.run(),
                "Verify"@,
                StageStatus::Skipped,
                "Skipped — zero article failures (PAR2 parse failed: "@ + error + ")"@,
                duration_nanos,
            )
        }),
{
    assert forall|stage: StageView| run.stages.push(stage) =~= run.stages + #[trigger] seq![
        stage,
    ] by {}
}

/// What a verification comes to: correct files are extracted; damage is told in
/// numbers, then what the repair says, and the files are extracted exactly if it
/// succeeded; a verification that broke off, and a repair that was given up, fail
/// the job.
pub proof fn law_what_a_verification_comes_to(
    job: JobView,
    run: PipelineView,
    intact_count: usize,
    damage: Damage,
    success: bool,
    message: Seq<char>,
    seconds: Seq<char>,
    duration_nanos: u64,
)
    requires
        run.ok,
    ensures
        ({
            let step = PipelineStepView::Verify(run);
            let verified = |outcome: VerifyOutcomeView|
                pipeline_next(
                    job,
                    step,
                    PipelineEvent::Verified { outcome, seconds, duration_nanos },
                );
            let told = StageView {
                name: "Verify"@,
                status: StageStatus::Success,
                message: Some(
                    decimal_text(damage.intact as nat) + " intact, "@ + decimal_text(
                        damage.damaged as nat,
                    ) + " damaged, "@ + decimal_text(damage.missing as nat) + " missing — "@
                        + decimal_text(damage.blocks_needed as nat)
                        + " blocks needed (native verify)"@,
                ),
                duration_nanos,
            };
            let correct = verified(VerifyOutcomeView::AllCorrect { intact_count });
            let ran = verified(
                VerifyOutcomeView::Damaged {
                    damage,
                    repair: RepairOutcomeView::Completed { success, message },
                },
            );
            let given_up = verified(
                VerifyOutcomeView::Damaged {
                    damage,
                    repair: RepairOutcomeView::Failed { error: message },
                },
            );
            let broke_off = pipeline_next(
                job,
                step,
                PipelineEvent::Panicked { error: message, duration_nanos },
            );
            &&& correct is Extract && correct.run().ok && reported(
                run,
                correct.run(),
                "Verify"@,
                StageStatus::Success,
                "All "@ + decimal_text(intact_count as nat) + " files correct (native verify, "@
                    + seconds + "s)"@,
                duration_nanos,
            )
            &&& ran.run().ok == success
            &&& ran is Extract <==> success
            &&& ran is Finish <==> !success
            &&& ran.run().archives == run.archives
            &&& ran.run().stages == run.stages + seq![
                told,
                StageView {
                    name: "Repair"@,
                    status: if success {
                        StageStatus::Success
                    } else {
                        StageStatus::Failed
                    },
                    message: Some(message),
                    duration_nanos,
                },
            ]
            &&& given_up is Finish && !given_up.run().ok
            &&& given_up.run().stages == run.stages + seq![
                told,
                StageView {
                    name: "Repair"@,
                    status: StageStatus::Failed,
                    message: Some("Repair failed: "@ + message),
                    duration_nanos,
                },
            ]
            &&& broke_off is Finish && !broke_off.run().ok && reported(
                run,
                broke_off.run(),
                "Verify"@,
                StageStatus::Failed,
                "Verify task panicked: "@ + message,
                duration_nanos,
            )
        }),
{
    assert forall|stage: StageView| run.stages.push(stage) =~= run.stages + #[trigger] seq![
        stage,
    ] by {}
    assert forall|a: StageView, b: StageView| run.stages.push(a).push(b) =~= run.stages
        + #[trigger] seq![a, b] by {}
}

/// What the other stages come to: the report of each is added as it is; a repair
/// that did not fail is followed by extraction, an extraction that did not fail by
/// cleanup of the output directory where that is wanted, with the archives that
/// were extracted, and a failure of either by nothing. Cleanup is the last stage,
/// and its failure fails the job too.
pub proof fn law_what_the_other_stages_come_to(
    job: JobView,
    run: PipelineView,
    result: StageView,
    archives: Seq<Seq<Seq<char>>>,
    source_dir: Seq<Seq<char>>,
    output_dir: Seq<Seq<char>>,
    max_depth: u8,
    password: Option<Seq<char>>,
    cleanup_root: Seq<Seq<char>>,
)
    requires
        run.ok,
    ensures
        ({
            let good = result.status != StageStatus::Failed;
            let repaired = pipeline_next(
                job,
                PipelineStepView::Repair(run),
                PipelineEvent::Repaired(result),
            );
            let extracted = pipeline_next(
                job,
                PipelineStepView::Extract { run, source_dir, output_dir, max_depth, password },
                PipelineEvent::Extracted { result, archives },
            );
            let cleaned = pipeline_next(
                job,
                PipelineStepView::Cleanup { run, cleanup_root },
                PipelineEvent::Cleaned(result),
            );
            let more = run.stages + seq![result];
            &&& repaired.run() == (PipelineView { stages: more, ok: good, archives: run.archives })
            &&& repaired is Extract <==> good
            &&& repaired is Finish <==> !good
            &&& extracted.run() == (PipelineView { stages: more, ok: good, archives })
            &&& good && job.cleanup_after_extract ==> extracted == (PipelineStepView::Cleanup {
                run: extracted.run(),
                cleanup_root: job.output_dir,
            })
            &&& !(good && job.cleanup_after_extract) ==> extracted is Finish
            &&& cleaned == PipelineStepView::Finish(
                PipelineView { stages: more, ok: good, archives: run.archives },
            )
        }),
{
    assert(run.stages.push(result) =~= run.stages + seq![result]);
}

/// No report is lost or changed: those so far are the first ones at the next step,
/// and an event that a step does not wait for changes nothing.
pub proof fn law_reports_are_kept(job: JobView, step: PipelineStepView, event: PipelineEvent)
    ensures
        ({
            let before = step.run().stages;
            let after = pipeline_next(job, step, event).run().stages;
            &&& before.len() <= after.len() <= before.len() + 2
            &&& after.subrange(0, before.len() as int) == before
        }),
        step is Finish ==> pipeline_next(job, step, event) == step,
{
    let before = step.run().stages;
    let after = pipeline_next(job, step, event).run().stages;
    assert(after.subrange(0, before.len() as int) =~= before);
}

/// What a pipeline reads of its configuration, field by field; without an output
/// directory it is the job's directory.
pub proof fn law_what_a_job_is_configured_with(job_dir: FilePath, config: PostProcConfig)
    ensures
        ({
            let job = job_view(job_dir, config);
            &&& job.job_dir == job_dir@
            &&& config.output_dir matches Some(dir) ==> job.output_dir == dir@
            &&& config.output_dir is None ==> job.output_dir == job_dir@
            &&& job.cleanup_after_extract == config.cleanup_after_extract
            &&& job.articles_failed == config.articles_failed
            &&& job.content_articles_failed == config.content_articles_failed
            &&& job.skip_extract == config.skip_extract
            &&& config.password matches Some(text) ==> job.password == Some(text@)
            &&& config.password is None ==> job.password is None
            &&& job.max_nested_archive_depth == config.max_nested_archive_depth
        }),
{
}

/// What a failed pipeline says: the messages of the stages that failed, in their
/// order, and of no others.
pub proof fn law_failures_are_told(a: Seq<StageView>, b: Seq<StageView>, stage: StageView)
    ensures
        failure_messages(a + b) == failure_messages(a) + failure_messages(b),
        failure_messages(Seq::empty()) == Seq::<Seq<char>>::empty(),
        stage.status != StageStatus::Failed ==> failure_messages(seq![stage]) == Seq::<
            Seq<char>,
        >::empty(),
        stage.message is None ==> failure_messages(seq![stage]) == Seq::<Seq<char>>::empty(),
        stage.status == StageStatus::Failed && stage.message is Some ==> failure_messages(
            seq![stage],
        ) == seq![stage.message->0],
    decreases b.len(),
{
    reveal_with_fuel(failure_messages, 2);
    assert(seq![stage].drop_last() =~= Seq::empty());
    if b.len() == 0 {
        assert(a + b =~= a);
        assert(failure_messages(a) + failure_messages(b) =~= failure_messages(a));
    } else {
        law_failures_are_told(a, b.drop_last(), stage);
        assert((a + b).drop_last() =~= a + b.drop_last());
        assert(failure_messages(a + b) =~= failure_messages(a) + failure_messages(b));
    }
}

/// A repair is asked for exactly if a file is damaged or missing, with all that
/// was found.
pub proof fn law_damage_asks_for_a_repair(report: VerifyReport)
    requires
        block_sum(report.damaged@) + block_sum(report.missing@) <= u32::MAX,
    ensures
        native_step(report) is Repair <==> report.damaged@.len() > 0 || report.missing@.len() > 0,
        native_step(report) matches VerifyStepView::Done(outcome) ==> outcome == (
        VerifyOutcomeView::AllCorrect { intact_count: report.intact }),
        native_step(report) matches VerifyStepView::Repair(damage) ==> {
            &&& damage.intact == report.intact
            &&& damage.damaged == report.damaged@.len()
            &&& damage.missing == report.missing@.len()
            &&& damage.blocks_needed == block_sum(report.damaged@) + block_sum(report.missing@)
            &&& damage.blocks_available == report.recovery_blocks_available
        },
{
}

/// What is counted: a verification that found all correct, a repair that
/// succeeded, and one that did not, however it ended; a repair stage as a success
/// unless it failed.
pub proof fn law_what_is_counted(
    intact_count: usize,
    damage: Damage,
    success: bool,
    message: Seq<char>,
    status: StageStatus,
)
    ensures
        counter_of(VerifyOutcomeView::AllCorrect { intact_count }) == Counter::VerifySuccess,
        counter_of(
            VerifyOutcomeView::Damaged {
                damage,
                repair: RepairOutcomeView::Completed { success, message },
            },
        ) == if success {
            Counter::RepairSuccess
        } else {
            Counter::RepairFailure
        },
        counter_of(
            VerifyOutcomeView::Damaged {
                damage,
                repair: RepairOutcomeView::Failed { error: message },
            },
        ) == Counter::RepairFailure,
        counter_of_stage(status) == Counter::RepairFailure <==> status == StageStatus::Failed,
        counter_of_stage(status) != Counter::VerifySuccess,
        Counter::VerifySuccess.text() == "par2.verify_success"@,
        Counter::RepairSuccess.text() == "par2.repair_success"@,
        Counter::RepairFailure.text() == "par2.repair_failure"@,
{
}

/// There is an error exactly if the pipeline failed, and the message of every stage
/// that failed stands in it.
pub proof fn law_the_error_tells_every_failure(run: PipelineView, at: int)
    ensures
        error_text(run) is None <==> run.ok,
        !run.ok && 0 <= at < run.stages.len() && run.stages[at].status == StageStatus::Failed
            && run.stages[at].message is Some ==> occurs_in(
            error_text(run)->0,
            run.stages[at].message->0,
        ),
        error_text(run) matches Some(text) ==> text == joined(failure_messages(run.stages), "; "@),
{
    if 0 <= at < run.stages.len() && run.stages[at].status == StageStatus::Failed
        && run.stages[at].message is Some {
        let before = run.stages.subrange(0, at);
        let after = run.stages.subrange(at + 1, run.stages.len() as int);
        let stage = run.stages[at];
        let text = stage.message->0;
        assert(run.stages =~= before + seq![stage] + after);
        law_failures_are_told(before + seq![stage], after, stage);
        law_failures_are_told(before, seq![stage], stage);
        lemma_joined_holds(failure_messages(before), text, failure_messages(after), "; "@);
    }
}

/// Each of the texts that are joined stands in the whole.
proof fn lemma_joined_holds(
    before: Seq<Seq<char>>,
    text: Seq<char>,
    after: Seq<Seq<char>>,
    separator: Seq<char>,
)
    ensures
        occurs_in(joined(before + seq![text] + after, separator), text),
{
    let all = joined(before + seq![text] + after, separator);
    let middle = before + seq![text];
    let none = Seq::<char>::empty();
    let head = if before.len() > 0 {
        joined(before, separator) + separator
    } else {
        none
    };
    let tail = if after.len() > 0 {
        separator + joined(after, separator)
    } else {
        none
    };
    assert(joined(middle, separator) =~= head + text) by {
        if before.len() > 0 {
            law_joining_is_putting_between(text, before, seq![text], separator);
        } else {
            assert(middle =~= seq![text]);
        }
    }
    assert(all =~= head + text + tail) by {
        if after.len() > 0 {
            law_joining_is_putting_between(text, middle, after, separator);
        } else {
            assert(middle + after =~= middle);
        }
    }
    law_occurring_is_standing_between(all, text);
    assert((head + text + tail) == all);
}

} // verus!

use nzb_postproc::cleanup::{cleanup_result, Removal};
use nzb_postproc::extract::{Archive, ExtractRun, ExtractStep};
use nzb_postproc::par2::{repair_stage_result, Damage, RepairOutcome, VerifyReport};
use nzb_postproc::path::FilePath;
use nzb_postproc::pipeline::{
    after_native_verify, repair_counter, verify_counter, Counter, PipelineRun, PipelineStep,
    VerifyRepairOutcome, VerifyStep,
};
use nzb_postproc::resources::WorkStage;
use nzb_postproc::stage::{stage_result, StageResult, StageStatus};
use nzb_postproc::{PostProcConfig, PostProcResult};

fn path(parts: &[&str]) -> FilePath {
    FilePath::from_parts(parts.iter().map(|part| part.to_string()).collect()).unwrap()
}

/// What the steps of a job come to.
struct Job {
    par2_files: usize,
    parsed: Result<(), String>,
    outcome: fn() -> Result<VerifyRepairOutcome, String>,
    repair: fn() -> StageResult,
    extract: fn(FilePath, FilePath) -> (StageResult, Vec<FilePath>),
    removals: Vec<Removal>,
    /// The steps that were taken.
    steps: Vec<&'static str>,
    /// The workers that were held during them.
    workers: Vec<Option<WorkStage>>,
}

/// An extract stage that finds no archive.
fn nothing_to_extract(source: FilePath, output: FilePath) -> (StageResult, Vec<FilePath>) {
    let none: fn() -> Vec<Archive> = Vec::new;
    let mut step = ExtractRun::start(source, output, 5);
    loop {
        step = match step {
            ExtractStep::ListOutput(run) => run.output_listed(Vec::new()),
            ExtractStep::Scan { run, depth } => run.scanned(depth, none()),
            ExtractStep::FinalScan { run, .. } => run.left_over(&Vec::new()),
            ExtractStep::Finish(run) => return run.report(4),
            other => panic!("{other:?}"),
        };
    }
}

fn extract_ok(source: FilePath, _: FilePath) -> (StageResult, Vec<FilePath>) {
    (
        stage_result(
            "Extract",
            StageStatus::Success,
            "depth 0 RAR: OK".to_string(),
            4,
        ),
        vec![source],
    )
}

fn extract_bad(_: FilePath, _: FilePath) -> (StageResult, Vec<FilePath>) {
    (
        stage_result(
            "Extract",
            StageStatus::Failed,
            "depth 0 RAR: failed".to_string(),
            4,
        ),
        Vec::new(),
    )
}

impl Job {
    fn new(par2_files: usize) -> Job {
        Job {
            par2_files,
            parsed: Ok(()),
            outcome: || Ok(VerifyRepairOutcome::AllCorrect { intact_count: 3 }),
            repair: || repair_stage_result(None, 3),
            extract: nothing_to_extract,
            removals: Vec::new(),
            steps: Vec::new(),
            workers: Vec::new(),
        }
    }

    fn run(&mut self, config: &PostProcConfig) -> PostProcResult {
        let dir = path(&["/", "job"]);
        let mut step = PipelineRun::start(&dir, config, self.par2_files);
        loop {
            self.workers.push(step.worker());
            step = match step {
                PipelineStep::Parse { run, verify } => {
                    self.steps.push("parse");
                    run.index_parsed(&dir, config, verify, self.parsed.clone(), 1)
                }
                PipelineStep::Rename { run, verify } => {
                    self.steps.push("rename");
                    run.renamed(&dir, config, verify, 1)
                }
                PipelineStep::Verify(run) => {
                    self.steps.push("verify");
                    match (self.outcome)() {
                        Ok(outcome) => run.verified(&dir, config, outcome, "0.250", 2),
                        Err(error) => run.verify_panicked(&dir, config, &error, 2),
                    }
                }
                PipelineStep::Repair(run) => {
                    self.steps.push("repair");
                    run.repaired(&dir, config, (self.repair)())
                }
                PipelineStep::Extract {
                    run,
                    source_dir,
                    output_dir,
                    ..
                } => {
                    self.steps.push("extract");
                    let (result, archives) = (self.extract)(source_dir, output_dir);
                    run.extracted(&dir, config, result, archives)
                }
                PipelineStep::Cleanup { run, .. } => {
                    self.steps.push("cleanup");
                    run.cleaned(cleanup_result(&self.removals, 5))
                }
                PipelineStep::Finish(run) => return run.finish(),
            };
        }
    }
}

fn names(result: &PostProcResult) -> Vec<&str> {
    result.stages.iter().map(|s| s.name.as_str()).collect()
}

fn message(result: &PostProcResult, at: usize) -> &str {
    result.stages[at].message.as_deref().unwrap_or("")
}

fn no_cleanup() -> PostProcConfig {
    PostProcConfig {
        cleanup_after_extract: false,
        ..PostProcConfig::default()
    }
}

fn failures(articles_failed: usize) -> PostProcConfig {
    PostProcConfig {
        articles_failed,
        ..no_cleanup()
    }
}

fn damaged(repair: RepairOutcome) -> VerifyRepairOutcome {
    VerifyRepairOutcome::Damaged {
        damage: Damage {
            intact: 4,
            damaged: 2,
            missing: 1,
            blocks_needed: 17,
            blocks_available: 20,
        },
        repair,
    }
}

#[test]
fn test_post_proc_result_default() {
    let result = PostProcResult {
        success: true,
        stages: vec![],
        error: None,
    };
    assert!(result.success);
    assert!(result.stages.is_empty());
    assert!(result.error.is_none());
}

#[test]
fn test_config_default() {
    let config = PostProcConfig::default();
    assert!(config.cleanup_after_extract);
    assert!(config.output_dir.is_none());
    assert_eq!(config.articles_failed, 0);
}

#[test]
fn the_rest_of_the_default_configuration() {
    let config = PostProcConfig::default().clone();
    assert_eq!(config.content_articles_failed, 0);
    assert!(!config.skip_extract);
    assert!(config.password.is_none());
    assert_eq!(config.max_nested_archive_depth, 5);
}

#[test]
fn test_pipeline_no_files() {
    let result = Job::new(0).run(&PostProcConfig::default());
    assert!(result.success, "Pipeline should succeed for empty dir");

    let verify_stage = result.stages.iter().find(|s| s.name == "Verify");
    assert!(verify_stage.is_some(), "Verify stage should be present");
    assert_eq!(verify_stage.unwrap().status, StageStatus::Skipped);

    let extract_stage = result.stages.iter().find(|s| s.name == "Extract");
    assert!(extract_stage.is_some(), "Extract stage should be present");
    assert_eq!(extract_stage.unwrap().status, StageStatus::Skipped);
    assert_eq!(message(&result, 0), "No par2 files found");
    assert_eq!(result.stages[0].duration_nanos, 0);
}

#[test]
fn test_pipeline_only_text_files() {
    let result = Job::new(0).run(&PostProcConfig::default());
    assert!(result.success);
    assert_eq!(names(&result), ["Verify", "Extract", "Cleanup"]);
    for stage in &result.stages {
        assert_eq!(
            stage.status,
            StageStatus::Skipped,
            "Stage '{}' should be skipped",
            stage.name
        );
    }
}

#[test]
fn test_pipeline_stage_order() {
    let result = Job::new(0).run(&no_cleanup());
    let stage_names = names(&result);
    assert!(stage_names.contains(&"Verify"), "Should have Verify stage");
    assert!(
        stage_names.contains(&"Extract"),
        "Should have Extract stage"
    );
    let verify_idx = stage_names.iter().position(|&n| n == "Verify").unwrap();
    let extract_idx = stage_names.iter().position(|&n| n == "Extract").unwrap();
    assert!(
        verify_idx < extract_idx,
        "Verify ({verify_idx}) should come before Extract ({extract_idx})"
    );
}

#[test]
fn test_pipeline_skips_verify_with_zero_failures() {
    for parsed in [Ok(()), Err("no main packet".to_string())] {
        let mut job = Job::new(2);
        job.parsed = parsed;
        let result = job.run(&no_cleanup());
        assert!(result.success);

        let verify_stage = result.stages.iter().find(|s| s.name == "Verify").unwrap();
        assert_eq!(
            verify_stage.status,
            StageStatus::Skipped,
            "Verify should be skipped when articles_failed == 0"
        );
        assert!(
            verify_stage
                .message
                .as_deref()
                .unwrap_or("")
                .contains("zero article failures"),
            "Skip message should indicate zero failures"
        );
    }
}

#[test]
fn test_pipeline_no_par2_with_content_failures_is_terminal() {
    let config = PostProcConfig {
        cleanup_after_extract: false,
        articles_failed: 5,
        content_articles_failed: 5,
        ..PostProcConfig::default()
    };
    let mut job = Job::new(0);
    let result = job.run(&config);
    assert!(!result.success);

    let verify_stage = result.stages.iter().find(|s| s.name == "Verify").unwrap();
    assert_eq!(
        verify_stage.status,
        StageStatus::Failed,
        "No-PAR content damage is unrecoverable"
    );
    assert!(
        verify_stage
            .message
            .as_deref()
            .unwrap_or("")
            .contains("no PAR2 recovery set"),
        "Failure should explain that recovery data is unavailable"
    );
    assert!(result.stages.iter().all(|stage| stage.name != "Extract"));
    assert!(job.steps.is_empty());
    assert_eq!(
        result.error.as_deref(),
        Some("5 content article(s) missing and no PAR2 recovery set is available")
    );
}

#[test]
fn test_pipeline_runs_verify_then_repair_when_failures() {
    let mut job = Job::new(2);
    job.parsed = Err("no main packet".to_string());
    let result = job.run(&failures(3));

    let stage_names = names(&result);
    assert!(
        stage_names.contains(&"Verify"),
        "Should have Verify stage (native par2), got: {stage_names:?}"
    );
    assert!(
        stage_names.contains(&"Repair"),
        "Should have Repair stage when articles_failed > 0, got: {stage_names:?}"
    );
    assert_eq!(
        message(&result, 0),
        "PAR2 parse failed (no main packet), attempting repair"
    );
}

#[test]
fn cleanup_after_success_takes_the_nested_archives() {
    let config = PostProcConfig {
        output_dir: Some(path(&["/", "out"])),
        ..PostProcConfig::default()
    };
    let dir = path(&["/", "job"]);
    let step = PipelineRun::start(&dir, &config, 0);
    let step = match step {
        PipelineStep::Extract {
            run,
            source_dir,
            output_dir,
            ..
        } => {
            assert!(source_dir.same_as(&dir));
            assert!(output_dir.same_as(&path(&["/", "out"])));
            let (result, _) = extract_ok(source_dir, output_dir);
            let archives = vec![
                path(&["/", "job", "outer.zip"]),
                path(&["/", "out", "inner.zip"]),
            ];
            run.extracted(&dir, &config, result, archives)
        }
        other => panic!("{other:?}"),
    };
    match step {
        PipelineStep::Cleanup { run, cleanup_root } => {
            assert!(cleanup_root.same_as(&path(&["/", "out"])));
            assert_eq!(run.archives.len(), 2);
            assert!(run.archives[1].same_as(&path(&["/", "out", "inner.zip"])));
        }
        other => panic!("{other:?}"),
    }
}

#[test]
fn direct_unpack_turns_the_output_into_the_source() {
    let config = PostProcConfig {
        output_dir: Some(path(&["/", "out"])),
        skip_extract: true,
        ..PostProcConfig::default()
    };
    match PipelineRun::start(&path(&["/", "job"]), &config, 0) {
        PipelineStep::Extract {
            source_dir,
            output_dir,
            ..
        } => {
            assert!(source_dir.same_as(&output_dir));
            assert!(output_dir.same_as(&path(&["/", "out"])));
        }
        other => panic!("{other:?}"),
    }
}

#[test]
fn names_are_restored_whether_or_not_an_article_failed() {
    let mut healthy = Job::new(1);
    let result = healthy.run(&no_cleanup());
    assert_eq!(healthy.steps, ["parse", "rename", "extract"]);
    assert_eq!(
        message(&result, 0),
        "Skipped — zero article failures (PAR2-guided rename applied)"
    );
    let mut failing = Job::new(1);
    failing.run(&failures(1));
    assert_eq!(failing.steps, ["parse", "rename", "verify", "extract"]);
    let mut unreadable = Job::new(1);
    unreadable.parsed = Err("bad magic".to_string());
    let result = unreadable.run(&no_cleanup());
    assert_eq!(unreadable.steps, ["parse", "extract"]);
    assert_eq!(
        message(&result, 0),
        "Skipped — zero article failures (PAR2 parse failed: bad magic)"
    );
}

#[test]
fn correct_files_are_counted() {
    let result = Job::new(1).run(&failures(1));
    assert!(result.success);
    assert_eq!(names(&result), ["Verify", "Extract"]);
    assert_eq!(result.stages[0].status, StageStatus::Success);
    assert_eq!(
        message(&result, 0),
        "All 3 files correct (native verify, 0.250s)"
    );
    assert_eq!(result.stages[0].duration_nanos, 2);
}

#[test]
fn repaired_damage_goes_on_to_extraction() {
    let mut job = Job::new(1);
    job.extract = extract_ok;
    job.outcome = || {
        Ok(damaged(RepairOutcome::Completed {
            success: true,
            message: "Repaired 3 files".to_string(),
        }))
    };
    let result = job.run(&failures(1));
    assert!(result.success);
    assert!(result.error.is_none());
    assert_eq!(names(&result), ["Verify", "Repair", "Extract"]);
    assert_eq!(
        message(&result, 0),
        "4 intact, 2 damaged, 1 missing — 17 blocks needed (native verify)"
    );
    assert_eq!(result.stages[1].status, StageStatus::Success);
    assert_eq!(message(&result, 1), "Repaired 3 files");
}

#[test]
fn unrepaired_damage_is_never_extracted() {
    let outcomes: [(fn() -> Result<VerifyRepairOutcome, String>, &str); 3] = [
        (
            || {
                Ok(damaged(RepairOutcome::Completed {
                    success: false,
                    message: "not enough blocks".to_string(),
                }))
            },
            "not enough blocks",
        ),
        (
            || {
                Ok(damaged(RepairOutcome::Failed {
                    error: "disk full".to_string(),
                }))
            },
            "Repair failed: disk full",
        ),
        (
            || Err("task 3 panicked".to_string()),
            "Verify task panicked: task 3 panicked",
        ),
    ];
    for (outcome, error) in outcomes {
        let mut job = Job::new(1);
        job.outcome = outcome;
        job.extract = extract_ok;
        let config = PostProcConfig {
            articles_failed: 1,
            ..PostProcConfig::default()
        };
        let result = job.run(&config);
        assert!(!result.success);
        assert_eq!(result.error.as_deref(), Some(error));
        assert_eq!(job.steps, ["parse", "rename", "verify"]);
        assert_eq!(result.stages.last().unwrap().status, StageStatus::Failed);
    }
}

#[test]
fn a_failed_repair_stage_ends_the_job() {
    let mut job = Job::new(1);
    job.parsed = Err("x".to_string());
    job.repair = || repair_stage_result(Some(Err("y".to_string())), 3);
    let result = job.run(&failures(2));
    assert_eq!(job.steps, ["parse", "repair"]);
    assert_eq!(names(&result), ["Verify", "Repair"]);
    assert_eq!(result.error.as_deref(), Some("par2 repair error: y"));
}

#[test]
fn a_failed_extraction_keeps_the_files() {
    let mut job = Job::new(0);
    job.extract = extract_bad;
    let result = job.run(&PostProcConfig::default());
    assert!(!result.success);
    assert_eq!(names(&result), ["Verify", "Extract"]);
    assert_eq!(result.error.as_deref(), Some("depth 0 RAR: failed"));
}

#[test]
fn a_failed_cleanup_fails_the_job() {
    let mut job = Job::new(0);
    job.extract = extract_ok;
    job.removals = vec![Removal::Removed, Removal::Failed];
    let result = job.run(&PostProcConfig::default());
    assert!(!result.success);
    assert_eq!(result.error.as_deref(), Some("Removed 1 files, 1 errors"));
    assert_eq!(names(&result), ["Verify", "Extract", "Cleanup"]);
    assert_eq!(result.stages[2].status, StageStatus::Failed);

    job.removals = vec![Removal::Removed];
    let result = job.run(&PostProcConfig::default());
    assert!(result.success);
    assert!(result.error.is_none());
    assert_eq!(result.stages[2].status, StageStatus::Success);
}

#[test]
fn extraction_follows_the_configuration() {
    let config = PostProcConfig {
        password: Some("secret".to_string()),
        max_nested_archive_depth: 2,
        ..PostProcConfig::default()
    };
    match PipelineRun::start(&path(&["/", "job"]), &config, 0) {
        PipelineStep::Extract {
            source_dir,
            output_dir,
            max_depth,
            password,
            ..
        } => {
            assert!(source_dir.same_as(&path(&["/", "job"])));
            assert!(output_dir.same_as(&source_dir));
            assert_eq!(max_depth, 2);
            assert_eq!(password.as_deref(), Some("secret"));
        }
        other => panic!("{other:?}"),
    }
    match PipelineRun::start(&path(&["/", "job"]), &PostProcConfig::default(), 0) {
        PipelineStep::Extract {
            max_depth,
            password,
            ..
        } => {
            assert_eq!(max_depth, 5);
            assert!(password.is_none());
        }
        other => panic!("{other:?}"),
    }
}

#[test]
fn a_verification_asks_for_a_repair_only_of_damage() {
    let report = |damaged: &[u32], missing: &[u32]| VerifyReport {
        intact: 3,
        damaged: damaged.to_vec(),
        missing: missing.to_vec(),
        recovery_blocks_available: 2,
    };
    match after_native_verify(&report(&[], &[])) {
        VerifyStep::Done(VerifyRepairOutcome::AllCorrect { intact_count }) => {
            assert_eq!(intact_count, 3)
        }
        other => panic!("{other:?}"),
    }
    match after_native_verify(&report(&[4], &[5])) {
        VerifyStep::Repair(damage) => {
            assert_eq!(
                damage,
                Damage {
                    intact: 3,
                    damaged: 1,
                    missing: 1,
                    blocks_needed: 9,
                    blocks_available: 2,
                }
            );
        }
        other => panic!("{other:?}"),
    }
}

#[test]
fn counters_tell_how_verification_and_repair_ended() {
    let name = |outcome: &VerifyRepairOutcome| verify_counter(outcome).name();
    assert_eq!(
        name(&VerifyRepairOutcome::AllCorrect { intact_count: 1 }),
        "par2.verify_success"
    );
    let completed = |success| {
        damaged(RepairOutcome::Completed {
            success,
            message: String::new(),
        })
    };
    assert_eq!(name(&completed(true)), "par2.repair_success");
    assert_eq!(name(&completed(false)), "par2.repair_failure");
    let failed = damaged(RepairOutcome::Failed {
        error: String::new(),
    });
    assert_eq!(name(&failed), "par2.repair_failure");
    assert_eq!(repair_counter(StageStatus::Failed), Counter::RepairFailure);
    assert_eq!(repair_counter(StageStatus::Success), Counter::RepairSuccess);
    assert_eq!(repair_counter(StageStatus::Skipped), Counter::RepairSuccess);
}

#[test]
fn workers_are_held_where_they_work() {
    let repair = Some(WorkStage::Repair);
    let extract = Some(WorkStage::Extract);

    let mut failing = Job::new(1);
    failing.run(&failures(1));
    assert_eq!(failing.steps, ["parse", "rename", "verify", "extract"]);
    assert_eq!(failing.workers, [repair, repair, repair, extract, None]);

    let mut unreadable = Job::new(1);
    unreadable.parsed = Err("x".to_string());
    unreadable.run(&failures(1));
    assert_eq!(unreadable.steps, ["parse", "repair", "extract"]);
    assert_eq!(unreadable.workers, [repair, repair, extract, None]);

    let mut healthy = Job::new(1);
    healthy.run(&PostProcConfig::default());
    assert_eq!(healthy.steps, ["parse", "rename", "extract", "cleanup"]);
    assert_eq!(healthy.workers, [None, None, extract, None, None]);

    let mut bare = Job::new(0);
    bare.run(&failures(1));
    assert_eq!(bare.workers, [extract, None]);
}

use nzb_postproc::par2::{
    after_repair, after_verify, damage_of, parse_failure, repair_stage_result, Damage, Par2Result,
    Par2Step, RepairOutcome, VerifyReport,
};
use nzb_postproc::recovery_can_cover;
use nzb_postproc::stage::StageStatus;

fn report(intact: usize, damaged: &[u32], missing: &[u32], available: u32) -> VerifyReport {
    VerifyReport {
        intact,
        damaged: damaged.to_vec(),
        missing: missing.to_vec(),
        recovery_blocks_available: available,
    }
}

#[test]
fn test_par2_result_fields() {
    let result = Par2Result {
        success: true,
        blocks_needed: 0,
        blocks_available: 10,
        repaired: false,
        message: "All files correct".to_string(),
    };
    assert!(result.success);
    assert!(!result.repaired);
    assert_eq!(result.blocks_needed, 0);
    assert_eq!(result.blocks_available, 10);
}

#[test]
fn repair_succeeds_when_recovery_covers_damage() {
    assert!(recovery_can_cover(10, 10));
    assert!(recovery_can_cover(2, 671));
}

#[test]
fn repair_fails_when_recovery_is_insufficient() {
    assert!(!recovery_can_cover(207, 71));
    assert!(!recovery_can_cover(1, 0));
}

#[test]
fn intact_files_need_no_repair() {
    match after_verify(&report(3, &[], &[], 12)) {
        Par2Step::Done(result) => {
            assert!(result.success);
            assert!(!result.repaired);
            assert_eq!(result.blocks_needed, 0);
            assert_eq!(result.blocks_available, 12);
            assert_eq!(result.message, "All files correct");
        }
        other => panic!("{other:?}"),
    }
    assert!(damage_of(&report(3, &[], &[], 12)).is_none());
}

#[test]
fn damage_beyond_the_recovery_blocks_is_not_repaired() {
    match after_verify(&report(1, &[3, 4], &[200], 71)) {
        Par2Step::Done(result) => {
            assert!(!result.success);
            assert!(!result.repaired);
            assert_eq!(result.blocks_needed, 207);
            assert_eq!(result.blocks_available, 71);
            assert_eq!(
                result.message,
                "Insufficient recovery data: need 207 blocks, have 71"
            );
        }
        other => panic!("{other:?}"),
    }
}

#[test]
fn damage_that_is_covered_is_repaired() {
    match after_verify(&report(5, &[1, 2], &[4], 7)) {
        Par2Step::Repair(damage) => {
            assert_eq!(
                damage,
                Damage {
                    intact: 5,
                    damaged: 2,
                    missing: 1,
                    blocks_needed: 7,
                    blocks_available: 7,
                }
            );
        }
        other => panic!("{other:?}"),
    }
}

#[test]
fn a_missing_file_without_blocks_is_still_damage() {
    let damage = damage_of(&report(0, &[], &[0], 0)).unwrap();
    assert_eq!(damage.missing, 1);
    assert_eq!(damage.blocks_needed, 0);
}

#[test]
fn the_outcome_of_a_repair_is_told() {
    let damage = damage_of(&report(5, &[1, 2], &[], 7)).unwrap();
    let done = after_repair(
        damage,
        RepairOutcome::Completed {
            success: true,
            message: "repaired".to_string(),
        },
    );
    assert!(done.success && done.repaired);
    assert_eq!(done.message, "repaired");
    assert_eq!((done.blocks_needed, done.blocks_available), (3, 7));

    let incomplete = after_repair(
        damage,
        RepairOutcome::Completed {
            success: false,
            message: "still damaged".to_string(),
        },
    );
    assert!(!incomplete.success && !incomplete.repaired);

    let failed = after_repair(
        damage,
        RepairOutcome::Failed {
            error: "singular matrix".to_string(),
        },
    );
    assert!(!failed.success && !failed.repaired);
    assert_eq!(failed.message, "singular matrix");
}

#[test]
fn a_repair_stage_of_its_own_reports() {
    let skipped = repair_stage_result(None, 5);
    assert_eq!(skipped.name, "Repair");
    assert_eq!(skipped.status, StageStatus::Skipped);
    assert_eq!(skipped.message.as_deref(), Some("No par2 files found"));
    assert_eq!(skipped.duration_nanos, 5);

    let failed = repair_stage_result(Some(Err(parse_failure("no main packet"))), 6);
    assert_eq!(failed.status, StageStatus::Failed);
    assert_eq!(
        failed.message.as_deref(),
        Some("par2 repair error: PAR2 parse: no main packet")
    );

    let result = |success: bool, repaired: bool| Par2Result {
        success,
        blocks_needed: 1,
        blocks_available: 1,
        repaired,
        message: "told".to_string(),
    };
    let status = |success: bool, repaired: bool| {
        repair_stage_result(Some(Ok(result(success, repaired))), 0).status
    };
    assert_eq!(status(true, false), StageStatus::Success);
    assert_eq!(status(false, true), StageStatus::Success);
    assert_eq!(status(false, false), StageStatus::Failed);
}

use nzb_postproc::resources::PostProcPermit;
use nzb_postproc::{PostProcLimits, PostProcResourcePool, PostProcResourceSnapshot};

#[test]
fn different_stages_can_overlap_but_same_stage_respects_its_limit() {
    let mut pool = PostProcResourcePool::new(PostProcLimits {
        pipelines: 2,
        repair: 1,
        extract: 1,
    });
    let _pipeline_a = pool.acquire_pipeline().unwrap();
    let _pipeline_b = pool.acquire_pipeline().unwrap();
    let repair_a = pool.acquire_repair().unwrap();
    let _extract_b = pool.acquire_extract().unwrap();

    let overlap = pool.snapshot();
    assert_eq!(overlap.active_pipelines, 2);
    assert_eq!(overlap.active_repairs, 1);
    assert_eq!(overlap.active_extractions, 1);

    assert!(
        pool.acquire_repair().is_none(),
        "a second repair must wait for the configured repair worker"
    );

    pool.release(repair_a);
    let repair_b = pool
        .acquire_repair()
        .expect("waiting repair should be admitted");
    pool.release(repair_b);

    let snapshot = pool.snapshot();
    assert_eq!(snapshot.peak_pipelines, 2);
    assert_eq!(snapshot.peak_repairs, 1);
    assert_eq!(snapshot.peak_extractions, 1);
}

#[test]
fn zero_limits_are_safely_normalized_to_one_worker() {
    let pool = PostProcResourcePool::new(PostProcLimits {
        pipelines: 0,
        repair: 0,
        extract: 0,
    });
    assert_eq!(
        pool.limits(),
        PostProcLimits {
            pipelines: 1,
            repair: 1,
            extract: 1,
        }
    );
}

#[test]
fn stress_many_jobs_never_exceeds_stage_worker_limits() {
    let mut pool = PostProcResourcePool::new(PostProcLimits {
        pipelines: 3,
        repair: 2,
        extract: 1,
    });
    let mut jobs: Vec<(u32, u32, Vec<PostProcPermit>)> =
        (0..24).map(|index| (index, 0, Vec::new())).collect();
    while !jobs.is_empty() {
        let mut left = Vec::new();
        for (index, step, mut permits) in jobs {
            let admitted = match step {
                0 => pool.acquire_pipeline(),
                1 if index % 2 == 0 => pool.acquire_repair(),
                1 => {
                    left.push((index, 2, permits));
                    continue;
                }
                2 => pool.acquire_extract(),
                _ => {
                    for permit in permits {
                        pool.release(permit);
                    }
                    continue;
                }
            };
            match admitted {
                Some(permit) => {
                    permits.push(permit);
                    left.push((index, step + 1, permits));
                }
                None => left.push((index, step, permits)),
            }
        }
        jobs = left;
    }

    let snapshot = pool.snapshot();
    assert_eq!(snapshot.peak_pipelines, 3);
    assert!(snapshot.peak_repairs <= 2, "{snapshot:?}");
    assert_eq!(snapshot.peak_extractions, 1);
    assert_eq!(snapshot.active_pipelines, 0);
    assert_eq!(snapshot.active_repairs, 0);
    assert_eq!(snapshot.active_extractions, 0);
}

#[test]
fn the_default_admits_two_jobs_and_one_worker_each() {
    assert_eq!(
        PostProcLimits::default(),
        PostProcLimits {
            pipelines: 2,
            repair: 1,
            extract: 1,
        }
    );
    let pool = PostProcResourcePool::new(PostProcLimits::default());
    assert_eq!(pool.snapshot(), PostProcResourceSnapshot::default());
}

#[test]
fn a_full_stage_holds_nobody_else_back() {
    let mut pool = PostProcResourcePool::new(PostProcLimits::default());
    let extract = pool.acquire_extract().unwrap();
    let before = pool.snapshot();
    assert!(pool.acquire_extract().is_none());
    assert_eq!(pool.snapshot(), before);
    assert!(pool.acquire_repair().is_some());
    pool.release(extract);
    assert_eq!(pool.snapshot().active_extractions, 0);
    assert_eq!(pool.snapshot().active_repairs, 1);
    assert_eq!(pool.snapshot().peak_extractions, 1);
}

#[test]
fn the_active_count_is_that_of_the_permits_alive() {
    let mut pool = PostProcResourcePool::new(PostProcLimits {
        pipelines: 3,
        repair: 0,
        extract: 2,
    });
    let mut alive = Vec::new();
    for round in 0..4usize {
        if let Some(permit) = pool.acquire_pipeline() {
            alive.push(permit);
        }
        assert_eq!(alive.len(), (round + 1).min(3));
        assert_eq!(pool.snapshot().active_pipelines, alive.len());
        assert_eq!(pool.snapshot().peak_pipelines, alive.len());
    }
    while let Some(permit) = alive.pop() {
        pool.release(permit);
        assert_eq!(pool.snapshot().active_pipelines, alive.len());
        assert_eq!(pool.snapshot().peak_pipelines, 3);
    }
    assert_eq!(pool.snapshot().active_repairs, 0);
    assert_eq!(pool.snapshot().active_extractions, 0);
}

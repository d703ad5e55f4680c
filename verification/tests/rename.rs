use md5::{Digest, Md5};
use nzb_postproc::path::FilePath;
use nzb_postproc::pipeline::{PipelineRun, PipelineStep, PostProcConfig};
use nzb_postproc::rename::{is_par2_lowercase, is_par2_name, ExpectedFile, RenamePlan};

/// The MD5 of the first 16 KiB.
fn hash_16k(contents: &[u8]) -> u128 {
    let head = &contents[..contents.len().min(16384)];
    let digest: [u8; 16] = Md5::digest(head).into();
    u128::from_be_bytes(digest)
}

fn expected(files: &[(&str, &[u8])]) -> Vec<ExpectedFile> {
    files
        .iter()
        .map(|(name, contents)| ExpectedFile {
            hash_16k: hash_16k(contents),
            filename: name.to_string(),
        })
        .collect()
}

/// A directory: names and contents.
type Dir = Vec<(String, Vec<u8>)>;

fn dir(files: &[(&str, &[u8])]) -> Dir {
    files
        .iter()
        .map(|(name, contents)| (name.to_string(), contents.to_vec()))
        .collect()
}

fn is_there(dir: &Dir, name: &str) -> bool {
    dir.iter().any(|(n, _)| n == name)
}

fn names(dir: &Dir) -> Vec<String> {
    let mut names: Vec<String> = dir.iter().map(|(name, _)| name.clone()).collect();
    names.sort();
    names
}

/// One renaming pass over a directory.
fn rename_to_par2_names(files: Vec<ExpectedFile>, dir: &mut Dir) {
    let present: Vec<bool> = files.iter().map(|f| is_there(dir, &f.filename)).collect();
    let Some(plan) = RenamePlan::new(files, &present) else {
        return;
    };
    for i in 0..dir.len() {
        let (current, contents) = dir[i].clone();
        if !plan.wants_hash(true, Some(&current)) {
            continue;
        }
        if let Some(target) = plan.target(&current, Some(hash_16k(&contents))) {
            let taken = is_there(dir, target.as_str());
            if let Some(name) = target.confirm(taken) {
                dir[i].0 = name;
            }
        }
    }
}

#[test]
fn test_rename_to_par2_names_renames_mismatched() {
    let content_a = b"AAAA test data for part01";
    let content_b = b"BBBB test data for part02";
    let mut job = dir(&[
        ("Movie.Name.part01.rar", content_a),
        ("Movie.Name.part02.rar", content_b),
    ]);
    let files = expected(&[
        ("xY7kQ3.part01.rar", content_a),
        ("xY7kQ3.part02.rar", content_b),
    ]);

    rename_to_par2_names(files, &mut job);

    assert!(is_there(&job, "xY7kQ3.part01.rar"));
    assert!(is_there(&job, "xY7kQ3.part02.rar"));
    assert!(!is_there(&job, "Movie.Name.part01.rar"));
    assert!(!is_there(&job, "Movie.Name.part02.rar"));
}

#[test]
fn test_rename_to_par2_names_skips_when_already_correct() {
    let content = b"test data already correct";
    let mut job = dir(&[("xY7kQ3.part01.rar", content)]);

    rename_to_par2_names(expected(&[("xY7kQ3.part01.rar", content)]), &mut job);

    assert!(is_there(&job, "xY7kQ3.part01.rar"));
}

#[test]
fn test_rename_to_par2_names_skips_par2_files() {
    let content = b"par2 file content";
    let mut job = dir(&[
        ("Movie.Name.par2", content),
        ("Movie.Name.part01.rar", b"rar data"),
    ]);

    rename_to_par2_names(expected(&[("obfuscated.par2", content)]), &mut job);

    assert!(
        is_there(&job, "Movie.Name.par2"),
        "PAR2 files should be skipped"
    );
}

#[test]
fn test_rename_to_par2_names_no_match() {
    let mut job = dir(&[("Movie.Name.part01.rar", b"unrelated data")]);

    rename_to_par2_names(
        expected(&[("xY7kQ3.part01.rar", b"different data")]),
        &mut job,
    );

    assert!(is_there(&job, "Movie.Name.part01.rar"));
    assert!(!is_there(&job, "xY7kQ3.part01.rar"));
}

const HASH: &str = "cfd4be79c0fb01d429c52a9f8551ee79";

const CANONICAL: [&str; 3] = [
    "Movie.Title.2024.part001.rar",
    "Movie.Title.2024.part002.rar",
    "Movie.Title.2024.part003.rar",
];

fn volume_bodies() -> Vec<Vec<u8>> {
    (0..3u8)
        .map(|n| {
            let mut body = b"Rar!\x1a\x07\x00".to_vec();
            body.extend_from_slice(&[n; 512]);
            body
        })
        .collect()
}

fn obfuscated_names() -> Vec<String> {
    (45..=47u32).map(|n| format!("{HASH}.{n}")).collect()
}

fn volumes(names: &[String]) -> Dir {
    names.iter().cloned().zip(volume_bodies()).collect()
}

fn canonical_files() -> Vec<ExpectedFile> {
    let bodies = volume_bodies();
    let files: Vec<(&str, &[u8])> = CANONICAL
        .iter()
        .zip(&bodies)
        .map(|(name, body)| (*name, body.as_slice()))
        .collect();
    expected(&files)
}

/// Runs a job up to its renaming, if the pipeline asks for it.
fn run_job(articles_failed: usize, job: &mut Dir) {
    let job_dir = FilePath::from_parts(vec!["/".to_string(), "job".to_string()]).unwrap();
    let config = PostProcConfig {
        articles_failed,
        skip_extract: true,
        cleanup_after_extract: false,
        ..PostProcConfig::default()
    };
    let step = match PipelineRun::start(&job_dir, &config, 1) {
        PipelineStep::Parse { run, verify } => {
            assert_eq!(verify, articles_failed > 0);
            run.index_parsed(&job_dir, &config, verify, Ok(()), 0)
        }
        other => panic!("{other:?}"),
    };
    if let PipelineStep::Rename { .. } = step {
        rename_to_par2_names(canonical_files(), job);
    }
}

#[test]
fn neg_damaged_download_deobfuscates_via_par2() {
    let mut job = volumes(&obfuscated_names());
    run_job(1, &mut job);
    assert_eq!(names(&job), CANONICAL);
}

#[test]
fn pos_healthy_download_deobfuscates_via_par2() {
    let mut job = volumes(&obfuscated_names());
    run_job(0, &mut job);
    assert_eq!(names(&job), CANONICAL);
}

#[test]
fn guard_correctly_named_files_are_left_alone() {
    let canonical: Vec<String> = CANONICAL.iter().map(|s| s.to_string()).collect();
    let mut job = volumes(&canonical);
    run_job(1, &mut job);
    assert_eq!(names(&job), canonical);
}

#[test]
fn guard_unrelated_files_are_not_renamed() {
    let mut job = volumes(&obfuscated_names());
    job.push(("readme.nfo".to_string(), b"release notes".to_vec()));
    run_job(1, &mut job);
    assert!(is_there(&job, "readme.nfo"));
}

#[test]
fn a_second_pass_changes_nothing() {
    let mut job = volumes(&obfuscated_names());
    run_job(0, &mut job);
    let once = job.clone();
    run_job(0, &mut job);
    assert_eq!(job, once);
}

#[test]
fn one_present_name_stops_the_whole_pass() {
    let mut job = volumes(&obfuscated_names());
    job.push((CANONICAL[2].to_string(), b"something".to_vec()));
    let before = job.clone();
    run_job(0, &mut job);
    assert_eq!(job, before);
}

#[test]
fn a_taken_name_is_not_overwritten() {
    let body: &[u8] = b"the same contents";
    let mut job = dir(&[("first", body), ("second", body)]);
    rename_to_par2_names(expected(&[("wanted", body)]), &mut job);
    assert_eq!(names(&job), ["second", "wanted"]);
}

#[test]
fn the_last_of_two_names_for_one_hash_is_taken() {
    let body: &[u8] = b"contents";
    let plan = RenamePlan::new(expected(&[("one", body), ("two", body)]), &[false, false]).unwrap();
    let target = plan.target("x", Some(hash_16k(body))).unwrap();
    assert_eq!(target.as_str(), "two");
    assert!(plan.target("two", Some(hash_16k(body))).is_none());
    assert!(plan.target("x", None).is_none());
    assert!(plan.target("x", Some(hash_16k(b"other"))).is_none());
}

#[test]
fn par2_names_are_told_in_any_case() {
    assert!(is_par2_name("a.par2"));
    assert!(is_par2_name("A.PAR2"));
    assert!(is_par2_name("Ä.Par2"));
    assert!(is_par2_name(".par2"));
    assert!(!is_par2_name("par2"));
    assert!(!is_par2_name("a.par2.rar"));
    assert!(is_par2_lowercase("a.vol0+1.par2"));
    assert!(!is_par2_lowercase("A.PAR2"));
}

#[test]
fn only_files_with_readable_names_are_hashed() {
    let plan = RenamePlan::new(Vec::new(), &[]).unwrap();
    assert!(plan.wants_hash(true, Some("a.rar")));
    assert!(!plan.wants_hash(false, Some("a.rar")));
    assert!(!plan.wants_hash(true, None));
    assert!(!plan.wants_hash(true, Some("a.PAR2")));
}

use nzb_postproc::extract::{Archive, ExtractRun, ExtractStep};
use nzb_postproc::path::FilePath;
use nzb_postproc::stage::{StageResult, StageStatus};
use nzb_postproc::unpack::UnpackResult;
use nzb_postproc::ArchiveType;

fn path(parts: &[&str]) -> FilePath {
    FilePath::from_parts(parts.iter().map(|part| part.to_string()).collect()).unwrap()
}

fn text(path: &FilePath) -> String {
    (1..path.len())
        .map(|i| format!("/{}", path.part(i)))
        .collect()
}

fn archive(dir: &str, name: &str) -> Archive {
    Archive {
        kind: ArchiveType::Zip,
        label: "ZIP".to_string(),
        path: path(&["/", dir, name]),
    }
}

fn ran(success: bool, error_output: &str) -> Result<UnpackResult, String> {
    Ok(UnpackResult {
        success,
        files_extracted: Vec::new(),
        output: String::new(),
        error_output: error_output.to_string(),
    })
}

/// Archives by directory and name; extracting one adds what it holds to `out`.
struct World {
    files: Vec<(String, String)>,
    inside: Vec<(String, String)>,
    outcome: fn(&str) -> Result<UnpackResult, String>,
    extracted: Vec<String>,
}

impl World {
    fn new(files: &[(&str, &str)], inside: &[(&str, &str)]) -> World {
        let own = |list: &[(&str, &str)]| {
            list.iter()
                .map(|(a, b)| (a.to_string(), b.to_string()))
                .collect()
        };
        World {
            files: own(files),
            inside: own(inside),
            outcome: |_| ran(true, ""),
            extracted: Vec::new(),
        }
    }

    fn list(&self, dir: &FilePath) -> Vec<Archive> {
        let dir = dir.part(1);
        self.files
            .iter()
            .filter(|(d, _)| d == dir)
            .map(|(d, name)| archive(d, name))
            .collect()
    }

    fn run(&mut self, source: &str, output: &str, max_depth: u8) -> (StageResult, Vec<FilePath>) {
        let mut step = ExtractRun::start(path(&["/", source]), path(&["/", output]), max_depth);
        loop {
            step = match step {
                ExtractStep::ListOutput(run) => {
                    let present = self.list(&run.output_dir);
                    run.output_listed(present.into_iter().map(|a| a.path).collect())
                }
                ExtractStep::Scan { run, depth } => {
                    let found = self.list(run.scan_dir(depth));
                    run.scanned(depth, found)
                }
                ExtractStep::Extract {
                    run,
                    depth,
                    queue,
                    at,
                } => {
                    let name = queue[at].path.part(2).to_string();
                    let outcome = (self.outcome)(&name);
                    self.extracted.push(name.clone());
                    if outcome.as_ref().is_ok_and(|result| result.success) {
                        for (holder, held) in &self.inside {
                            if *holder == name {
                                self.files
                                    .push((run.output_dir.part(1).to_string(), held.clone()));
                            }
                        }
                    }
                    run.extracted(depth, queue, at, outcome)
                }
                ExtractStep::FinalScan { run, in_output } => {
                    let left = self.list(run.left_dir(in_output));
                    run.left_over(&left.into_iter().map(|a| a.path).collect())
                }
                ExtractStep::Finish(run) => return run.report(7),
            };
        }
    }
}

#[test]
fn nested_zip_archives_are_extracted_recursively() {
    let mut world = World::new(&[("source", "outer.zip")], &[("outer.zip", "inner.zip")]);
    let (result, archives) = world.run("source", "output", 1);
    assert_eq!(result.status, StageStatus::Success, "{result:?}");
    assert_eq!(world.extracted, ["outer.zip", "inner.zip"]);
    assert_eq!(
        result.message.as_deref(),
        Some("depth 0 ZIP: OK; depth 1 ZIP: OK")
    );
    assert_eq!(result.duration_nanos, 7);
    let taken: Vec<String> = archives.iter().map(text).collect();
    assert_eq!(taken, ["/source/outer.zip", "/output/inner.zip"]);
}

#[test]
fn nested_archive_depth_limit_fails_without_discarding_inner_archive() {
    let mut world = World::new(&[("source", "outer.zip")], &[("outer.zip", "inner.zip")]);
    let (result, archives) = world.run("source", "output", 0);
    assert_eq!(result.status, StageStatus::Failed, "{result:?}");
    assert_eq!(world.extracted, ["outer.zip"]);
    assert_eq!(
        result.message.as_deref(),
        Some("depth 0 ZIP: OK; nested archive depth limit (0) reached; source files retained")
    );
    let taken: Vec<String> = archives.iter().map(text).collect();
    assert_eq!(taken, ["/source/outer.zip"]);
}

#[test]
fn archives_that_were_there_before_are_left_alone() {
    let mut world = World::new(
        &[("source", "outer.zip"), ("output", "keep-me.zip")],
        &[("outer.zip", "inner.zip")],
    );
    let (result, archives) = world.run("source", "output", 5);
    assert_eq!(result.status, StageStatus::Success, "{result:?}");
    assert_eq!(world.extracted, ["outer.zip", "inner.zip"]);
    assert!(!archives.iter().any(|a| text(a) == "/output/keep-me.zip"));
}

#[test]
fn archives_in_a_shared_directory_are_input() {
    let mut world = World::new(&[("output", "nested.zip")], &[]);
    let (result, archives) = world.run("output", "output", 5);
    assert_eq!(result.status, StageStatus::Success, "{result:?}");
    assert_eq!(archives.len(), 1);
    assert_eq!(world.extracted, ["nested.zip"]);
}

#[test]
fn no_archives_means_nothing_to_do() {
    let mut world = World::new(&[("output", "keep-me.zip")], &[]);
    let (result, archives) = world.run("source", "output", 5);
    assert_eq!(result.name, "Extract");
    assert_eq!(result.status, StageStatus::Skipped);
    assert_eq!(result.message.as_deref(), Some("No archives found"));
    assert!(archives.is_empty());
}

#[test]
fn a_failure_ends_the_descent_but_not_the_level() {
    let mut world = World::new(
        &[("source", "bad.zip"), ("source", "good.zip")],
        &[("good.zip", "inner.zip")],
    );
    world.outcome = |name| {
        if name == "bad.zip" {
            ran(false, "\r\n  CRC failed in a.bin\r\nTotal errors: 1\n")
        } else {
            ran(true, "warning")
        }
    };
    let (result, archives) = world.run("source", "output", 5);
    assert_eq!(result.status, StageStatus::Failed);
    assert_eq!(
        result.message.as_deref(),
        Some("depth 0 ZIP: failed (CRC failed in a.bin); depth 0 ZIP: OK")
    );
    assert_eq!(world.extracted, ["bad.zip", "good.zip"]);
    assert_eq!(archives.len(), 2);
}

#[test]
fn failures_without_words_and_errors_are_told() {
    let mut world = World::new(&[("source", "a.zip"), ("source", "b.zip")], &[]);
    world.outcome = |name| {
        if name == "a.zip" {
            ran(false, " \n\t ")
        } else {
            Err("archive is password-protected".to_string())
        }
    };
    let (result, _) = world.run("source", "output", 5);
    assert_eq!(
        result.message.as_deref(),
        Some("depth 0 ZIP: failed; depth 0 ZIP: archive is password-protected")
    );
}

#[test]
fn an_archive_listed_twice_is_taken_once() {
    let mut world = World::new(&[("source", "a.zip"), ("source", "a.zip")], &[]);
    let (result, archives) = world.run("source", "output", 5);
    assert_eq!(result.message.as_deref(), Some("depth 0 ZIP: OK"));
    assert_eq!(archives.len(), 1);
}

#[test]
fn the_deepest_level_is_reached() {
    let mut world = World::new(
        &[("source", "0.zip")],
        &[
            ("0.zip", "1.zip"),
            ("1.zip", "2.zip"),
            ("2.zip", "3.zip"),
            ("3.zip", "4.zip"),
            ("4.zip", "5.zip"),
        ],
    );
    let (result, archives) = world.run("source", "output", 5);
    assert_eq!(result.status, StageStatus::Success, "{result:?}");
    assert_eq!(archives.len(), 6);
    world = World::new(&[("source", "0.zip")], &[("0.zip", "1.zip")]);
    world.inside.push(("1.zip".to_string(), "2.zip".to_string()));
    let (result, _) = world.run("source", "output", 1);
    assert_eq!(result.status, StageStatus::Failed);
    assert_eq!(
        result.message.as_deref(),
        Some(
            "depth 0 ZIP: OK; depth 1 ZIP: OK; nested archive depth limit (1) reached; source \
             files retained"
        )
    );
}

#[test]
fn listings_are_made_where_archives_can_be() {
    match ExtractRun::start(path(&["/", "source"]), path(&["/", "output"]), 5) {
        ExtractStep::ListOutput(run) => {
            assert_eq!(text(run.scan_dir(0)), "/source");
            assert_eq!(text(run.scan_dir(1)), "/output");
            assert_eq!(text(run.scan_dir(255)), "/output");
            assert_eq!(text(run.left_dir(false)), "/source");
            assert_eq!(text(run.left_dir(true)), "/output");
        }
        other => panic!("{other:?}"),
    }
}

//! Whole jobs on directories that are held in memory.

use std::collections::{BTreeMap, BTreeSet};

use nzb_postproc::cleanup::{
    cleanup_files, cleanup_result, may_remove, CheckedPath, CleanupRules, Removal, WalkedFile,
};
use nzb_postproc::extract::{Archive, ExtractRun, ExtractStep};
use nzb_postproc::path::FilePath;
use nzb_postproc::pipeline::{PipelineRun, PipelineStep};
use nzb_postproc::stage::StageResult;
use nzb_postproc::unpack::UnpackResult;
use nzb_postproc::{ArchiveType, PostProcConfig, PostProcResult};

fn path(text: &str) -> FilePath {
    let mut parts = vec!["/".to_string()];
    parts.extend(text.split('/').skip(1).map(|part| part.to_string()));
    FilePath::from_parts(parts).unwrap()
}

fn text(path: &FilePath) -> String {
    (1..path.len())
        .map(|i| format!("/{}", path.part(i)))
        .collect()
}

/// Files by their paths, and what each archive holds.
struct Disk {
    files: BTreeSet<String>,
    inside: BTreeMap<String, Vec<String>>,
}

impl Disk {
    fn new(files: &[&str], inside: &[(&str, &[&str])]) -> Disk {
        Disk {
            files: files.iter().map(|f| f.to_string()).collect(),
            inside: inside
                .iter()
                .map(|(archive, names)| {
                    let names = names.iter().map(|name| name.to_string()).collect();
                    (archive.to_string(), names)
                })
                .collect(),
        }
    }

    fn in_dir(&self, dir: &FilePath) -> Vec<String> {
        let prefix = format!("{}/", text(dir));
        self.files
            .iter()
            .filter(|file| file.starts_with(&prefix))
            .cloned()
            .collect()
    }

    fn archives(&self, dir: &FilePath) -> Vec<Archive> {
        self.in_dir(dir)
            .into_iter()
            .filter(|file| file.ends_with(".zip"))
            .map(|file| Archive {
                kind: ArchiveType::Zip,
                label: "ZIP".to_string(),
                path: path(&file),
            })
            .collect()
    }

    fn unpack(&mut self, archive: &FilePath, output: &FilePath) -> UnpackResult {
        let name = archive.part(archive.len() - 1);
        let mut plan = nzb_postproc::entry::ArchivePlan::new(output.clone());
        for held in self.inside.get(name).cloned().unwrap_or_default() {
            match plan.zip_entry(&held, false, false).unwrap() {
                nzb_postproc::entry::EntryAction::WriteFile(target) => {
                    self.files.insert(text(&target));
                }
                other => panic!("{other:?}"),
            }
        }
        UnpackResult {
            success: true,
            files_extracted: Vec::new(),
            output: String::new(),
            error_output: String::new(),
        }
    }

    fn extract(
        &mut self,
        source: FilePath,
        output: FilePath,
        max_depth: u8,
    ) -> (StageResult, Vec<FilePath>) {
        let paths = |found: Vec<Archive>| found.into_iter().map(|a| a.path).collect::<Vec<_>>();
        let mut step = ExtractRun::start(source, output, max_depth);
        loop {
            step = match step {
                ExtractStep::ListOutput(run) => {
                    let present = paths(self.archives(&run.output_dir));
                    run.output_listed(present)
                }
                ExtractStep::Scan { run, depth } => {
                    let found = self.archives(run.scan_dir(depth));
                    run.scanned(depth, found)
                }
                ExtractStep::Extract {
                    run,
                    depth,
                    queue,
                    at,
                } => {
                    let result = self.unpack(&queue[at].path, &run.output_dir);
                    run.extracted(depth, queue, at, Ok(result))
                }
                ExtractStep::FinalScan { run, in_output } => {
                    let left = self.archives(run.left_dir(in_output));
                    run.left_over(&paths(left))
                }
                ExtractStep::Finish(run) => return run.report(0),
            };
        }
    }

    fn clean(
        &mut self,
        job_dir: &FilePath,
        root: &FilePath,
        archives: &[FilePath],
        rules: &CleanupRules,
    ) -> StageResult {
        let found = self
            .in_dir(job_dir)
            .iter()
            .filter(|file| file.ends_with(".zip") || file.ends_with(".par2"))
            .map(|file| path(file))
            .collect();
        let extracted = archives
            .iter()
            .map(|archive| CheckedPath {
                path: archive.clone(),
                regular: self.files.contains(&text(archive)),
            })
            .collect();
        let mut walked = Vec::new();
        for dir in [job_dir, root] {
            for file in self.in_dir(dir) {
                walked.push(WalkedFile {
                    path: path(&file),
                    regular: true,
                    relative: file[text(dir).len() + 1..].to_string(),
                    file_name: file.rsplit('/').next().unwrap().to_string(),
                });
            }
        }
        let mut outcomes = Vec::new();
        for file in cleanup_files(found, &extracted, &walked, rules) {
            let regular = self.files.contains(&text(&file));
            if may_remove(&file, job_dir, root, regular) {
                self.files.remove(&text(&file));
                outcomes.push(Removal::Removed);
            } else {
                outcomes.push(Removal::Refused);
            }
        }
        cleanup_result(&outcomes, 0)
    }

    fn run(&mut self, config: &PostProcConfig, rules: &CleanupRules) -> PostProcResult {
        let job_dir = path("/source");
        let mut step = PipelineRun::start(&job_dir, config, 0);
        loop {
            step = match step {
                PipelineStep::Extract {
                    run,
                    source_dir,
                    output_dir,
                    max_depth,
                    ..
                } => {
                    let (result, archives) = self.extract(source_dir, output_dir, max_depth);
                    run.extracted(&job_dir, config, result, archives)
                }
                PipelineStep::Cleanup { run, cleanup_root } => {
                    let result = self.clean(&job_dir, &cleanup_root, &run.archives, rules);
                    run.cleaned(result)
                }
                PipelineStep::Finish(run) => return run.finish(),
                other => panic!("{other:?}"),
            };
        }
    }
}

fn config() -> PostProcConfig {
    PostProcConfig {
        output_dir: Some(path("/output")),
        ..PostProcConfig::default()
    }
}

fn no_rules() -> CleanupRules {
    CleanupRules::new(&[], &[])
}

#[test]
fn recursive_cleanup_removes_nested_archives_from_output_directory() {
    let mut disk = Disk::new(
        &["/source/outer.zip"],
        &[
            ("outer.zip", &["inner.zip"]),
            ("inner.zip", &["payload.txt"]),
        ],
    );
    let result = disk.run(&config(), &no_rules());

    assert!(result.success, "{result:?}");
    assert!(disk.files.contains("/output/payload.txt"));
    assert!(!disk.files.contains("/output/inner.zip"));
    assert!(!disk.files.contains("/source/outer.zip"));
}

#[test]
fn cleanup_keeps_unrelated_archives_in_the_output_directory() {
    let mut disk = Disk::new(
        &["/source/outer.zip", "/output/keep-me.zip"],
        &[
            ("outer.zip", &["inner.zip"]),
            ("inner.zip", &["payload.txt"]),
            ("keep-me.zip", &["unrelated.txt"]),
        ],
    );
    let result = disk.run(&config(), &no_rules());

    assert!(result.success, "{result:?}");
    assert!(disk.files.contains("/output/keep-me.zip"));
    assert!(!disk.files.contains("/output/unrelated.txt"));
    assert!(!disk.files.contains("/output/inner.zip"));
}

#[test]
fn direct_unpack_still_extracts_nested_archives() {
    let mut disk = Disk::new(
        &["/output/nested.zip"],
        &[("nested.zip", &["payload.txt"])],
    );
    let config = PostProcConfig {
        skip_extract: true,
        ..config()
    };
    let result = disk.run(&config, &no_rules());

    assert!(result.success, "{result:?}");
    assert!(disk.files.contains("/output/payload.txt"));
    assert!(!disk.files.contains("/output/nested.zip"));
}

#[test]
fn a_job_that_goes_too_deep_keeps_its_archives() {
    let mut disk = Disk::new(
        &["/source/outer.zip"],
        &[
            ("outer.zip", &["inner.zip"]),
            ("inner.zip", &["payload.txt"]),
        ],
    );
    let config = PostProcConfig {
        max_nested_archive_depth: 0,
        ..config()
    };
    let result = disk.run(&config, &no_rules());

    assert!(!result.success);
    assert!(disk.files.contains("/source/outer.zip"));
    assert!(disk.files.contains("/output/inner.zip"));
    assert_eq!(
        result.error.as_deref(),
        Some("depth 0 ZIP: OK; nested archive depth limit (0) reached; source files retained")
    );
}

#[test]
fn category_rules_reach_both_directories() {
    let mut disk = Disk::new(
        &["/source/outer.zip", "/source/readme.NFO", "/output/Sample/a.mkv"],
        &[("outer.zip", &["movie.mkv", "movie.nfo"])],
    );
    let rules = CleanupRules::new(&["sample/*".to_string()], &["nfo".to_string()]);
    let result = disk.run(&config(), &rules);

    assert!(result.success, "{result:?}");
    let left: Vec<&String> = disk.files.iter().collect();
    assert_eq!(left, ["/output/movie.mkv"]);
}

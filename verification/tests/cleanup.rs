use nzb_postproc::cleanup::{
    cleanup_files, cleanup_result, may_remove, CheckedPath, CleanupRules, Removal, WalkedFile,
};
use nzb_postproc::path::FilePath;
use nzb_postproc::stage::StageStatus;

fn path(parts: &[&str]) -> FilePath {
    FilePath::from_parts(parts.iter().map(|part| part.to_string()).collect()).unwrap()
}

fn text(path: &FilePath) -> String {
    (1..path.len())
        .map(|i| format!("/{}", path.part(i)))
        .collect()
}

fn strings(list: &[&str]) -> Vec<String> {
    list.iter().map(|s| s.to_string()).collect()
}

fn walked(relative: &[&str], regular: bool) -> WalkedFile {
    let mut parts = vec!["/", "job"];
    parts.extend_from_slice(relative);
    WalkedFile {
        path: path(&parts),
        regular,
        relative: relative.join("/"),
        file_name: relative.last().unwrap().to_string(),
    }
}

#[test]
fn test_cleanup_removes_files() {
    let found = [
        "movie.par2",
        "movie.vol00+01.par2",
        "movie.rar",
        "movie.r00",
    ];
    let mut disk: Vec<String> = found.iter().map(|name| format!("/job/{name}")).collect();
    disk.push("/job/movie.mkv".to_string());

    let job = path(&["/", "job"]);
    let files = cleanup_files(
        found.iter().map(|name| path(&["/", "job", name])).collect(),
        &Vec::new(),
        &vec![walked(&["movie.mkv"], true), walked(&["movie.rar"], true)],
        &CleanupRules::new(&[], &[]),
    );
    let mut outcomes = Vec::new();
    for file in &files {
        let regular = disk.contains(&text(file));
        if may_remove(file, &job, &job, regular) {
            disk.retain(|name| *name != text(file));
            outcomes.push(Removal::Removed);
        } else {
            outcomes.push(Removal::Refused);
        }
    }
    let result = cleanup_result(&outcomes, 3);

    assert_eq!(result.status, StageStatus::Success);
    assert_eq!(result.name, "Cleanup");
    assert_eq!(result.message.as_deref(), Some("Removed 4 files, 0 errors"));
    assert_eq!(result.duration_nanos, 3);
    assert_eq!(disk, ["/job/movie.mkv"]);
}

#[test]
fn the_files_come_once_and_in_order() {
    let files = cleanup_files(
        vec![path(&["/", "job", "b.par2"]), path(&["/", "job", "a.par2"])],
        &vec![
            CheckedPath {
                path: path(&["/", "job", "b.par2"]),
                regular: true,
            },
            CheckedPath {
                path: path(&["/", "out", "inner.zip"]),
                regular: true,
            },
            CheckedPath {
                path: path(&["/", "out", "gone.zip"]),
                regular: false,
            },
        ],
        &vec![
            walked(&["sub", "x.NFO"], true),
            walked(&["sub", "y.nfo"], false),
            walked(&["sub-x"], true),
        ],
        &CleanupRules::new(&[], &strings(&["nfo"])),
    );
    let seen: Vec<String> = files.iter().map(text).collect();
    assert_eq!(
        seen,
        [
            "/job/a.par2",
            "/job/b.par2",
            "/job/sub/x.NFO",
            "/out/inner.zip"
        ]
    );
}

#[test]
fn extensions_are_normalized() {
    let hit = |extension: &str, name: &str| {
        CleanupRules::new(&[], &strings(&[extension])).hit("some/dir", name)
    };
    assert!(hit("nfo", "a.nfo"));
    assert!(hit(".nfo", "a.nfo"));
    assert!(hit(" .NFO\t", "A.nFo"));
    assert!(hit("tar.gz", "a.tar.gz"));
    assert!(!hit("nfo", "anfo"));
    assert!(!hit("nfo", "a.nfo.txt"));
    assert!(!hit("", "a."));
    assert!(!hit(".", "a."));
    assert!(!hit("  ", "a."));
}

#[test]
fn patterns_see_the_path_and_the_name() {
    let hit = |pattern: &str, relative: &str, name: &str| {
        CleanupRules::new(&strings(&[pattern]), &[]).hit(relative, name)
    };
    assert!(hit("*.nfo", "sub/a.nfo", "a.nfo"));
    assert!(hit("Sample\\*", "sample/a.mkv", "a.mkv"));
    assert!(hit("sample/*", "Sample\\A.mkv", "A.mkv"));
    assert!(!hit("sample/*", "other/a.mkv", "a.mkv"));
    assert!(hit("a.???", "x/a.mkv", "a.mkv"));
    assert!(!hit("", "", ""));
}

#[test]
fn nothing_outside_the_roots_is_removed() {
    let job = path(&["/", "job"]);
    let out = path(&["/", "out"]);
    assert!(may_remove(&path(&["/", "job", "a"]), &job, &out, true));
    assert!(may_remove(&path(&["/", "out", "d", "a"]), &job, &out, true));
    assert!(!may_remove(&path(&["/", "jobs", "a"]), &job, &out, true));
    assert!(!may_remove(&path(&["/", "job", "a"]), &job, &out, false));
    assert!(!may_remove(&path(&["/", "a"]), &job, &out, true));
}

#[test]
fn errors_are_counted() {
    let empty = cleanup_result(&Vec::new(), 0);
    assert_eq!(empty.status, StageStatus::Skipped);
    assert_eq!(empty.message.as_deref(), Some("No files to clean up"));

    let mixed = cleanup_result(
        &vec![
            Removal::Removed,
            Removal::Failed,
            Removal::Refused,
            Removal::Removed,
        ],
        0,
    );
    assert_eq!(mixed.status, StageStatus::Failed);
    assert_eq!(mixed.message.as_deref(), Some("Removed 2 files, 2 errors"));
}

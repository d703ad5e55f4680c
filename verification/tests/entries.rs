use std::io::{Cursor, Read, Write};

use nzb_postproc::entry::{safe_archive_output_path, ArchivePlan, EntryAction};
use nzb_postproc::error::UnpackError;
use nzb_postproc::path::FilePath;
use nzb_postproc::tree::{paths_to_check, reject_symlinked_path, NodeKind, TreeWalk};
use nzb_postproc::unpack::UnpackResult;

fn path(parts: &[&str]) -> FilePath {
    FilePath::from_parts(parts.iter().map(|part| part.to_string()).collect()).unwrap()
}

fn parts(path: &FilePath) -> Vec<String> {
    (0..path.len()).map(|i| path.part(i).to_string()).collect()
}

fn out_dir() -> FilePath {
    path(&["/", "job", "out"])
}

/// A path as text.
fn shown(path: &FilePath) -> String {
    parts(path)[1..].iter().map(|part| format!("/{part}")).collect()
}

/// The result of an extraction, and what it writes where.
type Extracted = (UnpackResult, Vec<(String, Vec<u8>)>);

fn finished(plan: ArchivePlan, written: Vec<(String, Vec<u8>)>) -> Extracted {
    let files = plan.written_files().iter().map(shown).collect();
    (plan.finish(files), written)
}

/// The result of an extraction, or the error it meets first.
fn unzip(bytes: Vec<u8>) -> Result<Extracted, UnpackError> {
    let mut archive = zip::ZipArchive::new(Cursor::new(bytes)).unwrap();
    let mut plan = ArchivePlan::new(out_dir());
    let mut written = Vec::new();
    for i in 0..archive.len() {
        let mut entry = archive.by_index(i).unwrap();
        let name = entry.name().to_string();
        match plan.zip_entry(&name, entry.is_symlink(), entry.is_dir())? {
            EntryAction::MakeDirectory(_) => {}
            EntryAction::WriteFile(path) => {
                let mut contents = Vec::new();
                entry.read_to_end(&mut contents).unwrap();
                written.push((shown(&path), contents));
            }
        }
    }
    Ok(finished(plan, written))
}

fn untar(bytes: Vec<u8>) -> Result<Extracted, UnpackError> {
    let mut archive = tar::Archive::new(Cursor::new(bytes));
    let mut plan = ArchivePlan::new(out_dir());
    let mut written = Vec::new();
    for entry in archive.entries().unwrap() {
        let mut entry = entry.unwrap();
        let name = entry.path().unwrap().to_string_lossy().into_owned();
        let flag = entry.header().entry_type().as_byte();
        match plan.tar_entry(&name, flag)? {
            EntryAction::MakeDirectory(_) => {}
            EntryAction::WriteFile(path) => {
                let mut contents = Vec::new();
                entry.read_to_end(&mut contents).unwrap();
                written.push((shown(&path), contents));
            }
        }
    }
    Ok(finished(plan, written))
}

fn zip_of(entries: &[(&str, &[u8])]) -> Vec<u8> {
    let mut writer = zip::ZipWriter::new(Cursor::new(Vec::new()));
    for (name, contents) in entries {
        writer
            .start_file(*name, zip::write::SimpleFileOptions::default())
            .unwrap();
        writer.write_all(contents).unwrap();
    }
    writer.finish().unwrap().into_inner()
}

fn tar_of(entries: &[(&str, &[u8])]) -> Vec<u8> {
    let mut builder = tar::Builder::new(Vec::new());
    for (name, contents) in entries {
        let mut header = tar::Header::new_gnu();
        header.set_path(name).unwrap();
        header.set_size(contents.len() as u64);
        header.set_mode(0o644);
        header.set_cksum();
        builder.append(&header, *contents).unwrap();
    }
    builder.into_inner().unwrap()
}

fn raw_tar_of(entries: &[(&str, &[u8])]) -> Vec<u8> {
    let mut builder = tar::Builder::new(Vec::new());
    for (name, contents) in entries {
        let mut header = tar::Header::new_gnu();
        let name_bytes = name.as_bytes();
        assert!(name_bytes.len() <= 100);
        header.as_mut_bytes()[..100].fill(0);
        header.as_mut_bytes()[..name_bytes.len()].copy_from_slice(name_bytes);
        header.set_size(contents.len() as u64);
        header.set_mode(0o644);
        header.set_cksum();
        builder.append(&header, *contents).unwrap();
    }
    builder.into_inner().unwrap()
}

fn link_tar(kind: tar::EntryType, name: &str, target: &str) -> Vec<u8> {
    let mut builder = tar::Builder::new(Vec::new());
    let mut header = tar::Header::new_gnu();
    header.set_entry_type(kind);
    header.set_path(name).unwrap();
    header.set_link_name(target).unwrap();
    header.set_size(0);
    header.set_cksum();
    builder.append(&header, &[][..]).unwrap();
    builder.into_inner().unwrap()
}

#[test]
fn test_extract_zip_valid() {
    let (result, written) = unzip(zip_of(&[("hello.txt", b"Hello, world!")])).unwrap();
    assert!(result.success);
    assert_eq!(result.files_extracted.len(), 1);
    assert_eq!(result.files_extracted, ["/job/out/hello.txt"]);
    assert!(result.output.is_empty() && result.error_output.is_empty());
    assert_eq!(written[0].0, "/job/out/hello.txt");
    assert_eq!(written[0].1, b"Hello, world!");
}

#[test]
fn test_extract_zip_rejects_duplicate_output_paths() {
    let mut writer = zip::ZipWriter::new(Cursor::new(Vec::new()));
    let options = zip::write::SimpleFileOptions::default();
    writer.add_directory("same.txt/", options).unwrap();
    writer.start_file("same.txt", options).unwrap();
    writer.write_all(b"second").unwrap();
    let bytes = writer.finish().unwrap().into_inner();

    let error = unzip(bytes).unwrap_err().message();
    assert!(error.contains("duplicate output path"), "{error}");
}

#[test]
fn test_extract_zip_rejects_parent_and_absolute_paths() {
    for name in [
        "../../outside.txt",
        "/absolute.txt",
        r"..\..\outside.txt",
        r"C:\outside.txt",
    ] {
        let error = unzip(zip_of(&[(name, b"outside")])).unwrap_err().message();
        assert!(error.contains("unsafe path"), "{error}");
    }
}

#[test]
fn test_extract_zip_rejects_preexisting_symlink_ancestors() {
    let root = out_dir();
    let mut plan = ArchivePlan::new(out_dir());
    let target = match plan.zip_entry("link/escaped.txt", false, false).unwrap() {
        EntryAction::WriteFile(path) => path,
        other => panic!("{other:?}"),
    };
    let checked = paths_to_check(&root, &target).unwrap();
    let nodes: Vec<Option<NodeKind>> = checked
        .iter()
        .map(|path| match path.part(path.len() - 1) {
            "out" => Some(NodeKind::Directory),
            "link" => Some(NodeKind::Symlink),
            _ => None,
        })
        .collect();
    let error = reject_symlinked_path(&root, &target, &nodes)
        .unwrap_err()
        .message();
    assert!(error.contains("symbolic link"), "{error}");
}

#[test]
fn test_extract_zip_rejects_symbolic_links() {
    let mut writer = zip::ZipWriter::new(Cursor::new(Vec::new()));
    writer
        .add_symlink(
            "link",
            "outside.txt",
            zip::write::SimpleFileOptions::default(),
        )
        .unwrap();
    let bytes = writer.finish().unwrap().into_inner();

    let error = unzip(bytes).unwrap_err().message();
    assert_eq!(
        error,
        "ZIP archive contains unsupported symbolic link `link`"
    );
}

#[test]
fn test_extract_tar_valid_and_large_file() {
    let large = vec![b'x'; 128 * 1024];
    let (result, written) = untar(tar_of(&[
        ("nested/hello.txt", b"hello"),
        ("large.bin", &large),
    ]))
    .unwrap();
    assert!(result.success);
    assert_eq!(
        result.files_extracted,
        ["/job/out/nested/hello.txt", "/job/out/large.bin"]
    );
    assert!(result.output.is_empty() && result.error_output.is_empty());
    assert_eq!(written.len(), 2);
    assert_eq!(written[0].0, "/job/out/nested/hello.txt");
    assert_eq!(written[0].1, b"hello");
    assert_eq!(written[1].1.len(), large.len());
}

#[test]
fn directories_are_not_listed_as_files() {
    let mut writer = zip::ZipWriter::new(Cursor::new(Vec::new()));
    let options = zip::write::SimpleFileOptions::default();
    writer.add_directory("d/", options).unwrap();
    writer.start_file("d/b.txt", options).unwrap();
    writer.write_all(b"b").unwrap();
    writer.start_file("a.txt", options).unwrap();
    writer.write_all(b"a").unwrap();
    let (result, _) = unzip(writer.finish().unwrap().into_inner()).unwrap();
    assert_eq!(
        result.files_extracted,
        ["/job/out/d/b.txt", "/job/out/a.txt"]
    );

    let mut plan = ArchivePlan::new(out_dir());
    assert!(plan.tar_entry("d", b'5').is_ok());
    assert!(plan.tar_entry("pipe", b'6').is_err());
    assert!(plan.tar_entry("f", b'0').is_ok());
    let files: Vec<String> = plan.written_files().iter().map(shown).collect();
    assert_eq!(files, ["/job/out/f"]);
}

#[test]
fn an_action_is_checked_before_it_is_done() {
    let action = || EntryAction::WriteFile(path(&["/", "job", "out", "a", "b"]));
    let dir = Some(NodeKind::Directory);
    let root = out_dir();
    assert!(action().path().same_as(&path(&["/", "job", "out", "a", "b"])));
    match action().checked(&root, &vec![dir, dir, None]).unwrap() {
        EntryAction::WriteFile(path) => assert_eq!(shown(&path), "/job/out/a/b"),
        other => panic!("{other:?}"),
    }
    let error = |nodes: Vec<Option<NodeKind>>| {
        action().checked(&root, &nodes).unwrap_err().message()
    };
    assert_eq!(
        error(vec![dir, Some(NodeKind::Symlink), None]),
        "archive path crosses a symbolic link"
    );
    assert_eq!(
        error(vec![dir, Some(NodeKind::File), None]),
        "archive path crosses a non-directory"
    );
    assert_eq!(
        EntryAction::MakeDirectory(path(&["/", "job"]))
            .checked(&root, &Vec::new())
            .unwrap_err()
            .message(),
        "archive path is outside extraction directory"
    );
}

#[test]
fn test_extract_tar_rejects_traversal_and_duplicate_paths() {
    for names in [vec!["../../outside.txt"], vec!["same.txt", "same.txt"]] {
        let entries: Vec<(&str, &[u8])> = names
            .iter()
            .map(|name| (*name, b"data".as_slice()))
            .collect();
        let bytes = if names.iter().any(|name| name.contains("..")) {
            raw_tar_of(&entries)
        } else {
            tar_of(&entries)
        };
        let error = untar(bytes).unwrap_err().message();
        assert!(
            error.contains("unsafe path") || error.contains("duplicate output path"),
            "{error}"
        );
    }
}

#[test]
fn test_extract_tar_rejects_symlink_and_hardlink_entries() {
    let error = untar(link_tar(tar::EntryType::Symlink, "link", "outside"))
        .unwrap_err()
        .message();
    assert!(error.contains("symbolic link"), "{error}");

    let error = untar(link_tar(tar::EntryType::Link, "copy", "original"))
        .unwrap_err()
        .message();
    assert!(error.contains("hard link"), "{error}");
}

#[test]
fn type_flags_are_read_as_tar_reads_them() {
    let verdict = |flag: u8| ArchivePlan::new(out_dir()).tar_entry("entry", flag);
    for flag in 0..=255u8 {
        let kind = tar::EntryType::new(flag);
        match verdict(flag) {
            Ok(EntryAction::MakeDirectory(_)) => assert!(kind.is_dir(), "{flag}"),
            Ok(EntryAction::WriteFile(_)) => assert!(kind.is_file(), "{flag}"),
            Err(UnpackError::SymbolicLink { .. }) => assert!(kind.is_symlink(), "{flag}"),
            Err(UnpackError::HardLink { .. }) => assert!(kind.is_hard_link(), "{flag}"),
            Err(UnpackError::UnsupportedEntry { .. }) => assert!(
                !kind.is_dir() && !kind.is_file() && !kind.is_symlink() && !kind.is_hard_link(),
                "{flag}"
            ),
            Err(other) => panic!("{flag}: {other:?}"),
        }
    }
    assert_eq!(
        verdict(b'6').unwrap_err().message(),
        "TAR archive contains unsupported entry `entry`"
    );
}

#[test]
fn a_refused_tar_entry_has_taken_its_path() {
    let mut plan = ArchivePlan::new(out_dir());
    assert!(plan.tar_entry("pipe", b'6').is_err());
    assert_eq!(
        plan.tar_entry("./pipe", b'0').unwrap_err().message(),
        "TAR archive contains duplicate output path `./pipe`"
    );
    assert!(plan.tar_entry("link", b'2').is_err());
    assert!(plan.tar_entry("link", b'0').is_ok());
}

#[test]
fn names_are_joined_by_their_components() {
    let joined = |name: &str| {
        safe_archive_output_path(&path(&["/", "out"]), name, "ZIP")
            .map(|path| parts(&path))
            .map_err(|error| error.message())
    };
    assert_eq!(joined("a/b.txt").unwrap(), ["/", "out", "a", "b.txt"]);
    assert_eq!(joined(r"a\b.txt").unwrap(), ["/", "out", "a", "b.txt"]);
    assert_eq!(joined("./a//b/./c").unwrap(), ["/", "out", "a", "b", "c"]);
    assert_eq!(joined("...").unwrap(), ["/", "out", "..."]);
    assert_eq!(joined(".").unwrap(), ["/", "out"]);
    assert_eq!(joined("name: x").unwrap(), ["/", "out", "name: x"]);
    for name in [
        "",
        "/",
        r"\x",
        "a/../b",
        "..",
        "c:x",
        "1:x",
        "a\nb",
        "a\u{7f}",
        "a\u{85}",
    ] {
        assert_eq!(
            joined(name).unwrap_err(),
            format!("ZIP archive contains unsafe path `{name}`")
        );
    }
    assert_eq!(joined("ü:x").unwrap(), ["/", "out", "ü:x"]);
}

#[test]
fn a_write_must_not_cross_what_is_no_directory() {
    let root = out_dir();
    let target = path(&["/", "job", "out", "a", "b"]);
    let verdict = |nodes: &[Option<NodeKind>]| {
        reject_symlinked_path(&root, &target, &nodes.to_vec()).map_err(|error| error.message())
    };
    let dir = Some(NodeKind::Directory);
    let file = Some(NodeKind::File);
    let link = Some(NodeKind::Symlink);
    let other = Some(NodeKind::Other);
    assert_eq!(verdict(&[dir, dir, None]), Ok(()));
    assert_eq!(verdict(&[dir, dir, file]), Ok(()));
    assert_eq!(verdict(&[None, None, None]), Ok(()));
    assert_eq!(
        verdict(&[link, dir, None]).unwrap_err(),
        "archive extraction directory is a symbolic link"
    );
    assert_eq!(
        verdict(&[dir, link, None]).unwrap_err(),
        "archive path crosses a symbolic link"
    );
    assert_eq!(
        verdict(&[dir, dir, link]).unwrap_err(),
        "archive path crosses a symbolic link"
    );
    assert_eq!(
        verdict(&[dir, file, link]).unwrap_err(),
        "archive path crosses a non-directory"
    );
    assert_eq!(
        verdict(&[dir, other, None]).unwrap_err(),
        "archive path crosses a non-directory"
    );
    let elsewhere = path(&["/", "job", "other"]);
    assert!(paths_to_check(&root, &elsewhere).is_none());
    assert_eq!(
        reject_symlinked_path(&root, &elsewhere, &Vec::new())
            .unwrap_err()
            .message(),
        "archive path is outside extraction directory"
    );
}

#[test]
fn the_paths_to_check_lead_from_the_root() {
    let list = paths_to_check(&out_dir(), &path(&["/", "job", "out", "a", "b"])).unwrap();
    let seen: Vec<Vec<String>> = list.iter().map(parts).collect();
    assert_eq!(seen[0], ["/", "job", "out"]);
    assert_eq!(seen[1], ["/", "job", "out", "a"]);
    assert_eq!(seen[2], ["/", "job", "out", "a", "b"]);
    assert_eq!(seen.len(), 3);
}

#[test]
fn new_files_are_listed_in_order() {
    let file = |name: &str| path(&["/", "job", "out", name]);
    let mut walk = TreeWalk::new(out_dir());
    assert_eq!(parts(&walk.next().unwrap()), ["/", "job", "out"]);
    walk.note(file("old"), "out/old".to_string(), NodeKind::File);
    walk.note(file("z"), "out/z".to_string(), NodeKind::File);
    walk.note(file("sub"), "out/sub".to_string(), NodeKind::Directory);
    walk.note(file("link"), "out/link".to_string(), NodeKind::Symlink);
    assert_eq!(parts(&walk.next().unwrap()), ["/", "job", "out", "sub"]);
    walk.note(
        path(&["/", "job", "out", "sub", "a"]),
        "out/sub/a".to_string(),
        NodeKind::File,
    );
    walk.note(file("pipe"), "out/pipe".to_string(), NodeKind::Other);
    assert!(walk.next().is_none());
    assert_eq!(
        walk.newly_extracted_files(&vec![file("old")]),
        ["out/sub/a", "out/z"]
    );
    let paths: Vec<Vec<String>> = walk.into_paths().iter().map(parts).collect();
    assert_eq!(paths.len(), 3);
}

#[test]
fn what_an_extractor_leaves_behind_is_checked() {
    let at = |name: &str| path(&["/", "job", "out", name]);
    let mut walk = TreeWalk::new(out_dir());
    walk.next();
    assert!(walk
        .validate(at("f"), "out/f".to_string(), NodeKind::File)
        .is_ok());
    assert!(walk
        .validate(at("d"), "out/d".to_string(), NodeKind::Directory)
        .is_ok());
    assert_eq!(
        walk.validate(at("l"), "out/l".to_string(), NodeKind::Symlink)
            .unwrap_err()
            .message(),
        "archive extraction produced a symbolic link `out/l`"
    );
    assert_eq!(
        walk.validate(at("p"), "out/p".to_string(), NodeKind::Other)
            .unwrap_err()
            .message(),
        "archive extraction produced unsupported path `out/p`"
    );
    assert_eq!(parts(&walk.next().unwrap()), ["/", "job", "out", "d"]);
    assert!(walk.next().is_none());
}

#[test]
fn a_link_deep_in_a_tree_is_found() {
    let validate = |deep: NodeKind| {
        let mut walk = TreeWalk::new(out_dir());
        while let Some(dir) = walk.next() {
            let listing = match dir.part(dir.len() - 1) {
                "out" => vec![("d", NodeKind::Directory), ("f", NodeKind::File)],
                "d" => vec![("e", NodeKind::Directory)],
                _ => vec![("x", deep)],
            };
            for (name, kind) in listing {
                let entry = dir.safe_join(name).unwrap();
                walk.validate(entry, name.to_string(), kind)?;
            }
        }
        Ok::<usize, UnpackError>(walk.into_paths().len())
    };
    assert_eq!(validate(NodeKind::File).unwrap(), 2);
    assert!(validate(NodeKind::Symlink).is_err());
    assert!(validate(NodeKind::Other).is_err());
}

use nzb_postproc::order::{path_precedes, sorted_paths, sorted_strings, text_precedes};
use nzb_postproc::path::FilePath;
use nzb_postproc::text::{
    ascii_lowercase, contains_text, decimal, has_suffix, head_line, is_white_space, join, trim,
    with_slashes,
};
use nzb_postproc::wildcard::wildcard_match;

fn path(parts: &[&str]) -> FilePath {
    FilePath::from_parts(parts.iter().map(|part| part.to_string()).collect()).unwrap()
}

#[test]
fn wildcards_match_runs_and_single_bytes() {
    assert!(wildcard_match("*.nfo", "a.nfo"));
    assert!(wildcard_match("*.nfo", ".nfo"));
    assert!(!wildcard_match("*.nfo", "a.nfo2"));
    assert!(wildcard_match("a?c", "abc"));
    assert!(!wildcard_match("a?c", "ac"));
    assert!(wildcard_match("a*b*c", "aXbYbZc"));
    assert!(!wildcard_match("a*b*c", "aXcYc"));
    assert!(wildcard_match("***", ""));
    assert!(wildcard_match("", ""));
    assert!(!wildcard_match("", "a"));
    assert!(wildcard_match("*ab", "aab"));
    assert!(wildcard_match("plain", "plain"));
    assert!(!wildcard_match("plain", "Plain"));
    assert!(wildcard_match("??", "ü"));
    assert!(!wildcard_match("?", "ü"));
}

#[test]
fn a_star_that_meets_a_star_stands_for_it() {
    assert!(wildcard_match("*", "*"));
    assert!(!wildcard_match("*", "*a"));
    assert!(wildcard_match("*", "a*"));
    assert!(wildcard_match("**", "*a"));
}

#[test]
fn numbers_are_written_in_decimal() {
    assert_eq!(decimal(0), "0");
    assert_eq!(decimal(10), "10");
    assert_eq!(decimal(207), "207");
    assert_eq!(decimal(u64::MAX), u64::MAX.to_string());
}

#[test]
fn texts_are_changed_letter_by_letter() {
    assert_eq!(ascii_lowercase("AzÄ[@`{"), "azÄ[@`{");
    assert_eq!(with_slashes(r"a\b/c"), "a/b/c");
    assert_eq!(trim("\u{2003}\t a b \r\n\u{a0}"), "a b");
    assert_eq!(trim(" \n"), "");
    for code in 0..0x11_0000u32 {
        if let Some(c) = char::from_u32(code) {
            assert_eq!(is_white_space(c), c.is_whitespace(), "{code:x}");
        }
    }
}

#[test]
fn texts_are_searched() {
    assert!(contains_text("abcabd", "abd"));
    assert!(contains_text("abc", ""));
    assert!(!contains_text("ab", "abc"));
    assert!(!contains_text("", "a"));
    assert!(has_suffix("a.rar", ".rar"));
    assert!(has_suffix("a", ""));
    assert!(!has_suffix("r", ".rar"));
}

#[test]
fn lines_and_lists_are_written_as_std_writes_them() {
    for text in ["", "a", "a\nb", "a\r\nb", "a\r", "\na", "a\r\r\nb"] {
        assert_eq!(
            head_line(text),
            text.lines().next().unwrap_or(""),
            "{text:?}"
        );
    }
    let list = |items: &[&str]| items.iter().map(|s| s.to_string()).collect::<Vec<String>>();
    assert_eq!(join(&list(&[]), "; "), "");
    assert_eq!(join(&list(&["a"]), "; "), "a");
    assert_eq!(join(&list(&["a", "", "b"]), "; "), "a; ; b");
}

#[test]
fn texts_and_paths_are_ordered_as_std_orders_them() {
    let texts = ["", "a", "ab", "b", "A", "ä", "\u{10000}", "\u{ffff}"];
    for a in texts {
        for b in texts {
            assert_eq!(text_precedes(a, b), a < b, "{a:?} {b:?}");
        }
    }
    let paths: [&[&str]; 9] = [
        &["/"],
        &["/", "a"],
        &["/", "a", "b"],
        &["/", "a-b"],
        &["/", "a", ".."],
        &["."],
        &[".", "a"],
        &["a"],
        &[".."],
    ];
    for a in paths {
        for b in paths {
            let left: std::path::PathBuf = a.iter().collect();
            let right: std::path::PathBuf = b.iter().collect();
            assert_eq!(path_precedes(&path(a), &path(b)), left < right, "{a:?} {b:?}");
        }
    }
}

#[test]
fn sorting_keeps_texts_and_drops_equal_paths() {
    let list = ["b", "a", "b"].map(|s| s.to_string()).to_vec();
    assert_eq!(sorted_strings(list), ["a", "b", "b"]);
    let sorted = sorted_paths(vec![path(&["b"]), path(&["a"]), path(&["b"])]);
    let names: Vec<&str> = sorted.iter().map(|p| p.part(0)).collect();
    assert_eq!(names, ["a", "b"]);
}

#[test]
fn only_components_make_a_path() {
    let make = |parts: &[&str]| {
        FilePath::from_parts(parts.iter().map(|part| part.to_string()).collect()).is_some()
    };
    assert!(make(&[]));
    assert!(make(&["/", "a", "..", "b c"]));
    assert!(make(&[".", "a"]));
    assert!(!make(&["a", "."]));
    assert!(!make(&["a", "/"]));
    assert!(!make(&["a/b"]));
    assert!(make(&["C:/"]));
    assert!(make(&["C:/", "/", "job"]));
    assert!(make(&["C:/", "job"]));
    assert!(make(&["C:/", ".", "job"]));
    assert!(!make(&["C:", "/", "job"]));
    assert!(!make(&["/", "/"]));
    assert!(!make(&["a", "C:/"]));
    assert!(!make(&["C:/", "D:/"]));
    assert!(!make(&["//"]));
    assert!(!make(&["C:/", "/", "."]));
    assert!(!make(&[""]));
}

#[test]
fn paths_compare_by_components() {
    let a = path(&["/", "a", "b"]);
    assert!(a.starts_with(&path(&["/", "a"])));
    assert!(a.starts_with(&a));
    assert!(a.starts_with(&path(&[])));
    assert!(!a.starts_with(&path(&["/", "ab"])));
    assert!(!a.starts_with(&path(&["/", "a", "b", "c"])));
    assert!(a.same_as(&a.clone()));
    assert!(a.prefix(2).same_as(&path(&["/", "a"])));
    assert!(!a.same_as(&a.prefix(2)));
    assert!(a.safe_join("c/d").unwrap().same_as(&path(&["/", "a", "b", "c", "d"])));
    assert!(a.safe_join("../x").is_none());
    let drive = path(&["C:/", "/", "out"]);
    let below = drive.safe_join("a/b").unwrap();
    assert!(below.same_as(&path(&["C:/", "/", "out", "a", "b"])));
    assert!(below.starts_with(&drive));
    assert!(!below.starts_with(&path(&["D:/", "/", "out"])));
    assert!(path_precedes(&drive, &path(&["D:/", "/", "a"])));
    assert!(path_precedes(&path(&["D:/", "x"]), &path(&["/", "a"])));
    assert!(path_precedes(&path(&["D:/", "/", "x"]), &path(&["D:/", "a"])));
    assert!(path(&[]).safe_join("a").unwrap().same_as(&path(&["a"])));
}

//! The cleanup stage: which files leave the job's directories, and what the
//! stage reports.

use vstd::prelude::*;
use vstd::string::StringExecFns;
use vstd::utf8::encode_utf8;

use crate::extract::ExtractView;
use crate::order::{sorted_paths, strictly_sorted};
use crate::path::{is_below, law_below_is_more_components, path_views, FilePath};
use crate::stage::{stage_result, stage_view, StageResult, StageStatus};
use crate::text::{
    all_white, ascii_lowercase, decimal, decimal_text, ends_with_text, has_suffix, is_white,
    law_ending_is_standing_last, law_trimming_leaves_the_core, lower_text, slashed_text, texts, trim,
    trimmed, with_slashes,
};
use crate::wildcard::{wildcard_match, wildcard_matches};

verus! {

/// An unwanted extension as it is compared: trimmed, in lower case, with its
/// leading dot.
pub open spec fn extension_text(extension: Seq<char>) -> Seq<char> {
    let lower = lower_text(trimmed(extension));
    if lower.len() > 0 && lower[0] == '.' {
        lower
    } else {
        seq!['.'] + lower
    }
}

/// The unwanted extensions as they are compared, without the empty ones.
pub open spec fn extension_texts(extensions: Seq<Seq<char>>) -> Seq<Seq<char>> {
    extensions.map_values(|e: Seq<char>| extension_text(e)).filter(|e: Seq<char>| e.len() > 1)
}

/// A cleanup pattern as it is compared: with slashes for backslashes, in lower
/// case.
pub open spec fn pattern_text(pattern: Seq<char>) -> Seq<char> {
    lower_text(slashed_text(pattern))
}

/// The cleanup patterns as they are compared, without the empty ones.
pub open spec fn pattern_texts(patterns: Seq<Seq<char>>) -> Seq<Seq<char>> {
    patterns.map_values(|p: Seq<char>| pattern_text(p)).filter(|p: Seq<char>| p.len() > 0)
}

/// Whether the pattern matches the text, the case of ASCII letters aside.
pub open spec fn pattern_hits(pattern: Seq<char>, text: Seq<char>) -> bool {
    wildcard_matches(encode_utf8(pattern), encode_utf8(lower_text(text)))
}

/// Whether a file with the given path below its root, and the given name, is
/// unwanted.
pub open spec fn rules_hit(
    extensions: Seq<Seq<char>>,
    patterns: Seq<Seq<char>>,
    relative: Seq<char>,
    file_name: Seq<char>,
) -> bool {
    ||| exists|i: int|
        0 <= i < extensions.len() && ends_with_text(
            lower_text(file_name),
            #[trigger] extensions[i],
        )
    ||| exists|i: int|
        0 <= i < patterns.len() && (pattern_hits(
            #[trigger] patterns[i],
            slashed_text(relative),
        ) || pattern_hits(patterns[i], file_name))
}

/// The cleanup rules of a category.
#[derive(Debug)]
pub struct CleanupRules {
    extensions: Vec<String>,
    patterns: Vec<String>,
}

impl CleanupRules {
    /// The endings that make a file unwanted.
    pub closed spec fn extensions(&self) -> Seq<Seq<char>> {
        texts(self.extensions@)
    }

    /// The patterns that make a file unwanted.
    pub closed spec fn patterns(&self) -> Seq<Seq<char>> {
        texts(self.patterns@)
    }

    /// The rules given by patterns and by extensions.
    pub fn new(cleanup_patterns: &[String], unwanted_extensions: &[String]) -> (rules: CleanupRules)
        ensures
            rules.extensions() == extension_texts(texts(unwanted_extensions@)),
            rules.patterns() == pattern_texts(texts(cleanup_patterns@)),
    {
        CleanupRules {
            extensions: normalized_extensions(unwanted_extensions),
            patterns: normalized_patterns(cleanup_patterns),
        }
    }

    /// Whether the rules name the file with the given path below its root and
    /// the given name.
    pub fn hit(&self, relative: &str, file_name: &str) -> (unwanted: bool)
        ensures
            unwanted == rules_hit(self.extensions(), self.patterns(), relative@, file_name@),
    {
        let lower_name: String = ascii_lowercase(file_name);
        let mut i: usize = 0;
        while i < self.extensions.len()
            invariant
                i <= self.extensions@.len(),
                lower_name@ == lower_text(file_name@),
                forall|k: int|
                    0 <= k < i ==> !ends_with_text(
                        lower_text(file_name@),
                        #[trigger] self.extensions()[k],
                    ),
            decreases self.extensions@.len() - i,
        {
            if has_suffix(lower_name.as_str(), self.extensions[i].as_str()) {
                assert(ends_with_text(lower_text(file_name@), self.extensions()[i as int]));
                return true;
            }
            i = i + 1;
        }
        let slashed: String = with_slashes(relative);
        let lower_relative: String = ascii_lowercase(slashed.as_str());
        let mut j: usize = 0;
        while j < self.patterns.len()
            invariant
                j <= self.patterns@.len(),
                lower_name@ == lower_text(file_name@),
                lower_relative@ == lower_text(slashed_text(relative@)),
                forall|k: int|
                    0 <= k < j ==> !(pattern_hits(
                        #[trigger] self.patterns()[k],
                        slashed_text(relative@),
                    ) || pattern_hits(self.patterns()[k], file_name@)),
            decreases self.patterns@.len() - j,
        {
            let pattern: &str = self.patterns[j].as_str();
            assert(pattern@ == self.patterns()[j as int]);
            if wildcard_match(pattern, lower_relative.as_str()) || wildcard_match(
                pattern,
                lower_name.as_str(),
            ) {
                return true;
            }
            j = j + 1;
        }
        false
    }
}

/// The unwanted extensions as they are compared.
fn normalized_extensions(extensions: &[String]) -> (list: Vec<String>)
    ensures
        texts(list@) == extension_texts(texts(extensions@)),
{
    let ghost all = texts(extensions@).map_values(|e: Seq<char>| extension_text(e));
    let ghost keep = |e: Seq<char>| e.len() > 1;
    let mut list: Vec<String> = Vec::new();
    let mut i: usize = 0;
    assert(all.subrange(0, 0).filter(keep) =~= texts(list@)) by {
        reveal(Seq::filter);
    }
    while i < extensions.len()
        invariant
            i <= extensions@.len(),
            all == texts(extensions@).map_values(|e: Seq<char>| extension_text(e)),
            keep == (|e: Seq<char>| e.len() > 1),
            texts(list@) == all.subrange(0, i as int).filter(keep),
        decreases extensions@.len() - i,
    {
        let trimmed_text: String = trim(extensions[i].as_str());
        let lower: String = ascii_lowercase(trimmed_text.as_str());
        let chars: Vec<char> = crate::text::chars_of(lower.as_str());
        let mut text: String = String::new();
        if !(chars.len() > 0 && chars[0] == '.') {
            text.push('.');
        }
        text.append(lower.as_str());
        assert(text@ =~= all[i as int]);
        assert(all.subrange(0, i + 1).drop_last() =~= all.subrange(0, i as int));
        assert(all.subrange(0, i + 1).last() == all[i as int]);
        let long: bool = crate::text::chars_of(text.as_str()).len() > 1;
        if long {
            list.push(text);
        }
        assert(texts(list@) =~= all.subrange(0, i + 1).filter(keep)) by {
            reveal(Seq::filter);
        }
        i = i + 1;
    }
    assert(all.subrange(0, i as int) =~= all);
    list
}

/// The cleanup patterns as they are compared.
fn normalized_patterns(patterns: &[String]) -> (list: Vec<String>)
    ensures
        texts(list@) == pattern_texts(texts(patterns@)),
{
    let ghost all = texts(patterns@).map_values(|p: Seq<char>| pattern_text(p));
    let ghost keep = |p: Seq<char>| p.len() > 0;
    let mut list: Vec<String> = Vec::new();
    let mut i: usize = 0;
    assert(all.subrange(0, 0).filter(keep) =~= texts(list@)) by {
        reveal(Seq::filter);
    }
    while i < patterns.len()
        invariant
            i <= patterns@.len(),
            all == texts(patterns@).map_values(|p: Seq<char>| pattern_text(p)),
            keep == (|p: Seq<char>| p.len() > 0),
            texts(list@) == all.subrange(0, i as int).filter(keep),
        decreases patterns@.len() - i,
    {
        let slashed: String = with_slashes(patterns[i].as_str());
        let text: String = ascii_lowercase(slashed.as_str());
        assert(text@ =~= all[i as int]);
        assert(all.subrange(0, i + 1).drop_last() =~= all.subrange(0, i as int));
        assert(all.subrange(0, i + 1).last() == all[i as int]);
        if !text.as_str().is_empty() {
            list.push(text);
        }
        assert(texts(list@) =~= all.subrange(0, i + 1).filter(keep)) by {
            reveal(Seq::filter);
        }
        i = i + 1;
    }
    assert(all.subrange(0, i as int) =~= all);
    list
}

/// A path and whether a regular file, not a link, is there.
#[derive(Debug)]
pub struct CheckedPath {
    /// The path.
    pub path: FilePath,
    /// Whether a regular file is there.
    pub regular: bool,
}

/// Something met on a walk through a directory tree.
#[derive(Debug)]
pub struct WalkedFile {
    /// Its path.
    pub path: FilePath,
    /// Whether it is a regular file.
    pub regular: bool,
    /// Its path below the root of the walk.
    pub relative: String,
    /// Its name.
    pub file_name: String,
}

/// Whether `path` is one of the checked paths at which a regular file is.
pub open spec fn regular_path(paths: Seq<CheckedPath>, path: Seq<Seq<char>>) -> bool {
    exists|i: int| 0 <= i < paths.len() && (#[trigger] paths[i]).regular && paths[i].path@ == path
}

/// Whether `path` is that of a regular file, met on a walk, that the rules name.
pub open spec fn unwanted_path(
    walked: Seq<WalkedFile>,
    extensions: Seq<Seq<char>>,
    patterns: Seq<Seq<char>>,
    path: Seq<Seq<char>>,
) -> bool {
    exists|i: int|
        0 <= i < walked.len() && (#[trigger] walked[i]).regular && walked[i].path@ == path
            && rules_hit(extensions, patterns, walked[i].relative@, walked[i].file_name@)
}

/// Whether the cleanup stage is to remove the file at `path`: it was found by
/// its kind, or is an extracted archive and a regular file, or is a regular
/// file that the rules name.
pub open spec fn to_be_removed(
    found: Seq<Seq<Seq<char>>>,
    extracted: Seq<CheckedPath>,
    walked: Seq<WalkedFile>,
    extensions: Seq<Seq<char>>,
    patterns: Seq<Seq<char>>,
    path: Seq<Seq<char>>,
) -> bool {
    found.contains(path) || regular_path(extracted, path) || unwanted_path(
        walked,
        extensions,
        patterns,
        path,
    )
}

/// The files that the cleanup stage is to remove: those found by their kind,
/// the extracted archives that are regular files, and the regular files that
/// the rules name. Each comes once, in the order of paths.
pub fn cleanup_files(
    found: Vec<FilePath>,
    extracted: &Vec<CheckedPath>,
    walked: &Vec<WalkedFile>,
    rules: &CleanupRules,
) -> (files: Vec<FilePath>)
    ensures
        strictly_sorted(path_views(files@)),
        forall|path: Seq<Seq<char>>| #[trigger]
            path_views(files@).contains(path) <==> to_be_removed(
                path_views(found@),
                extracted@,
                walked@,
                rules.extensions(),
                rules.patterns(),
                path,
            ),
{
    let ghost first = path_views(found@);
    let mut all: Vec<FilePath> = found;
    let mut i: usize = 0;
    while i < extracted.len()
        invariant
            i <= extracted@.len(),
            forall|path: Seq<Seq<char>>| #[trigger]
                path_views(all@).contains(path) <==> first.contains(path) || regular_path(
                    extracted@.subrange(0, i as int),
                    path,
                ),
        decreases extracted@.len() - i,
    {
        let ghost before = path_views(all@);
        let ghost seen = extracted@.subrange(0, i as int);
        let ghost next = extracted@.subrange(0, i + 1);
        if extracted[i].regular {
            all.push(extracted[i].path.clone());
            assert(path_views(all@) =~= before.push(extracted@[i as int].path@));
        }
        assert forall|path: Seq<Seq<char>>| #[trigger]
            path_views(all@).contains(path) <==> first.contains(path) || regular_path(
                next,
                path,
            ) by {
            lemma_push_contains(before, extracted@[i as int].path@, path);
            if regular_path(seen, path) {
                let k = choose|k: int|
                    0 <= k < seen.len() && (#[trigger] seen[k]).regular && seen[k].path@ == path;
                assert(next[k] == seen[k]);
            }
            if regular_path(next, path) {
                let k = choose|k: int|
                    0 <= k < next.len() && (#[trigger] next[k]).regular && next[k].path@ == path;
                if k < i {
                    assert(seen[k] == next[k]);
                }
            }
            assert(next[i as int] == extracted@[i as int]);
            assert(before.contains(path) <==> first.contains(path) || regular_path(seen, path));
        }
        i = i + 1;
    }
    assert(extracted@.subrange(0, i as int) =~= extracted@);
    let ghost second = path_views(all@);
    let mut j: usize = 0;
    while j < walked.len()
        invariant
            j <= walked@.len(),
            forall|path: Seq<Seq<char>>| #[trigger]
                path_views(all@).contains(path) <==> second.contains(path) || unwanted_path(
                    walked@.subrange(0, j as int),
                    rules.extensions(),
                    rules.patterns(),
                    path,
                ),
        decreases walked@.len() - j,
    {
        let ghost before = path_views(all@);
        let ghost seen = walked@.subrange(0, j as int);
        let ghost next = walked@.subrange(0, j + 1);
        let file: &WalkedFile = &walked[j];
        if file.regular && rules.hit(file.relative.as_str(), file.file_name.as_str()) {
            all.push(file.path.clone());
            assert(path_views(all@) =~= before.push(walked@[j as int].path@));
        }
        assert forall|path: Seq<Seq<char>>| #[trigger]
            path_views(all@).contains(path) <==> second.contains(path) || unwanted_path(
                next,
                rules.extensions(),
                rules.patterns(),
                path,
            ) by {
            let hits = |w: WalkedFile|
                rules_hit(rules.extensions(), rules.patterns(), w.relative@, w.file_name@);
            lemma_push_contains(before, walked@[j as int].path@, path);
            if unwanted_path(seen, rules.extensions(), rules.patterns(), path) {
                let k = choose|k: int|
                    0 <= k < seen.len() && (#[trigger] seen[k]).regular && seen[k].path@ == path
                        && hits(seen[k]);
                assert(next[k] == seen[k]);
            }
            if unwanted_path(next, rules.extensions(), rules.patterns(), path) {
                let k = choose|k: int|
                    0 <= k < next.len() && (#[trigger] next[k]).regular && next[k].path@ == path
                        && hits(next[k]);
                if k < j {
                    assert(seen[k] == next[k]);
                }
            }
            assert(next[j as int] == walked@[j as int]);
            assert(before.contains(path) <==> second.contains(path) || unwanted_path(
                seen,
                rules.extensions(),
                rules.patterns(),
                path,
            ));
        }
        j = j + 1;
    }
    assert(walked@.subrange(0, j as int) =~= walked@);
    let ghost third = path_views(all@);
    let files: Vec<FilePath> = sorted_paths(all);
    assert forall|path: Seq<Seq<char>>| #[trigger]
        path_views(files@).contains(path) <==> third.contains(path) by {
        assert(path_views(files@).to_set().contains(path) == third.to_set().contains(path));
    }
    files
}

/// What a sequence holds after a push.
proof fn lemma_push_contains(list: Seq<Seq<Seq<char>>>, last: Seq<Seq<char>>, x: Seq<Seq<char>>)
    ensures
        list.push(last).contains(x) <==> list.contains(x) || x == last,
{
    let longer = list.push(last);
    assert(longer[list.len() as int] == last);
    if list.contains(x) {
        let k = choose|k: int| 0 <= k < list.len() && list[k] == x;
        assert(longer[k] == x);
    }
    if longer.contains(x) && x != last {
        let k = choose|k: int| 0 <= k < longer.len() && longer[k] == x;
        assert(list[k] == x);
    }
}

/// Whether the cleanup stage may remove the file at `path`: it lies below one
/// of the two roots, and a regular file is there.
pub open spec fn removable(
    path: Seq<Seq<char>>,
    job_dir: Seq<Seq<char>>,
    cleanup_root: Seq<Seq<char>>,
    regular: bool,
) -> bool {
    regular && (is_below(path, job_dir) || is_below(path, cleanup_root))
}

/// Whether the cleanup stage may remove the file at `path`: it lies below one
/// of the two roots, and a regular file is there.
pub fn may_remove(
    path: &FilePath,
    job_dir: &FilePath,
    cleanup_root: &FilePath,
    regular: bool,
) -> (allowed: bool)
    ensures
        allowed == removable(path@, job_dir@, cleanup_root@, regular),
{
    (path.starts_with(job_dir) || path.starts_with(cleanup_root)) && regular
}

/// What became of one file that was to be removed.
#[derive(Debug, Clone, Copy, PartialEq, Eq, Structural)]
pub enum Removal {
    /// It is gone.
    Removed,
    /// It could not be removed.
    Failed,
    /// It was left alone, see `may_remove`.
    Refused,
}

/// How many of the outcomes are removals.
pub open spec fn removed_count(outcomes: Seq<Removal>) -> nat
    decreases outcomes.len(),
{
    if outcomes.len() == 0 {
        0
    } else {
        removed_count(outcomes.drop_last()) + if outcomes.last() == Removal::Removed {
            1nat
        } else {
            0nat
        }
    }
}

/// What the cleanup stage says: how many files it removed, how many it did not.
pub open spec fn cleanup_message(removed: nat, errors: nat) -> Seq<char> {
    "Removed "@ + decimal_text(removed) + " files, "@ + decimal_text(errors) + " errors"@
}

/// The report of a cleanup stage whose files ended as `outcomes` tells.
pub open spec fn cleanup_view(outcomes: Seq<Removal>, duration_nanos: u64) -> crate::stage::StageView {
    let removed = removed_count(outcomes);
    let errors = (outcomes.len() - removed) as nat;
    if outcomes.len() == 0 {
        stage_view("Cleanup"@, StageStatus::Skipped, "No files to clean up"@, duration_nanos)
    } else if errors == 0 {
        stage_view(
            "Cleanup"@,
            StageStatus::Success,
            cleanup_message(removed, errors),
            duration_nanos,
        )
    } else {
        stage_view(
            "Cleanup"@,
            StageStatus::Failed,
            cleanup_message(removed, errors),
            duration_nanos,
        )
    }
}

/// The report of the cleanup stage.
pub fn cleanup_result(outcomes: &Vec<Removal>, duration_nanos: u64) -> (result: StageResult)
    ensures
        result@ == cleanup_view(outcomes@, duration_nanos),
{
    if outcomes.len() == 0 {
        return stage_result(
            "Cleanup",
            StageStatus::Skipped,
            "No files to clean up".to_owned(),
            duration_nanos,
        );
    }
    let mut removed: u64 = 0;
    let mut errors: u64 = 0;
    let mut i: usize = 0;
    assert(outcomes@.subrange(0, 0).len() == 0);
    while i < outcomes.len()
        invariant
            i <= outcomes@.len(),
            removed + errors == i,
            removed == removed_count(outcomes@.subrange(0, i as int)),
        decreases outcomes@.len() - i,
    {
        assert(outcomes@.subrange(0, i + 1).drop_last() =~= outcomes@.subrange(0, i as int));
        if outcomes[i] == Removal::Removed {
            removed = removed + 1;
        } else {
            errors = errors + 1;
        }
        i = i + 1;
    }
    assert(outcomes@.subrange(0, i as int) =~= outcomes@);
    let status: StageStatus = if errors == 0 {
        StageStatus::Success
    } else {
        StageStatus::Failed
    };
    let mut message: String = "Removed ".to_owned();
    message.append(decimal(removed).as_str());
    message.append(" files, ");
    message.append(decimal(errors).as_str());
    message.append(" errors");
    assert(message@ =~= cleanup_message(removed as nat, errors as nat));
    stage_result("Cleanup", status, message, duration_nanos)
}

/// No more files are removed than there were to remove.
proof fn lemma_removed_count(outcomes: Seq<Removal>)
    ensures
        removed_count(outcomes) <= outcomes.len(),
        removed_count(outcomes) == outcomes.len() <==> forall|i: int|
            0 <= i < outcomes.len() ==> #[trigger] outcomes[i] == Removal::Removed,
    decreases outcomes.len(),
{
    if outcomes.len() > 0 {
        let earlier = outcomes.drop_last();
        lemma_removed_count(earlier);
        assert forall|i: int| 0 <= i < earlier.len() implies #[trigger] earlier[i]
            == outcomes[i] by {}
        if removed_count(outcomes) == outcomes.len() {
            assert forall|i: int| 0 <= i < outcomes.len() implies #[trigger] outcomes[i]
                == Removal::Removed by {
                if i < earlier.len() {
                    assert(earlier[i] == Removal::Removed);
                }
            }
        }
        if forall|i: int| 0 <= i < outcomes.len() ==> #[trigger] outcomes[i] == Removal::Removed {
            assert(outcomes.last() == Removal::Removed);
        }
    }
}

/// A cleanup with something to remove succeeds if and only if all of it is gone.
pub proof fn law_cleanup_succeeds_when_all_is_gone(outcomes: Seq<Removal>, duration_nanos: u64)
    requires
        outcomes.len() > 0,
    ensures
        cleanup_view(outcomes, duration_nanos).status == StageStatus::Success <==> forall|i: int|
            0 <= i < outcomes.len() ==> #[trigger] outcomes[i] == Removal::Removed,
{
    lemma_removed_count(outcomes);
}

/// The rules go by lower case, so the case of ASCII letters in the name and in
/// the path of a file does not matter.
pub proof fn law_rules_ignore_case(
    extensions: Seq<Seq<char>>,
    patterns: Seq<Seq<char>>,
    relative: Seq<char>,
    file_name: Seq<char>,
)
    ensures
        rules_hit(extensions, patterns, lower_text(relative), lower_text(file_name)) == rules_hit(
            extensions,
            patterns,
            relative,
            file_name,
        ),
{
    assert(lower_text(lower_text(file_name)) =~= lower_text(file_name));
    assert(lower_text(slashed_text(lower_text(relative))) =~= lower_text(slashed_text(relative)));
    assert forall|pattern: Seq<char>|
        pattern_hits(pattern, slashed_text(lower_text(relative))) == pattern_hits(
            pattern,
            slashed_text(relative),
        ) by {}
    assert forall|pattern: Seq<char>|
        pattern_hits(pattern, lower_text(file_name)) == pattern_hits(pattern, file_name) by {}
}

/// Without rules no file is unwanted.
pub proof fn law_no_rules_name_no_file(relative: Seq<char>, file_name: Seq<char>)
    ensures
        !rules_hit(
            extension_texts(Seq::empty()),
            pattern_texts(Seq::empty()),
            relative,
            file_name,
        ),
{
    reveal(Seq::filter);
}

/// An archive that was in the output directory before the extract stage is not
/// removed, unless it is found by its kind in the job's directory or the rules
/// name it.
pub proof fn law_unrelated_archives_are_kept(
    run: ExtractView,
    found: Seq<Seq<Seq<char>>>,
    extracted: Seq<CheckedPath>,
    walked: Seq<WalkedFile>,
    extensions: Seq<Seq<char>>,
    patterns: Seq<Seq<char>>,
    path: Seq<Seq<char>>,
)
    requires
        run.takes_each_once(),
        forall|i: int|
            0 <= i < extracted.len() ==> run.taken.contains((#[trigger] extracted[i]).path@),
        run.present.contains(path),
        !found.contains(path),
        !unwanted_path(walked, extensions, patterns, path),
    ensures
        !to_be_removed(found, extracted, walked, extensions, patterns, path),
{
    if regular_path(extracted, path) {
        let i = choose|i: int|
            0 <= i < extracted.len() && (#[trigger] extracted[i]).regular && extracted[i].path@
                == path;
        assert(run.taken.contains(extracted[i].path@));
        let k = choose|k: int| 0 <= k < run.taken.len() && run.taken[k] == path;
        assert(!run.present.contains(run.taken[k]));
    }
}

/// Every rule counts, wherever it stands: a file whose name, in lower case, is
/// something and the ending at any position is unwanted, and so is one whose path
/// below the root, with slashes and in lower case, or whose name, in lower case,
/// matches the pattern at any position.
pub proof fn law_every_rule_counts(
    extensions: Seq<Seq<char>>,
    patterns: Seq<Seq<char>>,
    relative: Seq<char>,
    file_name: Seq<char>,
    stem: Seq<char>,
    i: int,
)
    ensures
        0 <= i < extensions.len() && lower_text(file_name) == stem + extensions[i] ==> rules_hit(
            extensions,
            patterns,
            relative,
            file_name,
        ),
        0 <= i < patterns.len() && wildcard_matches(
            encode_utf8(patterns[i]),
            encode_utf8(lower_text(slashed_text(relative))),
        ) ==> rules_hit(extensions, patterns, relative, file_name),
        0 <= i < patterns.len() && wildcard_matches(
            encode_utf8(patterns[i]),
            encode_utf8(lower_text(file_name)),
        ) ==> rules_hit(extensions, patterns, relative, file_name),
{
    if 0 <= i < extensions.len() && lower_text(file_name) == stem + extensions[i] {
        law_ending_is_standing_last(lower_text(file_name), extensions[i]);
        assert(ends_with_text(lower_text(file_name), extensions[i]));
    }
    if 0 <= i < patterns.len() && pattern_hits(patterns[i], slashed_text(relative)) {
        assert(pattern_hits(patterns[i], slashed_text(relative)));
    }
    if 0 <= i < patterns.len() && pattern_hits(patterns[i], file_name) {
        assert(pattern_hits(patterns[i], slashed_text(relative)) || pattern_hits(
            patterns[i],
            file_name,
        ));
    }
}

/// Nothing but a rule makes a file unwanted: of one that is, the name ends, in
/// lower case, with one of the endings, or the path or the name matches one of the
/// patterns.
pub proof fn law_only_rules_count(
    extensions: Seq<Seq<char>>,
    patterns: Seq<Seq<char>>,
    relative: Seq<char>,
    file_name: Seq<char>,
)
    requires
        rules_hit(extensions, patterns, relative, file_name),
    ensures
        ({
            ||| exists|i: int, stem: Seq<char>|
                0 <= i < extensions.len() && #[trigger] (stem + extensions[i]) == lower_text(
                    file_name,
                )
            ||| exists|i: int|
                0 <= i < patterns.len() && (wildcard_matches(
                    encode_utf8(#[trigger] patterns[i]),
                    encode_utf8(lower_text(slashed_text(relative))),
                ) || wildcard_matches(
                    encode_utf8(patterns[i]),
                    encode_utf8(lower_text(file_name)),
                ))
        }),
{
    if exists|i: int|
        0 <= i < extensions.len() && ends_with_text(
            lower_text(file_name),
            #[trigger] extensions[i],
        ) {
        let i = choose|i: int|
            0 <= i < extensions.len() && ends_with_text(
                lower_text(file_name),
                #[trigger] extensions[i],
            );
        law_ending_is_standing_last(lower_text(file_name), extensions[i]);
        let stem = choose|stem: Seq<char>| #[trigger] (stem + extensions[i]) == lower_text(
            file_name,
        );
        assert((stem + extensions[i]) == lower_text(file_name));
    } else {
        let i = choose|i: int|
            0 <= i < patterns.len() && (pattern_hits(
                #[trigger] patterns[i],
                slashed_text(relative),
            ) || pattern_hits(patterns[i], file_name));
        assert(pattern_hits(patterns[i], slashed_text(relative)) || pattern_hits(
            patterns[i],
            file_name,
        ));
    }
}

/// More rules, before or after the others, never make an unwanted file wanted, and
/// turning the rules round changes nothing.
pub proof fn law_more_rules_name_more_files(
    extensions: Seq<Seq<char>>,
    patterns: Seq<Seq<char>>,
    more_extensions: Seq<Seq<char>>,
    more_patterns: Seq<Seq<char>>,
    relative: Seq<char>,
    file_name: Seq<char>,
)
    ensures
        rules_hit(extensions + more_extensions, patterns + more_patterns, relative, file_name)
            == rules_hit(
            more_extensions + extensions,
            more_patterns + patterns,
            relative,
            file_name,
        ),
        rules_hit(extensions + more_extensions, patterns + more_patterns, relative, file_name) == (
        rules_hit(extensions, patterns, relative, file_name) || rules_hit(
            more_extensions,
            more_patterns,
            relative,
            file_name,
        )),
{
    lemma_rules_add(extensions, patterns, more_extensions, more_patterns, relative, file_name);
    lemma_rules_add(more_extensions, more_patterns, extensions, patterns, relative, file_name);
}

proof fn lemma_rules_add(
    e: Seq<Seq<char>>,
    p: Seq<Seq<char>>,
    f: Seq<Seq<char>>,
    q: Seq<Seq<char>>,
    relative: Seq<char>,
    file_name: Seq<char>,
)
    ensures
        rules_hit(e + f, p + q, relative, file_name) == (rules_hit(e, p, relative, file_name)
            || rules_hit(f, q, relative, file_name)),
{
    let lower = lower_text(file_name);
    let hits = |pattern: Seq<char>|
        pattern_hits(pattern, slashed_text(relative)) || pattern_hits(pattern, file_name);
    if rules_hit(e, p, relative, file_name) {
        if exists|i: int| 0 <= i < e.len() && ends_with_text(lower, #[trigger] e[i]) {
            let i = choose|i: int| 0 <= i < e.len() && ends_with_text(lower, #[trigger] e[i]);
            assert((e + f)[i] == e[i]);
        } else {
            let i = choose|i: int| 0 <= i < p.len() && hits(#[trigger] p[i]);
            assert((p + q)[i] == p[i]);
        }
    }
    if rules_hit(f, q, relative, file_name) {
        if exists|i: int| 0 <= i < f.len() && ends_with_text(lower, #[trigger] f[i]) {
            let i = choose|i: int| 0 <= i < f.len() && ends_with_text(lower, #[trigger] f[i]);
            assert((e + f)[e.len() + i] == f[i]);
        } else {
            let i = choose|i: int| 0 <= i < q.len() && hits(#[trigger] q[i]);
            assert((p + q)[p.len() + i] == q[i]);
        }
    }
    if rules_hit(e + f, p + q, relative, file_name) {
        if exists|i: int|
            0 <= i < (e + f).len() && ends_with_text(lower, #[trigger] (e + f)[i]) {
            let i = choose|i: int|
                0 <= i < (e + f).len() && ends_with_text(lower, #[trigger] (e + f)[i]);
            if i < e.len() {
                assert(ends_with_text(lower, e[i]));
            } else {
                assert(ends_with_text(lower, f[i - e.len()]));
            }
        } else {
            let i = choose|i: int| 0 <= i < (p + q).len() && hits(#[trigger] (p + q)[i]);
            if i < p.len() {
                assert(hits(p[i]));
            } else {
                assert(hits(q[i - p.len()]));
            }
        }
    }
}

/// What an extension means, however it is written: with white space round it, in
/// any case, with or without its dot, it is the dot and the extension in lower
/// case. One that is nothing but white space, or a dot, is left out; all others
/// are kept, in their order.
pub proof fn law_extensions_mean_endings(
    before: Seq<char>,
    core: Seq<char>,
    after: Seq<char>,
    a: Seq<Seq<char>>,
    b: Seq<Seq<char>>,
)
    requires
        all_white(before),
        all_white(after),
        core.len() > 0,
        !is_white(core[0]),
        !is_white(core.last()),
    ensures
        core[0] != '.' ==> extension_text(before + core + after) == seq!['.'] + lower_text(core),
        core[0] != '.' ==> extension_texts(seq![before + core + after]) == seq![
            seq!['.'] + lower_text(core),
        ],
        extension_text(before + (seq!['.'] + core) + after) == seq!['.'] + lower_text(core),
        extension_texts(seq![before + (seq!['.'] + core) + after]) == seq![
            seq!['.'] + lower_text(core),
        ],
        extension_texts(seq![before]) == Seq::<Seq<char>>::empty(),
        extension_texts(seq![before + seq!['.'] + after]) == Seq::<Seq<char>>::empty(),
        extension_texts(a + b) == extension_texts(a) + extension_texts(b),
{
    let to = |e: Seq<char>| extension_text(e);
    let keep = |e: Seq<char>| e.len() > 1;
    let dotted = seq!['.'] + core;
    assert(dotted[0] == '.' && dotted.last() == core.last());
    law_trimming_leaves_the_core(before, core, after);
    law_trimming_leaves_the_core(before, dotted, after);
    law_trimming_leaves_the_core(before, seq!['.'], after);
    assert(core[0] != '.' ==> lower_text(core)[0] != '.');
    assert(lower_text(dotted) =~= seq!['.'] + lower_text(core));
    assert(lower_text(seq!['.']) =~= seq!['.']);
    assert(lower_text(trimmed(before)).len() == 0);
    lemma_keep_one(before + core + after);
    lemma_keep_one(before + dotted + after);
    lemma_keep_one(before);
    lemma_keep_one(before + seq!['.'] + after);
    assert((a + b).map_values(to) =~= a.map_values(to) + b.map_values(to));
    Seq::filter_distributes_over_add(a.map_values(to), b.map_values(to), keep);
}

proof fn lemma_keep_one(extension: Seq<char>)
    ensures
        extension_texts(seq![extension]) == if extension_text(extension).len() > 1 {
            seq![extension_text(extension)]
        } else {
            Seq::empty()
        },
{
    let keep = |e: Seq<char>| e.len() > 1;
    let none = Seq::<Seq<char>>::empty();
    let text = extension_text(extension);
    assert(seq![extension].map_values(|e: Seq<char>| extension_text(e)) =~= none.push(text));
    assert(none.filter(keep) =~= none) by {
        reveal(Seq::filter);
    }
    none.lemma_filter_push(text, keep);
    assert(none.push(text) =~= seq![text]);
}

/// What a pattern means: itself in lower case with slashes for backslashes. The
/// empty one is left out; all others are kept, in their order.
pub proof fn law_patterns_mean_themselves(pattern: Seq<char>, a: Seq<Seq<char>>, b: Seq<Seq<char>>)
    ensures
        pattern_texts(seq![pattern]) == if pattern.len() == 0 {
            Seq::<Seq<char>>::empty()
        } else {
            seq![lower_text(slashed_text(pattern))]
        },
        pattern_texts(a + b) == pattern_texts(a) + pattern_texts(b),
{
    let to = |p: Seq<char>| pattern_text(p);
    let keep = |p: Seq<char>| p.len() > 0;
    let none = Seq::<Seq<char>>::empty();
    let text = pattern_text(pattern);
    assert(seq![pattern].map_values(to) =~= none.push(text));
    assert(none.filter(keep) =~= none) by {
        reveal(Seq::filter);
    }
    none.lemma_filter_push(text, keep);
    assert(none.push(text) =~= seq![text]);
    assert((a + b).map_values(to) =~= a.map_values(to) + b.map_values(to));
    Seq::filter_distributes_over_add(a.map_values(to), b.map_values(to), keep);
}

/// An unwanted extension as it was given, at any position among the others and
/// whatever else was given, makes a file unwanted whose name is something, a dot
/// and the extension, the case aside.
pub proof fn law_every_given_extension_counts(
    earlier: Seq<Seq<char>>,
    core: Seq<char>,
    later: Seq<Seq<char>>,
    patterns: Seq<Seq<char>>,
    relative: Seq<char>,
    file_name: Seq<char>,
    stem: Seq<char>,
)
    requires
        core.len() > 0,
        core[0] != '.',
        !is_white(core[0]),
        !is_white(core.last()),
        lower_text(file_name) == stem + seq!['.'] + lower_text(core),
    ensures
        rules_hit(
            extension_texts(earlier + seq![core] + later),
            pattern_texts(patterns),
            relative,
            file_name,
        ),
{
    let none = Seq::<char>::empty();
    let given = extension_texts(earlier + seq![core] + later);
    law_extensions_mean_endings(none, core, none, earlier + seq![core], later);
    law_extensions_mean_endings(none, core, none, earlier, seq![core]);
    assert(none + core + none =~= core);
    let ending = seq!['.'] + lower_text(core);
    let at = extension_texts(earlier).len() as int;
    assert(given =~= extension_texts(earlier) + seq![ending] + extension_texts(later));
    assert(given[at] == ending);
    assert(stem + seq!['.'] + lower_text(core) =~= stem + ending);
    law_every_rule_counts(given, pattern_texts(patterns), relative, file_name, stem, at);
}

/// What the cleanup stage is to remove: everything that was found by its kind,
/// every extracted archive that is a regular file, every regular file of a walk
/// that the rules name, and nothing else.
pub proof fn law_what_is_removed(
    found: Seq<Seq<Seq<char>>>,
    extracted: Seq<CheckedPath>,
    walked: Seq<WalkedFile>,
    extensions: Seq<Seq<char>>,
    patterns: Seq<Seq<char>>,
    path: Seq<Seq<char>>,
)
    ensures
        to_be_removed(found, extracted, walked, extensions, patterns, path) <==> {
            ||| exists|i: int| 0 <= i < found.len() && #[trigger] found[i] == path
            ||| exists|i: int|
                0 <= i < extracted.len() && (#[trigger] extracted[i]).regular && extracted[i].path@
                    == path
            ||| exists|i: int|
                0 <= i < walked.len() && (#[trigger] walked[i]).regular && walked[i].path@ == path
                    && rules_hit(extensions, patterns, walked[i].relative@, walked[i].file_name@)
        },
{
    if exists|i: int| 0 <= i < found.len() && #[trigger] found[i] == path {
        assert(found.contains(path));
    }
}

/// What the cleanup stage reports: it is skipped with nothing to remove, fails if
/// something is left, and tells how many files are gone and how many are not,
/// which together are all.
pub proof fn law_what_cleanup_reports(a: Seq<Removal>, b: Seq<Removal>, duration_nanos: u64)
    ensures
        removed_count(a + b) == removed_count(a) + removed_count(b),
        removed_count(seq![Removal::Removed]) == 1,
        removed_count(seq![Removal::Failed]) == 0,
        removed_count(seq![Removal::Refused]) == 0,
        a.len() == 0 ==> cleanup_view(a, duration_nanos) == (crate::stage::StageView {
            name: "Cleanup"@,
            status: StageStatus::Skipped,
            message: Some("No files to clean up"@),
            duration_nanos,
        }),
        a.len() > 0 ==> cleanup_view(a, duration_nanos) == (crate::stage::StageView {
            name: "Cleanup"@,
            status: if removed_count(a) == a.len() {
                StageStatus::Success
            } else {
                StageStatus::Failed
            },
            message: Some(
                "Removed "@ + decimal_text(removed_count(a)) + " files, "@ + decimal_text(
                    (a.len() - removed_count(a)) as nat,
                ) + " errors"@,
            ),
            duration_nanos,
        }),
    decreases b.len(),
{
    reveal_with_fuel(removed_count, 2);
    lemma_removed_count(a);
    assert(seq![Removal::Removed].drop_last().len() == 0);
    assert(seq![Removal::Failed].drop_last().len() == 0);
    assert(seq![Removal::Refused].drop_last().len() == 0);
    if b.len() == 0 {
        assert(a + b =~= a);
    } else {
        law_what_cleanup_reports(a, b.drop_last(), duration_nanos);
        assert((a + b).drop_last() =~= a + b.drop_last());
    }
}

/// What may be removed: exactly a regular file whose path is one of the two roots
/// and more components.
pub proof fn law_what_may_be_removed(
    path: Seq<Seq<char>>,
    job_dir: Seq<Seq<char>>,
    cleanup_root: Seq<Seq<char>>,
)
    ensures
        !removable(path, job_dir, cleanup_root, false),
        removable(path, job_dir, cleanup_root, true) <==> {
            ||| exists|rest: Seq<Seq<char>>| #[trigger] (job_dir + rest) == path
            ||| exists|rest: Seq<Seq<char>>| #[trigger] (cleanup_root + rest) == path
        },
{
    law_below_is_more_components(path, job_dir);
    law_below_is_more_components(path, cleanup_root);
}

} // verus!

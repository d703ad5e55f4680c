//! PAR2-guided deobfuscation.
//!
//! Obfuscated posts carry readable names in one place and the original names in
//! another. PAR2 records, for each file, its name and a hash of its first
//! 16 KiB; a file that carries another name is recognised by that hash.

use vstd::prelude::*;
use vstd::utf8::is_ascii_chars;

use crate::text::{ends_with_text, has_suffix, lower_text};

verus! {

/// A file as PAR2 knows it.
#[derive(Debug)]
pub struct ExpectedFile {
    /// The MD5 hash of its first 16 KiB.
    pub hash_16k: u128,
    /// Its name.
    pub filename: String,
}

/// What an `ExpectedFile` holds.
pub struct ExpectedView {
    pub hash_16k: u128,
    pub filename: Seq<char>,
}

impl View for ExpectedFile {
    type V = ExpectedView;

    open spec fn view(&self) -> ExpectedView {
        ExpectedView { hash_16k: self.hash_16k, filename: self.filename@ }
    }
}

/// What a list of expected files holds.
pub open spec fn expected_views(files: Seq<ExpectedFile>) -> Seq<ExpectedView> {
    files.map_values(|f: ExpectedFile| f@)
}

/// The name of the file with the given hash; the last one of several.
pub open spec fn expected_name(expected: Seq<ExpectedView>, hash: u128) -> Option<Seq<char>>
    decreases expected.len(),
{
    if expected.len() == 0 {
        None
    } else if expected.last().hash_16k == hash {
        Some(expected.last().filename)
    } else {
        expected_name(expected.drop_last(), hash)
    }
}

/// The lowercase form of a text, as `str::to_lowercase` gives it.
pub uninterp spec fn lowered_text(text: Seq<char>) -> Seq<char>;

/// `str::to_lowercase` gives the lowercase form of a text; of ASCII text it
/// lowers the letters and keeps the rest.
#[verifier::external_body]
fn to_lowercase(text: &str) -> (lower: String)
    ensures
        lower@ == lowered_text(text@),
        is_ascii_chars(text@) ==> lower@ == lower_text(text@),
{
    text.to_lowercase()
}

/// Whether the lowercase form of a name ends with `.par2`.
pub open spec fn is_par2_text(lower: Seq<char>) -> bool {
    ends_with_text(lower, ".par2"@)
}

/// Whether the lowercase form of a name is that of a PAR2 file.
pub fn is_par2_lowercase(lower: &str) -> (par2: bool)
    ensures
        par2 == is_par2_text(lower@),
{
    has_suffix(lower, ".par2")
}

/// Whether the name is that of a PAR2 file, in upper or lower case.
pub fn is_par2_name(name: &str) -> (par2: bool)
    ensures
        par2 == is_par2_text(lowered_text(name@)),
        is_ascii_chars(name@) ==> par2 == is_par2_text(lower_text(name@)),
{
    let lower: String = to_lowercase(name);
    is_par2_lowercase(lower.as_str())
}

/// A new name for a file, if nothing has it yet.
#[derive(Debug)]
pub struct NewName {
    name: String,
}

impl NewName {
    /// The new name.
    pub closed spec fn text(&self) -> Seq<char> {
        self.name@
    }

    /// The new name.
    pub fn as_str(&self) -> (name: &str)
        ensures
            name@ == self.text(),
    {
        self.name.as_str()
    }

    /// The new name, unless something has it already.
    pub fn confirm(self, taken: bool) -> (name: Option<String>)
        ensures
            name is None <==> taken,
            name matches Some(n) ==> n@ == self.text(),
    {
        if taken {
            None
        } else {
            Some(self.name)
        }
    }
}

/// The new name of a file with the given name and hash, if it is to have one.
pub open spec fn new_name(
    expected: Seq<ExpectedView>,
    current: Seq<char>,
    hash: Option<u128>,
) -> Option<Seq<char>> {
    match hash {
        None => None,
        Some(h) => match expected_name(expected, h) {
            None => None,
            Some(name) => if name == current {
                None
            } else {
                Some(name)
            },
        },
    }
}

/// Whether one of the expected files is present.
pub open spec fn some_present(present: Seq<bool>) -> bool {
    present.contains(true)
}

/// Whether something in a directory is looked at: a regular file with a readable
/// name that is not that of a PAR2 file.
pub open spec fn is_looked_at(is_file: bool, name: Option<Seq<char>>) -> bool {
    is_file && (name matches Some(n) && !is_par2_text(lowered_text(n)))
}

/// The renaming of the files in a directory to the names that PAR2 expects.
#[derive(Debug)]
pub struct RenamePlan {
    expected: Vec<ExpectedFile>,
}

impl RenamePlan {
    /// The files that PAR2 knows.
    pub closed spec fn expected(&self) -> Seq<ExpectedView> {
        expected_views(self.expected@)
    }

    /// The renaming to the names of the expected files, given for each whether
    /// it is present. One that is present means that nothing is to be renamed.
    pub fn new(expected: Vec<ExpectedFile>, present: &[bool]) -> (plan: Option<RenamePlan>)
        ensures
            plan is None <==> some_present(present@),
            plan matches Some(p) ==> p.expected() == expected_views(expected@),
    {
        let mut i: usize = 0;
        while i < present.len()
            invariant
                i <= present@.len(),
                forall|k: int| 0 <= k < i ==> !#[trigger] present@[k],
            decreases present@.len() - i,
        {
            if present[i] {
                assert(present@[i as int]);
                return None;
            }
            i = i + 1;
        }
        Some(RenamePlan { expected })
    }

    /// Whether the hash of a directory entry is wanted: it is a regular file
    /// with a name in UTF-8, and not a PAR2 file.
    pub fn wants_hash(&self, is_file: bool, name: Option<&str>) -> (wanted: bool)
        ensures
            wanted == is_looked_at(
                is_file,
                match name {
                    Some(n) => Some(n@),
                    None => None,
                },
            ),
    {
        match name {
            None => false,
            Some(n) => is_file && !is_par2_name(n),
        }
    }

    /// The new name of a file with the given name and hash. There is none
    /// without a hash, with a hash that PAR2 does not know, and for a file that
    /// has its name already.
    pub fn target(&self, current_name: &str, hash: Option<u128>) -> (target: Option<NewName>)
        ensures
            match target {
                None => new_name(self.expected(), current_name@, hash) is None,
                Some(t) => new_name(self.expected(), current_name@, hash) == Some(t.text()),
            },
    {
        let wanted: u128 = match hash {
            None => {
                return None;
            },
            Some(h) => h,
        };
        let mut n: usize = self.expected.len();
        assert(self.expected().subrange(0, n as int) =~= self.expected());
        while n > 0
            invariant
                n <= self.expected@.len(),
                hash == Some(wanted),
                expected_name(self.expected(), wanted) == expected_name(
                    self.expected().subrange(0, n as int),
                    wanted,
                ),
            decreases n,
        {
            let ghost prefix = self.expected().subrange(0, n as int);
            assert(prefix.last() == self.expected@[n - 1]@);
            assert(prefix.drop_last() =~= self.expected().subrange(0, n - 1));
            let file: &ExpectedFile = &self.expected[n - 1];
            if file.hash_16k == wanted {
                let name: String = file.filename.clone();
                let current: String = current_name.to_owned();
                if name == current {
                    return None;
                }
                return Some(NewName { name });
            }
            n = n - 1;
        }
        None
    }
}

// ---------------------------------------------------------------------------
// What a pass over a directory does
// ---------------------------------------------------------------------------

/// The directory after the file `name` has been looked at. A directory is given
/// by the names of its files and the hashes of their first 16 KiB.
pub open spec fn after_rename(
    dir: Map<Seq<char>, u128>,
    expected: Seq<ExpectedView>,
    name: Seq<char>,
) -> Map<Seq<char>, u128> {
    if !dir.contains_key(name) || is_par2_text(lowered_text(name)) {
        dir
    } else {
        match new_name(expected, name, Some(dir[name])) {
            None => dir,
            Some(target) => if dir.contains_key(target) {
                dir
            } else {
                dir.remove(name).insert(target, dir[name])
            },
        }
    }
}

/// The directory after the files in `order` have been looked at one by one.
pub open spec fn after_renames(
    dir: Map<Seq<char>, u128>,
    expected: Seq<ExpectedView>,
    order: Seq<Seq<char>>,
) -> Map<Seq<char>, u128>
    decreases order.len(),
{
    if order.len() == 0 {
        dir
    } else {
        after_rename(
            after_renames(dir, expected, order.drop_last()),
            expected,
            order.last(),
        )
    }
}

/// Whether one of the expected files is in the directory.
pub open spec fn any_present(dir: Map<Seq<char>, u128>, expected: Seq<ExpectedView>) -> bool {
    exists|i: int| 0 <= i < expected.len() && dir.contains_key((#[trigger] expected[i]).filename)
}

/// The directory after a pass: unchanged if one of the expected files is there.
pub open spec fn after_pass(
    dir: Map<Seq<char>, u128>,
    expected: Seq<ExpectedView>,
    order: Seq<Seq<char>>,
) -> Map<Seq<char>, u128> {
    if any_present(dir, expected) {
        dir
    } else {
        after_renames(dir, expected, order)
    }
}

/// Renaming loses no file and makes none: there are as many files after a pass
/// as before, with the same contents among them.
pub proof fn law_renames_keep_every_file(
    dir: Map<Seq<char>, u128>,
    expected: Seq<ExpectedView>,
    order: Seq<Seq<char>>,
)
    requires
        dir.dom().finite(),
    ensures
        after_pass(dir, expected, order).dom().finite(),
        after_pass(dir, expected, order).dom().len() == dir.dom().len(),
        after_pass(dir, expected, order).values() == dir.values(),
{
    lemma_renames_keep_every_file(dir, expected, order);
}

proof fn lemma_renames_keep_every_file(
    dir: Map<Seq<char>, u128>,
    expected: Seq<ExpectedView>,
    order: Seq<Seq<char>>,
)
    requires
        dir.dom().finite(),
    ensures
        after_renames(dir, expected, order).dom().finite(),
        after_renames(dir, expected, order).dom().len() == dir.dom().len(),
        after_renames(dir, expected, order).values() == dir.values(),
    decreases order.len(),
{
    if order.len() > 0 {
        lemma_renames_keep_every_file(dir, expected, order.drop_last());
        let d = after_renames(dir, expected, order.drop_last());
        let name = order.last();
        let e = after_rename(d, expected, name);
        if e != d {
            let target = new_name(expected, name, Some(d[name]))->0;
            assert(e.dom() =~= d.dom().remove(name).insert(target));
            assert(e.values() =~= d.values()) by {
                assert forall|v: u128| e.values().contains(v) == d.values().contains(v) by {
                    if d.values().contains(v) {
                        let k = choose|k: Seq<char>| #[trigger] d.dom().contains(k) && d[k] == v;
                        if k == name {
                            assert(e.dom().contains(target) && e[target] == v);
                        } else {
                            assert(e.dom().contains(k) && e[k] == v);
                        }
                    }
                    if e.values().contains(v) {
                        let k = choose|k: Seq<char>| #[trigger] e.dom().contains(k) && e[k] == v;
                        if k == target {
                            assert(d.dom().contains(name) && d[name] == v);
                        } else {
                            assert(d.dom().contains(k) && d[k] == v);
                        }
                    }
                }
            }
        }
    }
}

/// A file that PAR2 does not know, and a PAR2 file, keeps its name.
pub proof fn law_unknown_files_are_left_alone(
    dir: Map<Seq<char>, u128>,
    expected: Seq<ExpectedView>,
    order: Seq<Seq<char>>,
    name: Seq<char>,
)
    requires
        dir.contains_key(name),
        expected_name(expected, dir[name]) is None || is_par2_text(lowered_text(name)),
    ensures
        after_pass(dir, expected, order).contains_key(name),
        after_pass(dir, expected, order)[name] == dir[name],
{
    lemma_unknown_files_are_left_alone(dir, expected, order, name);
}

proof fn lemma_unknown_files_are_left_alone(
    dir: Map<Seq<char>, u128>,
    expected: Seq<ExpectedView>,
    order: Seq<Seq<char>>,
    name: Seq<char>,
)
    requires
        dir.contains_key(name),
        expected_name(expected, dir[name]) is None || is_par2_text(lowered_text(name)),
    ensures
        after_renames(dir, expected, order).contains_key(name),
        after_renames(dir, expected, order)[name] == dir[name],
    decreases order.len(),
{
    if order.len() > 0 {
        lemma_unknown_files_are_left_alone(dir, expected, order.drop_last(), name);
    }
}

/// Where one of the expected files is present, nothing is renamed.
pub proof fn law_named_files_are_left_alone(
    dir: Map<Seq<char>, u128>,
    expected: Seq<ExpectedView>,
    order: Seq<Seq<char>>,
)
    requires
        any_present(dir, expected),
    ensures
        after_pass(dir, expected, order) == dir,
{
}

/// Whether a file of the directory is one that a pass renames.
pub open spec fn is_obfuscated(
    dir: Map<Seq<char>, u128>,
    expected: Seq<ExpectedView>,
    name: Seq<char>,
) -> bool {
    &&& dir.contains_key(name)
    &&& !is_par2_text(lowered_text(name))
    &&& expected_name(expected, dir[name]) is Some
}

/// The name found for a hash is that of an expected file.
proof fn lemma_expected_name_listed(expected: Seq<ExpectedView>, hash: u128)
    requires
        expected_name(expected, hash) is Some,
    ensures
        exists|i: int|
            0 <= i < expected.len() && (#[trigger] expected[i]).filename == expected_name(
                expected,
                hash,
            )->0,
    decreases expected.len(),
{
    if expected.last().hash_16k == hash {
        assert(expected[expected.len() - 1].filename == expected_name(expected, hash)->0);
    } else {
        lemma_expected_name_listed(expected.drop_last(), hash);
        let i = choose|i: int|
            0 <= i < expected.drop_last().len() && (
            #[trigger] expected.drop_last()[i]).filename == expected_name(
                expected.drop_last(),
                hash,
            )->0;
        assert(expected[i].filename == expected_name(expected, hash)->0);
    }
}

/// A pass gives every obfuscated file its name back: where no expected file is
/// present, no two files look the same to PAR2 and no two hashes have the same
/// name, each file that PAR2 knows by its hash ends up under its PAR2 name.
pub proof fn law_obfuscated_files_get_their_names(
    dir: Map<Seq<char>, u128>,
    expected: Seq<ExpectedView>,
    order: Seq<Seq<char>>,
    name: Seq<char>,
)
    requires
        !any_present(dir, expected),
        order.no_duplicates(),
        order.contains(name),
        forall|a: Seq<char>, b: Seq<char>|
            a != b && is_obfuscated(dir, expected, a) && is_obfuscated(dir, expected, b)
                ==> #[trigger] expected_name(expected, dir[a]) != #[trigger] expected_name(
                expected,
                dir[b],
            ),
        is_obfuscated(dir, expected, name),
    ensures
        ({
            let target = expected_name(expected, dir[name])->0;
            let after = after_pass(dir, expected, order);
            &&& after.contains_key(target)
            &&& after[target] == dir[name]
            &&& !after.contains_key(name)
        }),
{
    lemma_renamed_exactly(dir, expected, order, name);
    lemma_renamed_exactly(dir, expected, order, expected_name(expected, dir[name])->0);
    lemma_expected_name_listed(expected, dir[name]);
}

/// Which names are there after the files in `order` have been looked at: the
/// old ones that were not given up, and the new ones.
proof fn lemma_renamed_exactly(
    dir: Map<Seq<char>, u128>,
    expected: Seq<ExpectedView>,
    order: Seq<Seq<char>>,
    x: Seq<char>,
)
    requires
        !any_present(dir, expected),
        order.no_duplicates(),
        forall|a: Seq<char>, b: Seq<char>|
            a != b && is_obfuscated(dir, expected, a) && is_obfuscated(dir, expected, b)
                ==> #[trigger] expected_name(expected, dir[a]) != #[trigger] expected_name(
                expected,
                dir[b],
            ),
    ensures
        dir.contains_key(x) ==> {
            &&& after_renames(dir, expected, order).contains_key(x) <==> !(order.contains(x)
                && is_obfuscated(dir, expected, x))
            &&& after_renames(dir, expected, order).contains_key(x) ==> after_renames(
                dir,
                expected,
                order,
            )[x] == dir[x]
        },
        !dir.contains_key(x) ==> {
            &&& after_renames(dir, expected, order).contains_key(x) <==> exists|n: Seq<char>|
                #[trigger] order.contains(n) && is_obfuscated(dir, expected, n) && expected_name(
                    expected,
                    dir[n],
                ) == Some(x)
            &&& forall|n: Seq<char>| #[trigger]
                order.contains(n) && is_obfuscated(dir, expected, n) && expected_name(
                    expected,
                    dir[n],
                ) == Some(x) ==> after_renames(dir, expected, order)[x] == dir[n]
        },
    decreases order.len(),
{
    if order.len() > 0 {
        let before = order.drop_last();
        let name = order.last();
        let d = after_renames(dir, expected, before);
        assert(before.no_duplicates());
        assert(!before.contains(name)) by {
            if before.contains(name) {
                let k = choose|k: int| 0 <= k < before.len() && before[k] == name;
                assert(order[k] == order[order.len() - 1]);
            }
        }
        assert forall|n: Seq<char>| #[trigger]
            order.contains(n) <==> before.contains(n) || n == name by {
            if order.contains(n) && n != name {
                let k = choose|k: int| 0 <= k < order.len() && order[k] == n;
                assert(before[k] == n);
            }
            if before.contains(n) {
                let k = choose|k: int| 0 <= k < before.len() && before[k] == n;
                assert(order[k] == n);
            }
            assert(order[order.len() - 1] == name);
        }
        lemma_renamed_exactly(dir, expected, before, x);
        lemma_renamed_exactly(dir, expected, before, name);
        if is_obfuscated(dir, expected, name) {
            let target = expected_name(expected, dir[name])->0;
            lemma_expected_name_listed(expected, dir[name]);
            assert(!dir.contains_key(target));
            lemma_renamed_exactly(dir, expected, before, target);
            assert(!d.contains_key(target));
            assert(d.contains_key(name) && d[name] == dir[name]);
            assert(after_renames(dir, expected, order) == d.remove(name).insert(
                target,
                dir[name],
            ));
        } else if !dir.contains_key(name) {
            // A new name in the order: its file keeps it.
            if d.contains_key(name) {
                let n = choose|n: Seq<char>| #[trigger]
                    before.contains(n) && is_obfuscated(dir, expected, n) && expected_name(
                        expected,
                        dir[n],
                    ) == Some(name);
                assert(d[name] == dir[n]);
            }
            assert(after_renames(dir, expected, order) == d);
        } else {
            assert(after_renames(dir, expected, order) == d);
        }
        if !dir.contains_key(x) {
            let after = after_renames(dir, expected, order);
            let gets = |n: Seq<char>|
                is_obfuscated(dir, expected, n) && expected_name(expected, dir[n]) == Some(x);
            assert(order.contains(name));
            if after.contains_key(x) && !gets(name) {
                assert(d.contains_key(x));
                let n = choose|n: Seq<char>| #[trigger] before.contains(n) && gets(n);
                assert(order.contains(n) && gets(n));
            }
            assert forall|n: Seq<char>| #[trigger] order.contains(n) && gets(n) implies {
                &&& after.contains_key(x)
                &&& after[x] == dir[n]
            } by {
                if n != name {
                    assert(before.contains(n));
                    if is_obfuscated(dir, expected, name) {
                        assert(expected_name(expected, dir[n]) != expected_name(
                            expected,
                            dir[name],
                        ));
                    }
                }
            }
        }
    }
}

/// Whether some file has the name that PAR2 knows its contents by.
spec fn one_is_named(dir: Map<Seq<char>, u128>, expected: Seq<ExpectedView>) -> bool {
    exists|t: Seq<char>| #[trigger]
        dir.contains_key(t) && expected_name(expected, dir[t]) == Some(t)
}

/// Looking at files either changes nothing, for each of them, or leaves a file
/// under its PAR2 name.
proof fn lemma_renames_change_nothing_or_name_one(
    dir: Map<Seq<char>, u128>,
    expected: Seq<ExpectedView>,
    order: Seq<Seq<char>>,
)
    ensures
        one_is_named(after_renames(dir, expected, order), expected) || {
            &&& after_renames(dir, expected, order) == dir
            &&& forall|i: int|
                0 <= i < order.len() ==> after_rename(dir, expected, #[trigger] order[i]) == dir
        },
    decreases order.len(),
{
    if order.len() > 0 {
        let before = order.drop_last();
        let name = order.last();
        lemma_renames_change_nothing_or_name_one(dir, expected, before);
        let d = after_renames(dir, expected, before);
        let after = after_rename(d, expected, name);
        if after != d {
            let target = new_name(expected, name, Some(d[name]))->0;
            assert(after.contains_key(target) && expected_name(expected, after[target]) == Some(
                target,
            ));
        } else if !one_is_named(d, expected) {
            assert forall|i: int| 0 <= i < order.len() implies after_rename(
                dir,
                expected,
                #[trigger] order[i],
            ) == dir by {
                if i < before.len() {
                    assert(before[i] == order[i]);
                }
            }
        }
    }
}

/// Files at which there is nothing to do leave the directory as it is.
proof fn lemma_nothing_to_rename(
    dir: Map<Seq<char>, u128>,
    expected: Seq<ExpectedView>,
    order: Seq<Seq<char>>,
)
    requires
        forall|i: int|
            0 <= i < order.len() ==> after_rename(dir, expected, #[trigger] order[i]) == dir,
    ensures
        after_renames(dir, expected, order) == dir,
    decreases order.len(),
{
    if order.len() > 0 {
        let before = order.drop_last();
        assert forall|i: int| 0 <= i < before.len() implies after_rename(
            dir,
            expected,
            #[trigger] before[i],
        ) == dir by {
            assert(before[i] == order[i]);
        }
        lemma_nothing_to_rename(dir, expected, before);
        assert(order[order.len() - 1] == order.last());
    }
}

/// A second pass changes nothing, if the first one looked at every file.
pub proof fn law_second_pass_changes_nothing(
    dir: Map<Seq<char>, u128>,
    expected: Seq<ExpectedView>,
    first: Seq<Seq<char>>,
    second: Seq<Seq<char>>,
)
    requires
        forall|name: Seq<char>| #[trigger] dir.contains_key(name) ==> first.contains(name),
    ensures
        after_pass(after_pass(dir, expected, first), expected, second) == after_pass(
            dir,
            expected,
            first,
        ),
{
    let once = after_pass(dir, expected, first);
    if !any_present(dir, expected) {
        lemma_renames_change_nothing_or_name_one(dir, expected, first);
        if one_is_named(once, expected) {
            let t = choose|t: Seq<char>| #[trigger]
                once.contains_key(t) && expected_name(expected, once[t]) == Some(t);
            lemma_expected_name_listed(expected, once[t]);
            assert(any_present(once, expected));
        } else {
            assert forall|i: int| 0 <= i < second.len() implies after_rename(
                dir,
                expected,
                #[trigger] second[i],
            ) == dir by {
                if dir.contains_key(second[i]) {
                    let k = choose|k: int| 0 <= k < first.len() && first[k] == second[i];
                    assert(after_rename(dir, expected, first[k]) == dir);
                }
            }
            lemma_nothing_to_rename(dir, expected, second);
        }
    }
}

/// The name found for a hash is that of a file with this very hash, the last one
/// of those; and one is found whenever some file has the hash.
pub proof fn law_names_belong_to_their_hashes(expected: Seq<ExpectedView>, hash: u128)
    ensures
        match expected_name(expected, hash) {
            Some(name) => exists|i: int|
                0 <= i < expected.len() && (#[trigger] expected[i]).hash_16k == hash
                    && expected[i].filename == name && forall|j: int|
                    i < j < expected.len() ==> (#[trigger] expected[j]).hash_16k != hash,
            None => forall|i: int|
                0 <= i < expected.len() ==> (#[trigger] expected[i]).hash_16k != hash,
        },
    decreases expected.len(),
{
    if expected.len() > 0 {
        let shorter = expected.drop_last();
        let last = expected.len() - 1;
        if expected.last().hash_16k == hash {
            assert(expected[last].hash_16k == hash);
        } else {
            law_names_belong_to_their_hashes(shorter, hash);
            assert forall|j: int| 0 <= j < last implies #[trigger] expected[j] == shorter[j] by {}
            match expected_name(shorter, hash) {
                Some(name) => {
                    let i = choose|i: int|
                        0 <= i < shorter.len() && (#[trigger] shorter[i]).hash_16k == hash
                            && shorter[i].filename == name && forall|j: int|
                            i < j < shorter.len() ==> (#[trigger] shorter[j]).hash_16k != hash;
                    assert(expected[i] == shorter[i]);
                    assert forall|j: int| i < j < expected.len() implies (
                    #[trigger] expected[j]).hash_16k != hash by {
                        if j < last {
                            assert(shorter[j].hash_16k != hash);
                        }
                    }
                },
                None => {
                    assert forall|i: int| 0 <= i < expected.len() implies (
                    #[trigger] expected[i]).hash_16k != hash by {
                        if i < last {
                            assert(shorter[i].hash_16k != hash);
                        }
                    }
                },
            }
        }
    }
}

/// A file is given the name of an expected file that has its hash, and no other
/// name; it is given none without a hash, with a hash that no expected file has,
/// and if it has that name. Where no two expected files have the same hash, a file
/// under another name is given the name of the one that has its hash.
pub proof fn law_files_get_the_name_of_their_hash(
    expected: Seq<ExpectedView>,
    current: Seq<char>,
    hash: u128,
    at: int,
)
    requires
        0 <= at < expected.len(),
    ensures
        new_name(expected, current, None) is None,
        new_name(expected, current, Some(hash)) matches Some(name) ==> name != current && exists|
            i: int,
        |
            0 <= i < expected.len() && (#[trigger] expected[i]).hash_16k == hash
                && expected[i].filename == name,
        (forall|i: int| 0 <= i < expected.len() ==> (#[trigger] expected[i]).hash_16k != hash)
            ==> new_name(expected, current, Some(hash)) is None,
        (forall|i: int|
            0 <= i < expected.len() && i != at ==> (#[trigger] expected[i]).hash_16k
                != expected[at].hash_16k) ==> new_name(
            expected,
            current,
            Some(expected[at].hash_16k),
        ) == if expected[at].filename == current {
            None::<Seq<char>>
        } else {
            Some(expected[at].filename)
        },
{
    law_names_belong_to_their_hashes(expected, hash);
    law_names_belong_to_their_hashes(expected, expected[at].hash_16k);
}

/// A name is that of a PAR2 file exactly if its lowercase form is something and
/// `.par2`.
pub proof fn law_par2_names_end_so(lower: Seq<char>)
    ensures
        is_par2_text(lower) <==> exists|stem: Seq<char>| #[trigger] (stem + ".par2"@) == lower,
{
    crate::text::law_ending_is_standing_last(lower, ".par2"@);
}

/// Looking at one file changes the directory in this one file at most: the file
/// moves to the name of an expected file with its hash, if that is free, and keeps
/// its contents; a PAR2 file never moves.
pub proof fn law_one_file_moves_at_most(
    dir: Map<Seq<char>, u128>,
    expected: Seq<ExpectedView>,
    name: Seq<char>,
    other: Seq<char>,
)
    requires
        dir.contains_key(other),
        other != name,
    ensures
        after_rename(dir, expected, name).contains_key(other),
        after_rename(dir, expected, name)[other] == dir[other],
        dir.contains_key(name) && !after_rename(dir, expected, name).contains_key(name) ==> {
            &&& !is_par2_text(lowered_text(name))
            &&& exists|i: int|
                0 <= i < expected.len() && (#[trigger] expected[i]).hash_16k == dir[name]
                    && !dir.contains_key(expected[i].filename) && after_rename(
                    dir,
                    expected,
                    name,
                ).contains_key(expected[i].filename) && after_rename(
                    dir,
                    expected,
                    name,
                )[expected[i].filename] == dir[name]
        },
{
    if dir.contains_key(name) {
        law_names_belong_to_their_hashes(expected, dir[name]);
    }
}

/// A pass is called off exactly if some expected file, any one, is present; and it
/// looks at every regular file with a readable name but the PAR2 files, and at
/// nothing else.
pub proof fn law_what_a_pass_looks_at(
    present: Seq<bool>,
    i: int,
    name: Seq<char>,
    is_file: bool,
    readable: Option<Seq<char>>,
)
    ensures
        0 <= i < present.len() && present[i] ==> some_present(present),
        some_present(present) ==> exists|k: int| 0 <= k < present.len() && #[trigger] present[k],
        (forall|stem: Seq<char>| #[trigger] (stem + ".par2"@) != lowered_text(name))
            ==> is_looked_at(true, Some(name)),
        (exists|stem: Seq<char>| #[trigger] (stem + ".par2"@) == lowered_text(name))
            ==> !is_looked_at(true, Some(name)),
        !is_looked_at(false, readable),
        !is_looked_at(is_file, None),
{
    law_par2_names_end_so(lowered_text(name));
    if 0 <= i < present.len() && present[i] {
        assert(present.contains(present[i]));
    }
    if some_present(present) {
        let k = choose|k: int| 0 <= k < present.len() && present[k] == true;
        assert(present[k]);
    }
}

} // verus!

//! Paths as the sequence of their components.

use vstd::prelude::*;

use crate::text::{chars_of, slashed_text, texts};

verus! {

/// Whether `part` is the root directory or the current directory.
pub open spec fn is_anchor(part: Seq<char>) -> bool {
    part == seq!['/'] || part == seq!['.']
}

/// Whether `part` stands for the drive or the share that a path is on, where
/// there are such: a text that ends with its only slash.
pub open spec fn is_prefix(part: Seq<char>) -> bool {
    part.len() >= 2 && part.last() == '/' && !part.drop_last().contains('/')
}

/// Whether `part` is a name without a slash; `..` is such a name, `.` is not.
pub open spec fn is_name(part: Seq<char>) -> bool {
    part.len() > 0 && !part.contains('/') && part != seq!['.']
}

/// Whether the component at position `at` can stand there. A drive or share
/// comes first, and the root directory or the current directory first or after
/// it; every other component is a name.
pub open spec fn part_ok(parts: Seq<Seq<char>>, at: int) -> bool {
    ||| is_name(parts[at])
    ||| at == 0 && (is_prefix(parts[0]) || is_anchor(parts[0]))
    ||| at == 1 && is_prefix(parts[0]) && is_anchor(parts[1])
}

/// Whether `parts` are the components of some path.
pub open spec fn parts_ok(parts: Seq<Seq<char>>) -> bool {
    forall|i: int| 0 <= i < parts.len() ==> #[trigger] part_ok(parts, i)
}

/// Whether the path with the components `path` is `prefix` or lies below it.
pub open spec fn is_below(path: Seq<Seq<char>>, prefix: Seq<Seq<char>>) -> bool {
    prefix.len() <= path.len() && path.subrange(0, prefix.len() as int) == prefix
}

/// The components of each path.
pub open spec fn path_views(paths: Seq<FilePath>) -> Seq<Seq<Seq<char>>> {
    paths.map_values(|p: FilePath| p@)
}

/// The pieces of `text` between its slashes.
pub open spec fn split_slashes(text: Seq<char>) -> Seq<Seq<char>>
    decreases text.len(),
{
    if text.contains('/') {
        let at = text.index_of_first('/')->0;
        if 0 <= at < text.len() {
            seq![text.subrange(0, at)] + split_slashes(text.subrange(at + 1, text.len() as int))
        } else {
            seq![text]
        }
    } else {
        seq![text]
    }
}

/// Whether `c` is a control character (general category `Cc`).
pub open spec fn is_control(c: char) -> bool {
    c as u32 <= 0x1f || 0x7f <= c as u32 <= 0x9f
}

/// Whether `piece` is the name of something below a directory.
pub open spec fn names_entry(piece: Seq<char>) -> bool {
    piece.len() > 0 && piece != seq!['.']
}

/// The components that a relative name adds to a directory: the pieces between
/// slashes and backslashes, without the empty ones and without `.`.
pub open spec fn entry_parts(name: Seq<char>) -> Seq<Seq<char>> {
    split_slashes(slashed_text(name)).filter(|piece: Seq<char>| names_entry(piece))
}

/// Whether a name must not be joined to a directory: it is empty or absolute,
/// starts with a drive letter, holds a control character or climbs with `..`.
/// Backslashes count as slashes.
pub open spec fn is_unsafe_name(name: Seq<char>) -> bool {
    let slashed = slashed_text(name);
    ||| slashed.len() == 0
    ||| slashed[0] == '/'
    ||| slashed.len() >= 2 && (slashed[0] as u32) < 0x80 && slashed[1] == ':'
    ||| exists|i: int| 0 <= i < slashed.len() && is_control(#[trigger] slashed[i])
    ||| split_slashes(slashed).contains(seq!['.', '.'])
}

/// `nzb_core::path::safe_join` refuses an unsafe name, and otherwise extends
/// the root, whatever it is, by the components of the name, one after the other.
/// The root is given as components, and of the path the components after those
/// of the root are returned. Claimed for Unix, where no component but the first
/// can be absolute; where there are drives, a later component that starts with
/// a drive letter is refused too.
#[verifier::external_body]
fn outside_safe_join(root: &Vec<String>, name: &str) -> (added: Option<Vec<String>>)
    requires
        parts_ok(texts(root@)),
    ensures
        added is None <==> is_unsafe_name(name@),
        added matches Some(parts) ==> texts(parts@) == entry_parts(name@),
{
    let root: std::path::PathBuf = root.iter().collect();
    let path: std::path::PathBuf = nzb_core::path::safe_join(&root, name)?;
    let added: &std::path::Path = path.strip_prefix(&root).ok()?;
    Some(
        added.components().map(|part| part.as_os_str().to_string_lossy().into_owned()).collect(),
    )
}

/// No piece between slashes holds a slash.
proof fn lemma_pieces_hold_no_slash(text: Seq<char>, i: int)
    requires
        0 <= i < split_slashes(text).len(),
    ensures
        !split_slashes(text)[i].contains('/'),
    decreases text.len(),
{
    if text.contains('/') {
        text.index_of_first_ensures('/');
        let at = text.index_of_first('/')->0;
        let rest = text.subrange(at + 1, text.len() as int);
        if i == 0 {
            assert(split_slashes(text)[0] == text.subrange(0, at));
            if split_slashes(text)[0].contains('/') {
                let k = choose|k: int| 0 <= k < at && text.subrange(0, at)[k] == '/';
                assert(text[k] == '/');
            }
        } else {
            assert(split_slashes(text)[i] == split_slashes(rest)[i - 1]);
            lemma_pieces_hold_no_slash(rest, i - 1);
        }
    }
}

/// Every component that a name adds is a name without a slash.
pub proof fn lemma_entry_parts_ok(name: Seq<char>, i: int)
    requires
        0 <= i < entry_parts(name).len(),
    ensures
        names_entry(entry_parts(name)[i]),
        !entry_parts(name)[i].contains('/'),
        split_slashes(slashed_text(name)).contains(entry_parts(name)[i]),
{
    let pieces = split_slashes(slashed_text(name));
    let keep = |piece: Seq<char>| names_entry(piece);
    pieces.lemma_filter_contains_rev(keep, entry_parts(name)[i]);
    let part = entry_parts(name)[i];
    assert(entry_parts(name).contains(part));
    let k = choose|k: int| 0 <= k < pieces.len() && pieces[k] == part;
    lemma_pieces_hold_no_slash(slashed_text(name), k);
}

/// A path, held as its components.
///
/// Two paths are equal, ordered, and one below the other as their components
/// are. Doubled and trailing slashes, and `.` after the first component, do
/// not show. Where there are drives, the one that a path is on is a component
/// too, with a slash at its end; drives order as these texts do.
#[derive(Debug)]
pub struct FilePath {
    parts: Vec<String>,
}

impl View for FilePath {
    type V = Seq<Seq<char>>;

    closed spec fn view(&self) -> Seq<Seq<char>> {
        self.parts@.map_values(|s: String| s@)
    }
}

/// What a text can be in a path.
#[derive(Clone, Copy, PartialEq, Eq, Structural)]
enum PartKind {
    Name,
    Anchor,
    Prefix,
    Neither,
}

/// What a text can be in a path.
fn part_kind(part: &str) -> (kind: PartKind)
    ensures
        match kind {
            PartKind::Name => is_name(part@) && !is_anchor(part@) && !is_prefix(part@),
            PartKind::Anchor => is_anchor(part@) && !is_name(part@) && !is_prefix(part@),
            PartKind::Prefix => is_prefix(part@) && !is_name(part@) && !is_anchor(part@),
            PartKind::Neither => !is_name(part@) && !is_anchor(part@) && !is_prefix(part@),
        },
{
    let chars: Vec<char> = chars_of(part);
    assert(seq!['/'].len() == 1 && seq!['/'][0] == '/');
    assert(seq!['.'].len() == 1 && seq!['.'][0] == '.');
    if chars.len() == 0 {
        return PartKind::Neither;
    }
    if chars.len() == 1 && (chars[0] == '/' || chars[0] == '.') {
        assert(part@ =~= seq![part@[0]]);
        assert(part@[0] == '/' ==> part@.contains('/'));
        return PartKind::Anchor;
    }
    let last: usize = chars.len() - 1;
    let mut i: usize = 0;
    while i < last
        invariant
            i <= last,
            last == chars@.len() - 1,
            chars@ == part@,
            !is_anchor(part@),
            forall|k: int| 0 <= k < i ==> chars@[k] != '/',
        decreases last - i,
    {
        if chars[i] == '/' {
            assert(part@.contains('/'));
            assert(part@.drop_last()[i as int] == '/');
            return PartKind::Neither;
        }
        i = i + 1;
    }
    assert forall|k: int| 0 <= k < part@.drop_last().len() implies part@.drop_last()[k] != '/' by {
        assert(part@.drop_last()[k] == chars@[k]);
    }
    if chars[last] == '/' {
        assert(part@.contains('/'));
        PartKind::Prefix
    } else {
        PartKind::Name
    }
}

impl Clone for FilePath {
    fn clone(&self) -> (path: FilePath)
        ensures
            path@ == self@,
    {
        let path: FilePath = self.prefix(self.parts.len());
        assert(self@.subrange(0, self@.len() as int) =~= self@);
        path
    }
}

impl FilePath {
    #[verifier::type_invariant]
    spec fn well_formed(self) -> bool {
        parts_ok(self@)
    }

    /// The path with the given components, if they are those of a path.
    pub fn from_parts(parts: Vec<String>) -> (path: Option<FilePath>)
        ensures
            path is Some <==> parts_ok(texts(parts@)),
            path matches Some(p) ==> p@ == texts(parts@),
    {
        let ghost views = texts(parts@);
        let mut i: usize = 0;
        while i < parts.len()
            invariant
                i <= parts@.len(),
                views == texts(parts@),
                forall|k: int| 0 <= k < i ==> #[trigger] part_ok(views, k),
            decreases parts@.len() - i,
        {
            let kind: PartKind = part_kind(parts[i].as_str());
            let fits: bool = match kind {
                PartKind::Name => true,
                PartKind::Prefix => i == 0,
                PartKind::Anchor => i == 0 || (i == 1 && part_kind(parts[0].as_str())
                    == PartKind::Prefix),
                PartKind::Neither => false,
            };
            assert(views[i as int] == parts@[i as int]@ && views[0] == parts@[0]@);
            assert(fits == part_ok(views, i as int));
            if !fits {
                return None;
            }
            i = i + 1;
        }
        Some(FilePath { parts })
    }

    /// The number of components.
    pub fn len(&self) -> (n: usize)
        ensures
            n == self@.len(),
    {
        self.parts.len()
    }

    /// The component at position `at`.
    pub fn part(&self, at: usize) -> (part: &str)
        requires
            at < self@.len(),
        ensures
            part@ == self@[at as int],
    {
        self.parts[at].as_str()
    }

    /// The path made of the first `n` components.
    pub fn prefix(&self, n: usize) -> (path: FilePath)
        requires
            n <= self@.len(),
        ensures
            path@ == self@.subrange(0, n as int),
    {
        proof {
            use_type_invariant(self);
        }
        let mut parts: Vec<String> = Vec::new();
        let mut i: usize = 0;
        while i < n
            invariant
                i <= n <= self.parts@.len(),
                parts@ == self.parts@.subrange(0, i as int),
            decreases n - i,
        {
            parts.push(self.parts[i].clone());
            i = i + 1;
            assert(parts@ =~= self.parts@.subrange(0, i as int));
        }
        let ghost views = texts(parts@);
        assert(views =~= self@.subrange(0, n as int));
        assert(parts_ok(views)) by {
            assert forall|k: int| 0 <= k < views.len() implies #[trigger] part_ok(views, k) by {
                assert(part_ok(self@, k));
            }
        }
        FilePath { parts }
    }

    /// The path of the entry with the given name below `self`, unless the name
    /// is unsafe.
    pub fn safe_join(&self, name: &str) -> (path: Option<FilePath>)
        ensures
            path is None <==> is_unsafe_name(name@),
            path matches Some(p) ==> p@ == self@ + entry_parts(name@),
    {
        proof {
            use_type_invariant(self);
        }
        let mut added: Vec<String> = match outside_safe_join(&self.parts, name) {
            None => {
                return None;
            },
            Some(added) => added,
        };
        let ghost rest = added@;
        let mut parts: Vec<String> = self.clone().parts;
        let ghost before = parts@;
        parts.append(&mut added);
        let ghost views = texts(parts@);
        assert(parts@ == before + rest);
        assert(texts(before) == self@);
        assert(views =~= self@ + entry_parts(name@)) by {
            assert(texts(before + rest) =~= texts(before) + texts(rest));
        }
        assert(parts_ok(views)) by {
            assert forall|k: int| 0 <= k < views.len() implies #[trigger] part_ok(views, k) by {
                if k < self@.len() {
                    assert(part_ok(self@, k));
                    assert(views[k] == self@[k] && views[0] == self@[0]);
                } else {
                    lemma_entry_parts_ok(name@, k - self@.len());
                    assert(views[k] == entry_parts(name@)[k - self@.len()]);
                }
            }
        }
        Some(FilePath { parts })
    }

    /// Whether `self` is `prefix` or lies below it.
    pub fn starts_with(&self, prefix: &FilePath) -> (below: bool)
        ensures
            below == is_below(self@, prefix@),
    {
        if prefix.parts.len() > self.parts.len() {
            return false;
        }
        let mut i: usize = 0;
        while i < prefix.parts.len()
            invariant
                i <= prefix.parts@.len() <= self.parts@.len(),
                self@.subrange(0, i as int) == prefix@.subrange(0, i as int),
            decreases prefix.parts@.len() - i,
        {
            if self.parts[i] != prefix.parts[i] {
                assert(self@.subrange(0, prefix@.len() as int)[i as int] != prefix@[i as int]);
                return false;
            }
            assert(self@.subrange(0, i + 1) =~= self@.subrange(0, i as int).push(self@[i as int]));
            assert(prefix@.subrange(0, i + 1) =~= prefix@.subrange(0, i as int).push(
                prefix@[i as int],
            ));
            i = i + 1;
        }
        assert(prefix@.subrange(0, i as int) =~= prefix@);
        true
    }

    /// Whether the two paths have the same components.
    pub fn same_as(&self, other: &FilePath) -> (same: bool)
        ensures
            same == (self@ == other@),
    {
        if self.parts.len() != other.parts.len() {
            return false;
        }
        assert(self@.subrange(0, self@.len() as int) =~= self@);
        self.starts_with(other)
    }
}

/// Whether some path in `paths` equals `path`.
pub fn contains_path(paths: &Vec<FilePath>, path: &FilePath) -> (found: bool)
    ensures
        found == path_views(paths@).contains(path@),
{
    let mut i: usize = 0;
    while i < paths.len()
        invariant
            i <= paths@.len(),
            forall|k: int| 0 <= k < i ==> path_views(paths@)[k] != path@,
        decreases paths@.len() - i,
    {
        if paths[i].same_as(path) {
            assert(path_views(paths@)[i as int] == path@);
            return true;
        }
        i = i + 1;
    }
    false
}

/// A path is another or lies below it exactly if it is the other and some more
/// components.
pub proof fn law_below_is_more_components(path: Seq<Seq<char>>, prefix: Seq<Seq<char>>)
    ensures
        is_below(path, prefix) <==> exists|rest: Seq<Seq<char>>| #[trigger] (prefix + rest) == path,
{
    if is_below(path, prefix) {
        let rest = path.subrange(prefix.len() as int, path.len() as int);
        assert(prefix + rest =~= path) by {
            assert forall|i: int| 0 <= i < prefix.len() implies prefix[i] == path[i] by {
                assert(path.subrange(0, prefix.len() as int)[i] == path[i]);
            }
        }
    }
    if exists|rest: Seq<Seq<char>>| #[trigger] (prefix + rest) == path {
        let rest = choose|rest: Seq<Seq<char>>| #[trigger] (prefix + rest) == path;
        assert(path.subrange(0, prefix.len() as int) =~= prefix);
    }
}

/// What is between slashes: of two texts with a slash between them, what is in
/// the first and then what is in the second.
proof fn lemma_split_at_slash(a: Seq<char>, b: Seq<char>)
    ensures
        split_slashes(a + seq!['/'] + b) =~= split_slashes(a) + split_slashes(b),
    decreases a.len(),
{
    let all = a + seq!['/'] + b;
    assert(all[a.len() as int] == '/');
    all.index_of_first_ensures('/');
    let at = all.index_of_first('/')->0;
    if a.contains('/') {
        a.index_of_first_ensures('/');
        let first = a.index_of_first('/')->0;
        assert(all[first] == '/');
        assert(at == first) by {
            if at < first {
                assert(a[at] == all[at]);
            }
        }
        let rest = a.subrange(at + 1, a.len() as int);
        lemma_split_at_slash(rest, b);
        assert(all.subrange(at + 1, all.len() as int) =~= rest + seq!['/'] + b);
        assert(all.subrange(0, at) =~= a.subrange(0, at));
    } else {
        assert(at == a.len()) by {
            if at < a.len() {
                assert(a[at] == all[at]);
            }
        }
        assert(all.subrange(0, at) =~= a);
        assert(all.subrange(at + 1, all.len() as int) =~= b);
    }
}

/// The components that a name adds. A name without a slash or backslash adds
/// itself, and nothing if it is empty or `.`; two names with a slash or a
/// backslash between them add what the first adds and then what the second adds.
pub proof fn law_names_add_their_components(single: Seq<char>, a: Seq<char>, b: Seq<char>)
    requires
        !single.contains('/'),
        !single.contains('\\'),
    ensures
        entry_parts(single) == if single.len() == 0 || single == seq!['.'] {
            Seq::<Seq<char>>::empty()
        } else {
            seq![single]
        },
        entry_parts(a + seq!['/'] + b) == entry_parts(a) + entry_parts(b),
        entry_parts(a + seq!['\\'] + b) == entry_parts(a) + entry_parts(b),
{
    let keep = |piece: Seq<char>| names_entry(piece);
    assert(slashed_text(single) =~= single) by {
        assert forall|i: int| 0 <= i < single.len() implies slashed_text(single)[i]
            == single[i] by {
            assert(single.contains(single[i]));
        }
    }
    assert(seq![single].filter(keep) =~= if keep(single) {
        seq![single]
    } else {
        Seq::empty()
    }) by {
        let none = Seq::<Seq<char>>::empty();
        assert(none.filter(keep) =~= none) by {
            reveal(Seq::filter);
        }
        none.lemma_filter_push(single, keep);
        assert(none.push(single) =~= seq![single]);
    }
    let (sa, sb) = (slashed_text(a), slashed_text(b));
    assert(slashed_text(a + seq!['/'] + b) =~= sa + seq!['/'] + sb);
    assert(slashed_text(a + seq!['\\'] + b) =~= sa + seq!['/'] + sb);
    lemma_split_at_slash(sa, sb);
    Seq::filter_distributes_over_add(split_slashes(sa), split_slashes(sb), keep);
}

/// Which names must not be joined to a directory: the empty one, one that starts
/// with a slash or backslash, one whose first character is an ASCII character and
/// whose second is a colon, one that holds a control character, and one with a
/// component `..`. No other.
pub proof fn law_which_names_are_unsafe(name: Seq<char>)
    ensures
        is_unsafe_name(name) <==> {
            ||| name.len() == 0
            ||| name[0] == '/' || name[0] == '\\'
            ||| name.len() >= 2 && (name[0] as u32) < 128 && name[1] == ':'
            ||| exists|i: int|
                0 <= i < name.len() && ((#[trigger] name[i]) as u32 <= 31 || 127 <= name[i] as u32
                    <= 159)
            ||| entry_parts(name).contains(seq!['.', '.'])
        },
{
    let slashed = slashed_text(name);
    let dots = seq!['.', '.'];
    let pieces = split_slashes(slashed);
    let keep = |piece: Seq<char>| names_entry(piece);
    assert(dots.len() == 2);
    assert(seq!['.'].len() == 1);
    assert forall|i: int| 0 <= i < name.len() implies is_control(#[trigger] slashed[i]) == (
    name[i] as u32 <= 31 || 127 <= name[i] as u32 <= 159) by {}
    if entry_parts(name).contains(dots) {
        let i = choose|i: int| 0 <= i < entry_parts(name).len() && entry_parts(name)[i] == dots;
        lemma_entry_parts_ok(name, i);
    }
    if pieces.contains(dots) {
        let i = choose|i: int| 0 <= i < pieces.len() && pieces[i] == dots;
        pieces.filter_lemma(keep);
        assert(keep(pieces[i]));
        assert(pieces.filter(keep).contains(pieces[i]));
    }
    if exists|i: int| 0 <= i < slashed.len() && is_control(#[trigger] slashed[i]) {
        let i = choose|i: int| 0 <= i < slashed.len() && is_control(#[trigger] slashed[i]);
        assert(name[i] as u32 <= 31 || 127 <= name[i] as u32 <= 159);
    }
    if exists|i: int|
        0 <= i < name.len() && ((#[trigger] name[i]) as u32 <= 31 || 127 <= name[i] as u32
            <= 159) {
        let i = choose|i: int|
            0 <= i < name.len() && ((#[trigger] name[i]) as u32 <= 31 || 127 <= name[i] as u32
                <= 159);
        assert(is_control(slashed[i]));
    }
}

/// Which texts make a path: names without a slash other than `.`, with at most a
/// drive or share (a text that ends with its only slash) at the very start and
/// the root directory `/` or the current directory `.` first or right after it.
pub proof fn law_which_components_make_a_path(parts: Seq<Seq<char>>, at: int)
    requires
        0 <= at < parts.len(),
        parts_ok(parts),
    ensures
        parts[at].len() > 0,
        at >= 2 ==> !parts[at].contains('/') && parts[at] != seq!['.'],
        at == 1 && (parts[1].contains('/') || parts[1] == seq!['.']) ==> (parts[1] == seq!['/']
            || parts[1] == seq!['.']) && parts[0].len() >= 2 && parts[0].last() == '/',
        at == 0 && parts[0].contains('/') ==> parts[0].last() == '/'
            && !parts[0].drop_last().contains('/'),
{
    assert(part_ok(parts, at));
    assert(seq!['/'].len() == 1 && seq!['/'][0] == '/');
    assert(seq!['.'].len() == 1 && seq!['.'][0] == '.');
    if parts[0] == seq!['/'] {
        assert(parts[0].drop_last().len() == 0);
    }
    if parts[0] == seq!['.'] && parts[0].contains('/') {
        assert(parts[0][0] == '.');
    }
}

/// Names in any number make a path, alone, below the root or the current
/// directory, on a drive or share (a text that ends with its only slash), and
/// below the root or the current directory of one.
pub proof fn law_names_below_an_anchor_make_a_path(
    names: Seq<Seq<char>>,
    anchor: Seq<char>,
    drive: Seq<char>,
)
    requires
        forall|i: int|
            0 <= i < names.len() ==> {
                &&& (#[trigger] names[i]).len() > 0
                &&& !names[i].contains('/')
                &&& names[i] != seq!['.']
            },
        anchor == seq!['/'] || anchor == seq!['.'],
        drive.len() >= 2,
        drive.last() == '/',
        !drive.drop_last().contains('/'),
    ensures
        parts_ok(names),
        parts_ok(seq![anchor] + names),
        parts_ok(seq![drive] + names),
        parts_ok(seq![drive, anchor] + names),
{
    assert forall|i: int| 0 <= i < names.len() implies #[trigger] part_ok(names, i) by {
        assert(is_name(names[i]));
    }
    let one = seq![anchor] + names;
    assert forall|i: int| 0 <= i < one.len() implies #[trigger] part_ok(one, i) by {
        if i > 0 {
            assert(one[i] == names[i - 1]);
        }
    }
    let other = seq![drive] + names;
    assert forall|i: int| 0 <= i < other.len() implies #[trigger] part_ok(other, i) by {
        if i > 0 {
            assert(other[i] == names[i - 1]);
        }
    }
    let both = seq![drive, anchor] + names;
    assert forall|i: int| 0 <= i < both.len() implies #[trigger] part_ok(both, i) by {
        if i > 1 {
            assert(both[i] == names[i - 2]);
        }
    }
}

} // verus!

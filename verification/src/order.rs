//! The orders by which texts and paths are sorted, and the sorts themselves.

use vstd::prelude::*;

use crate::path::{path_views, FilePath};
use crate::text::{chars_of, texts};

verus! {

/// Whether `a` sorts before `b`: by the first character that differs, a proper
/// prefix first. Code points order as the bytes of their UTF-8 encoding do.
pub open spec fn text_less(a: Seq<char>, b: Seq<char>) -> bool
    decreases a.len(),
{
    if b.len() == 0 {
        false
    } else if a.len() == 0 {
        true
    } else if a[0] != b[0] {
        a[0] < b[0]
    } else {
        text_less(a.drop_first(), b.drop_first())
    }
}

/// Where a component stands among the kinds of components: a drive or share, the
/// root directory, the current directory, the parent directory, any other name.
pub open spec fn part_rank(part: Seq<char>) -> int {
    if part == seq!['/'] {
        1
    } else if part == seq!['.'] {
        2
    } else if part == seq!['.', '.'] {
        3
    } else if part.len() > 0 && part.last() == '/' {
        0
    } else {
        4
    }
}

/// Whether the component `a` sorts before the component `b`.
pub open spec fn part_less(a: Seq<char>, b: Seq<char>) -> bool {
    if part_rank(a) != part_rank(b) {
        part_rank(a) < part_rank(b)
    } else {
        text_less(a, b)
    }
}

/// Whether the path with the components `a` sorts before the one with the
/// components `b`: by the first component that differs, a proper prefix first.
pub open spec fn path_less(a: Seq<Seq<char>>, b: Seq<Seq<char>>) -> bool
    decreases a.len(),
{
    if b.len() == 0 {
        false
    } else if a.len() == 0 {
        true
    } else if a[0] != b[0] {
        part_less(a[0], b[0])
    } else {
        path_less(a.drop_first(), b.drop_first())
    }
}

/// `text_less` is a strict total order.
pub proof fn lemma_text_order(a: Seq<char>, b: Seq<char>, c: Seq<char>)
    ensures
        !text_less(a, a),
        a != b ==> text_less(a, b) || text_less(b, a),
        text_less(a, b) && text_less(b, c) ==> text_less(a, c),
        text_less(a, b) ==> !text_less(b, a),
    decreases a.len() + b.len() + c.len(),
{
    if a.len() > 0 {
        lemma_text_order(a.drop_first(), Seq::empty(), Seq::empty());
    }
    if a.len() > 0 && b.len() > 0 {
        lemma_text_order(a.drop_first(), b.drop_first(), Seq::empty());
        if a[0] == b[0] && a.drop_first() == b.drop_first() {
            assert(a =~= seq![a[0]] + a.drop_first());
            assert(b =~= seq![b[0]] + b.drop_first());
        }
        if c.len() > 0 {
            lemma_text_order(a.drop_first(), b.drop_first(), c.drop_first());
        }
    } else if a.len() == 0 && b.len() == 0 {
        assert(a =~= b);
    }
}

/// `part_less` is a strict total order.
pub proof fn lemma_part_order(a: Seq<char>, b: Seq<char>, c: Seq<char>)
    ensures
        !part_less(a, a),
        a != b ==> part_less(a, b) || part_less(b, a),
        part_less(a, b) && part_less(b, c) ==> part_less(a, c),
        part_less(a, b) ==> !part_less(b, a),
{
    lemma_text_order(a, b, c);
}

/// `path_less` is a strict total order.
pub proof fn lemma_path_order(a: Seq<Seq<char>>, b: Seq<Seq<char>>, c: Seq<Seq<char>>)
    ensures
        !path_less(a, a),
        a != b ==> path_less(a, b) || path_less(b, a),
        path_less(a, b) && path_less(b, c) ==> path_less(a, c),
        path_less(a, b) ==> !path_less(b, a),
    decreases a.len() + b.len() + c.len(),
{
    if a.len() > 0 {
        lemma_path_order(a.drop_first(), Seq::empty(), Seq::empty());
    }
    if a.len() > 0 && b.len() > 0 {
        lemma_path_order(a.drop_first(), b.drop_first(), Seq::empty());
        lemma_part_order(a[0], b[0], b[0]);
        if a[0] == b[0] && a.drop_first() == b.drop_first() {
            assert(a =~= seq![a[0]] + a.drop_first());
            assert(b =~= seq![b[0]] + b.drop_first());
        }
        if c.len() > 0 {
            lemma_path_order(a.drop_first(), b.drop_first(), c.drop_first());
            lemma_part_order(a[0], b[0], c[0]);
            lemma_part_order(b[0], c[0], c[0]);
            lemma_part_order(c[0], b[0], b[0]);
        }
    } else if a.len() == 0 && b.len() == 0 {
        assert(a =~= b);
    }
}

/// Whether `a` sorts before `b`.
pub fn text_precedes(a: &str, b: &str) -> (less: bool)
    ensures
        less == text_less(a@, b@),
{
    let left: Vec<char> = chars_of(a);
    let right: Vec<char> = chars_of(b);
    let mut i: usize = 0;
    assert(a@.subrange(0, a@.len() as int) =~= a@);
    assert(b@.subrange(0, b@.len() as int) =~= b@);
    loop
        invariant
            left@ == a@,
            right@ == b@,
            i <= a@.len(),
            i <= b@.len(),
            text_less(a@, b@) == text_less(
                a@.subrange(i as int, a@.len() as int),
                b@.subrange(i as int, b@.len() as int),
            ),
        decreases a@.len() - i,
    {
        if i == right.len() {
            return false;
        }
        if i == left.len() {
            return true;
        }
        if left[i] != right[i] {
            return left[i] < right[i];
        }
        assert(a@.subrange(i as int, a@.len() as int).drop_first() =~= a@.subrange(
            i + 1,
            a@.len() as int,
        ));
        assert(b@.subrange(i as int, b@.len() as int).drop_first() =~= b@.subrange(
            i + 1,
            b@.len() as int,
        ));
        i = i + 1;
    }
}

/// Where a component stands among the kinds of components.
fn rank_of(part: &str) -> (rank: u8)
    ensures
        rank == part_rank(part@),
{
    let chars: Vec<char> = chars_of(part);
    proof {
        assert(seq!['/'][0] == '/' && seq!['/'].len() == 1);
        assert(seq!['.'][0] == '.' && seq!['.'].len() == 1);
        assert(seq!['.', '.'][0] == '.' && seq!['.', '.'][1] == '.' && seq!['.', '.'].len() == 2);
    }
    if chars.len() == 1 && chars[0] == '/' {
        assert(part@ =~= seq!['/']);
        1
    } else if chars.len() == 1 && chars[0] == '.' {
        assert(part@ =~= seq!['.']);
        2
    } else if chars.len() == 2 && chars[0] == '.' && chars[1] == '.' {
        assert(part@ =~= seq!['.', '.']);
        3
    } else if chars.len() > 0 && chars[chars.len() - 1] == '/' {
        0
    } else {
        4
    }
}

/// Whether the component `a` sorts before the component `b`.
fn part_precedes(a: &str, b: &str) -> (less: bool)
    ensures
        less == part_less(a@, b@),
{
    let left: u8 = rank_of(a);
    let right: u8 = rank_of(b);
    if left != right {
        left < right
    } else {
        text_precedes(a, b)
    }
}

/// Whether the path `a` sorts before the path `b`.
pub fn path_precedes(a: &FilePath, b: &FilePath) -> (less: bool)
    ensures
        less == path_less(a@, b@),
{
    let mut i: usize = 0;
    assert(a@.subrange(0, a@.len() as int) =~= a@);
    assert(b@.subrange(0, b@.len() as int) =~= b@);
    loop
        invariant
            i <= a@.len(),
            i <= b@.len(),
            path_less(a@, b@) == path_less(
                a@.subrange(i as int, a@.len() as int),
                b@.subrange(i as int, b@.len() as int),
            ),
        decreases a@.len() - i,
    {
        if i == b.len() {
            return false;
        }
        if i == a.len() {
            return true;
        }
        let left: &str = a.part(i);
        let right: &str = b.part(i);
        if part_precedes(left, right) {
            proof {
                lemma_part_order(left@, right@, right@);
            }
            return true;
        }
        if part_precedes(right, left) {
            proof {
                lemma_part_order(left@, right@, right@);
                lemma_part_order(right@, left@, left@);
            }
            return false;
        }
        proof {
            lemma_part_order(left@, right@, right@);
        }
        assert(a@.subrange(i as int, a@.len() as int).drop_first() =~= a@.subrange(
            i + 1,
            a@.len() as int,
        ));
        assert(b@.subrange(i as int, b@.len() as int).drop_first() =~= b@.subrange(
            i + 1,
            b@.len() as int,
        ));
        i = i + 1;
    }
}

/// Whether the paths stand in order and none occurs twice.
pub open spec fn strictly_sorted(paths: Seq<Seq<Seq<char>>>) -> bool {
    forall|i: int, j: int|
        0 <= i < j < paths.len() ==> #[trigger] path_less(paths[i], paths[j])
}

/// Whether the texts stand in order.
pub open spec fn sorted_texts(list: Seq<Seq<char>>) -> bool {
    forall|i: int, j: int|
        0 <= i < j < list.len() ==> !#[trigger] text_less(list[j], list[i])
}

/// Puts `path` in its place in `list`, unless it is there already.
fn insert_path(list: &mut Vec<FilePath>, path: FilePath)
    requires
        strictly_sorted(path_views(old(list)@)),
    ensures
        strictly_sorted(path_views(final(list)@)),
        path_views(final(list)@).to_set() == path_views(old(list)@).to_set().insert(path@),
{
    let ghost before = path_views(list@);
    let mut at: usize = list.len();
    while at > 0 && path_precedes(&path, &list[at - 1])
        invariant
            at <= list@.len(),
            before == path_views(list@),
            forall|k: int| at <= k < before.len() ==> #[trigger] path_less(path@, before[k]),
        decreases at,
    {
        at = at - 1;
    }
    if at > 0 && list[at - 1].same_as(&path) {
        assert(before[at - 1] == path@);
        assert(before.to_set() =~= before.to_set().insert(path@));
        return;
    }
    proof {
        if at > 0 {
            lemma_path_order(path@, before[at - 1], path@);
        }
        assert forall|k: int| 0 <= k < at implies #[trigger] path_less(before[k], path@) by {
            if k < at - 1 {
                lemma_path_order(before[k], before[at - 1], path@);
            }
        }
    }
    let ghost value = path@;
    list.insert(at, path);
    let ghost after = path_views(list@);
    assert(after =~= before.insert(at as int, value));
    assert(strictly_sorted(after)) by {
        assert forall|i: int, j: int| 0 <= i < j < after.len() implies #[trigger] path_less(
            after[i],
            after[j],
        ) by {
            if i < at && j > at {
                assert(path_less(before[i], before[j - 1]));
            }
            if i > at {
                assert(path_less(before[i - 1], before[j - 1]));
            }
            if j < at {
                assert(path_less(before[i], before[j]));
            }
        }
    }
    assert(after.to_set() =~= before.to_set().insert(value)) by {
        assert forall|x: Seq<Seq<char>>| after.contains(x) == (before.contains(x) || x == value) by {
            if before.contains(x) {
                let k = choose|k: int| 0 <= k < before.len() && before[k] == x;
                assert(after[if k < at { k } else { k + 1 }] == x);
            }
            assert(after[at as int] == value);
            if after.contains(x) && x != value {
                let k = choose|k: int| 0 <= k < after.len() && after[k] == x;
                assert(before[if k < at { k } else { k - 1 }] == x);
            }
        }
    }
}

/// The given paths in order, each once.
pub fn sorted_paths(paths: Vec<FilePath>) -> (list: Vec<FilePath>)
    ensures
        strictly_sorted(path_views(list@)),
        path_views(list@).to_set() == path_views(paths@).to_set(),
{
    let ghost all = path_views(paths@);
    let mut rest: Vec<FilePath> = paths;
    let mut list: Vec<FilePath> = Vec::new();
    assert(all.subrange(rest@.len() as int, all.len() as int).to_set() =~= path_views(
        list@,
    ).to_set());
    loop
        invariant
            all == path_views(paths@),
            rest@.len() <= all.len(),
            path_views(rest@) == all.subrange(0, rest@.len() as int),
            strictly_sorted(path_views(list@)),
            path_views(list@).to_set() == all.subrange(
                rest@.len() as int,
                all.len() as int,
            ).to_set(),
        decreases rest@.len(),
    {
        let ghost n = rest@.len();
        let ghost held = path_views(rest@);
        match rest.pop() {
            None => {
                assert(all.subrange(0, all.len() as int) =~= all);
                return list;
            },
            Some(path) => {
                assert(path@ == held[n - 1]);
                assert(path_views(rest@) =~= all.subrange(0, n - 1));
                let ghost tail = all.subrange(n as int, all.len() as int);
                let ghost longer = all.subrange(n - 1, all.len() as int);
                assert(longer =~= seq![path@] + tail);
                assert(longer.to_set() =~= tail.to_set().insert(path@)) by {
                    assert forall|x: Seq<Seq<char>>|
                        longer.contains(x) == (tail.contains(x) || x == path@) by {
                        if tail.contains(x) {
                            let k = choose|k: int| 0 <= k < tail.len() && tail[k] == x;
                            assert(longer[k + 1] == x);
                        }
                        assert(longer[0] == path@);
                        if longer.contains(x) && x != path@ {
                            let k = choose|k: int| 0 <= k < longer.len() && longer[k] == x;
                            assert(tail[k - 1] == x);
                        }
                    }
                }
                insert_path(&mut list, path);
            },
        }
    }
}

/// Puts `text` behind every text of `list` that does not sort after it.
fn insert_text(list: &mut Vec<String>, text: String)
    requires
        sorted_texts(texts(old(list)@)),
    ensures
        sorted_texts(texts(final(list)@)),
        texts(final(list)@).to_multiset() == texts(old(list)@).to_multiset().insert(text@),
{
    let ghost before = texts(list@);
    let mut at: usize = list.len();
    while at > 0 && text_precedes(text.as_str(), list[at - 1].as_str())
        invariant
            at <= list@.len(),
            before == texts(list@),
            forall|k: int| at <= k < before.len() ==> #[trigger] text_less(text@, before[k]),
        decreases at,
    {
        at = at - 1;
    }
    let ghost value = text@;
    list.insert(at, text);
    let ghost after = texts(list@);
    assert(after =~= before.insert(at as int, value));
    assert(sorted_texts(after)) by {
        assert forall|i: int, j: int| 0 <= i < j < after.len() implies !#[trigger] text_less(
            after[j],
            after[i],
        ) by {
            if i < at && j == at {
                if i < at - 1 {
                    lemma_text_order(value, before[i], before[at - 1]);
                    assert(!text_less(before[at - 1], before[i]));
                    lemma_text_order(before[at - 1], before[i], value);
                    lemma_text_order(before[i], before[at - 1], value);
                }
            } else if i == at {
                assert(text_less(value, before[j - 1]));
                lemma_text_order(value, before[j - 1], value);
            } else {
                let bi = if i < at { i } else { i - 1 };
                let bj = if j < at { j } else { j - 1 };
                assert(!text_less(before[bj], before[bi]));
            }
        }
    }
    proof {
        before.to_multiset_ensures();
        before.insert_ensures(at as int, value);
        broadcast use vstd::seq_lib::group_to_multiset_ensures;

        assert(after.to_multiset() =~= before.to_multiset().insert(value));
    }
}

/// The given texts in order.
pub fn sorted_strings(strings: Vec<String>) -> (list: Vec<String>)
    ensures
        sorted_texts(texts(list@)),
        texts(list@).to_multiset() == texts(strings@).to_multiset(),
{
    let ghost all = texts(strings@);
    let mut list: Vec<String> = Vec::new();
    let mut i: usize = 0;
    assert(texts(list@) =~= Seq::<Seq<char>>::empty());
    assert(all.subrange(0, 0) =~= Seq::<Seq<char>>::empty());
    while i < strings.len()
        invariant
            i <= strings@.len(),
            all == texts(strings@),
            sorted_texts(texts(list@)),
            texts(list@).to_multiset() == all.subrange(0, i as int).to_multiset(),
        decreases strings@.len() - i,
    {
        insert_text(&mut list, strings[i].clone());
        assert(all.subrange(0, i + 1) =~= all.subrange(0, i as int).push(all[i as int]));
        proof {
            all.subrange(0, i as int).to_multiset_ensures();
        }
        i = i + 1;
    }
    assert(all.subrange(0, i as int) =~= all);
    list
}

/// Texts order by the first character in which they differ, and a text comes
/// before all that start with it.
pub proof fn law_texts_order_by_their_first_difference(
    common: Seq<char>,
    c: char,
    d: char,
    x: Seq<char>,
    y: Seq<char>,
)
    requires
        (c as u32) < (d as u32),
    ensures
        text_less(common + seq![c] + x, common + seq![d] + y),
        !text_less(common + seq![d] + y, common + seq![c] + x),
        text_less(common, common + seq![c] + x),
        !text_less(common + seq![c] + x, common),
        !text_less(common, common),
    decreases common.len(),
{
    let a = common + seq![c] + x;
    let b = common + seq![d] + y;
    if common.len() == 0 {
        assert(a[0] == c && b[0] == d);
    } else {
        let shorter = common.drop_first();
        law_texts_order_by_their_first_difference(shorter, c, d, x, y);
        assert(a[0] == common[0] && b[0] == common[0]);
        assert(a.drop_first() =~= shorter + seq![c] + x);
        assert(b.drop_first() =~= shorter + seq![d] + y);
    }
}

/// Paths order by the first component in which they differ, and a path comes
/// before all that lie below it.
pub proof fn law_paths_order_by_their_first_difference(
    common: Seq<Seq<char>>,
    a: Seq<char>,
    b: Seq<char>,
    x: Seq<Seq<char>>,
    y: Seq<Seq<char>>,
)
    requires
        a != b,
    ensures
        path_less(common + seq![a] + x, common + seq![b] + y) == part_less(a, b),
        path_less(common, common + seq![a] + x),
        !path_less(common + seq![a] + x, common),
        !path_less(common, common),
    decreases common.len(),
{
    let left = common + seq![a] + x;
    let right = common + seq![b] + y;
    if common.len() == 0 {
        assert(left[0] == a && right[0] == b);
    } else {
        let shorter = common.drop_first();
        law_paths_order_by_their_first_difference(shorter, a, b, x, y);
        assert(left[0] == common[0] && right[0] == common[0]);
        assert(left.drop_first() =~= shorter + seq![a] + x);
        assert(right.drop_first() =~= shorter + seq![b] + y);
    }
}

/// Among components a drive or share comes before the root directory, that before
/// the current directory, that before the parent directory, and that before every
/// name; names order as texts, and so do drives.
pub proof fn law_components_order_by_kind(
    drive: Seq<char>,
    other: Seq<char>,
    name: Seq<char>,
    second: Seq<char>,
)
    requires
        drive.len() >= 2 && drive.last() == '/',
        other.len() >= 2 && other.last() == '/',
        name.len() > 0 && name.last() != '/' && name != seq!['.'] && name != seq!['.', '.'],
        second.len() > 0 && second.last() != '/' && second != seq!['.'] && second != seq!['.', '.'],
    ensures
        part_less(drive, seq!['/']),
        part_less(seq!['/'], seq!['.']),
        part_less(seq!['.'], seq!['.', '.']),
        part_less(seq!['.', '.'], name),
        part_less(drive, other) == text_less(drive, other),
        part_less(name, second) == text_less(name, second),
{
    assert(seq!['/'].len() == 1 && seq!['/'][0] == '/');
    assert(seq!['.'].len() == 1 && seq!['.'][0] == '.');
    assert(seq!['.', '.'].len() == 2 && seq!['.', '.'][1] == '.');
    assert(drive != seq!['.', '.'] && other != seq!['.', '.']);
    if name == seq!['/'] {
        assert(name.last() == '/');
    }
    if second == seq!['/'] {
        assert(second.last() == '/');
    }
}

/// In a list of sorted paths each comes before all after it, so none is there
/// twice; in a list of sorted texts each comes before those after it or is equal.
pub proof fn law_sorted_lists_ascend(
    paths: Seq<Seq<Seq<char>>>,
    list: Seq<Seq<char>>,
    i: int,
    j: int,
)
    requires
        0 <= i < j,
    ensures
        strictly_sorted(paths) && j < paths.len() ==> path_less(paths[i], paths[j]) && paths[i]
            != paths[j],
        sorted_texts(list) && j < list.len() ==> text_less(list[i], list[j]) || list[i] == list[j],
{
    if strictly_sorted(paths) && j < paths.len() {
        assert(path_less(paths[i], paths[j]));
        lemma_path_order(paths[i], paths[j], paths[j]);
    }
    if sorted_texts(list) && j < list.len() {
        assert(!text_less(list[j], list[i]));
        lemma_text_order(list[i], list[j], list[j]);
    }
}

} // verus!

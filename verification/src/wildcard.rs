//! Wildcard patterns over the bytes of a text.

use vstd::prelude::*;

verus! {

/// The byte of `*`.
pub const STAR: u8 = 42;

/// The byte of `?`.
pub const ANY: u8 = 63;

/// Whether every byte of `pattern` from `from` on is a `*`.
pub open spec fn only_stars(pattern: Seq<u8>, from: int) -> bool {
    forall|i: int| from <= i < pattern.len() ==> #[trigger] pattern[i] == STAR
}

/// Whether the pattern byte `p` stands for the one value byte `v`.
pub open spec fn byte_fits(p: u8, v: u8) -> bool {
    p == v || p == ANY
}

/// Whether `pattern` from `pi` on matches `value` from `vi` on.
///
/// A `?` stands for any one byte and a `*` for any run of bytes, the empty one
/// too. Where a `*` of the pattern meets a `*` of the value it stands for just
/// that byte.
pub open spec fn wild(pattern: Seq<u8>, pi: int, value: Seq<u8>, vi: int) -> bool
    decreases pattern.len() - pi, 0int,
{
    if vi >= value.len() {
        only_stars(pattern, pi)
    } else if pi >= pattern.len() {
        false
    } else if byte_fits(pattern[pi], value[vi]) {
        wild(pattern, pi + 1, value, vi + 1)
    } else if pattern[pi] == STAR {
        wild_later(pattern, pi + 1, value, vi)
    } else {
        false
    }
}

/// Whether `pattern` from `pi` on matches `value` from `vi` or any later place
/// on, its end included.
pub open spec fn wild_later(pattern: Seq<u8>, pi: int, value: Seq<u8>, vi: int) -> bool
    decreases pattern.len() - pi, value.len() - vi + 1,
{
    if vi > value.len() {
        false
    } else {
        wild(pattern, pi, value, vi) || wild_later(pattern, pi, value, vi + 1)
    }
}

/// Whether `pattern` matches `value`.
pub open spec fn wildcard_matches(pattern: Seq<u8>, value: Seq<u8>) -> bool {
    wild(pattern, 0, value, 0)
}

/// A match here or at a later place is a match here or at a place after this.
proof fn lemma_later_unfolds(pattern: Seq<u8>, pi: int, value: Seq<u8>, vi: int)
    requires
        vi <= value.len(),
    ensures
        wild_later(pattern, pi, value, vi) == (wild(pattern, pi, value, vi) || wild_later(
            pattern,
            pi,
            value,
            vi + 1,
        )),
{
    reveal_with_fuel(wild, 2);
    reveal_with_fuel(wild_later, 2);
}

/// `wild_later` holds where `wild` holds at some later place.
proof fn lemma_later(pattern: Seq<u8>, pi: int, value: Seq<u8>, vi: int)
    ensures
        wild_later(pattern, pi, value, vi) <==> exists|k: int|
            vi <= k <= value.len() && #[trigger] wild(pattern, pi, value, k),
    decreases value.len() - vi + 1,
{
    if vi <= value.len() {
        lemma_later_unfolds(pattern, pi, value, vi);
        lemma_later(pattern, pi, value, vi + 1);
    }
}

/// Where the bytes `i..j` of the pattern fit the value byte by byte from `y`
/// on, a match of the pattern from `i` that starts at `y` or later leaves the
/// rest of the pattern a match at `y + (j - i)` or later.
proof fn lemma_later_match(
    pattern: Seq<u8>,
    i: int,
    j: int,
    value: Seq<u8>,
    y: int,
    x: int,
) -> (later: int)
    requires
        0 <= i <= j <= pattern.len(),
        0 <= y <= x <= value.len(),
        y + (j - i) <= value.len(),
        forall|t: int|
            i <= t < j ==> byte_fits(#[trigger] pattern[t], value[y + (t - i)]),
        wild(pattern, i, value, x),
    ensures
        y + (j - i) <= later <= value.len(),
        wild(pattern, j, value, later),
    decreases j - i,
{
    if i == j {
        x
    } else if x == value.len() {
        value.len() as int
    } else if byte_fits(pattern[i], value[x]) {
        lemma_later_match(pattern, i + 1, j, value, y + 1, x + 1)
    } else {
        assert(byte_fits(pattern[i], value[y]));
        lemma_later(pattern, i + 1, value, x);
        let k = choose|k: int| x <= k <= value.len() && #[trigger] wild(pattern, i + 1, value, k);
        lemma_later_match(pattern, i + 1, j, value, y + 1, k)
    }
}

/// Once a second `*` of the pattern is reached, with the bytes since the first
/// one fitting byte by byte, no later start for the first one matches more.
proof fn lemma_star_supersedes(
    pattern: Seq<u8>,
    star: int,
    pi: int,
    value: Seq<u8>,
    star_value: int,
)
    requires
        0 <= star < pi < pattern.len(),
        0 <= star_value,
        star_value + (pi - star - 1) < value.len(),
        pattern[pi] == STAR,
        value[star_value + (pi - star - 1)] != STAR,
        forall|t: int|
            star < t < pi ==> byte_fits(#[trigger] pattern[t], value[star_value + (t - star - 1)]),
        wild_later(pattern, star + 1, value, star_value + 1),
    ensures
        wild(pattern, pi, value, star_value + (pi - star - 1)),
{
    let vi = star_value + (pi - star - 1);
    lemma_later(pattern, star + 1, value, star_value + 1);
    let k = choose|k: int|
        star_value + 1 <= k <= value.len() && #[trigger] wild(pattern, star + 1, value, k);
    let later = lemma_later_match(pattern, star + 1, pi, value, star_value, k);
    lemma_later(pattern, pi + 1, value, vi);
    if later == value.len() {
        assert(wild(pattern, pi + 1, value, later));
    } else if value[later] == STAR {
        assert(wild(pattern, pi + 1, value, later + 1));
    } else {
        lemma_later(pattern, pi + 1, value, later);
        let m = choose|m: int|
            later <= m <= value.len() && #[trigger] wild(pattern, pi + 1, value, m);
        assert(vi <= m);
    }
}

/// Whether `pattern` matches `value`, both in lower case where the comparison
/// is to ignore the case.
pub fn wildcard_match(pattern: &str, value: &str) -> (matched: bool)
    ensures
        matched == wildcard_matches(
            vstd::utf8::encode_utf8(pattern@),
            vstd::utf8::encode_utf8(value@),
        ),
{
    let pattern_bytes: &[u8] = pattern.as_bytes();
    let value_bytes: &[u8] = value.as_bytes();
    let ghost p = pattern_bytes@;
    let ghost v = value_bytes@;
    let mut pi: usize = 0;
    let mut vi: usize = 0;
    let mut star: Option<usize> = None;
    let mut star_value: usize = 0;

    while vi < value_bytes.len()
        invariant
            p == pattern_bytes@,
            v == value_bytes@,
            p == vstd::utf8::encode_utf8(pattern@),
            v == vstd::utf8::encode_utf8(value@),
            pi <= p.len(),
            vi <= v.len(),
            star_value <= vi,
            star matches Some(s) ==> {
                &&& s < pi
                &&& vi - star_value == pi - s - 1
                &&& forall|t: int|
                    s < t < pi ==> byte_fits(#[trigger] p[t], v[star_value + (t - s - 1)])
            },
            wildcard_matches(p, v) <==> wild(p, pi as int, v, vi as int) || (star matches Some(s)
                && wild_later(p, s + 1, v, star_value + 1)),
        decreases
                p.len() - (match star {
                    Some(s) => s + 1,
                    None => 0,
                }),
                v.len() - star_value,
                v.len() - vi,
    {
        if pi < pattern_bytes.len() && (pattern_bytes[pi] == value_bytes[vi] || pattern_bytes[pi]
            == ANY) {
            pi = pi + 1;
            vi = vi + 1;
        } else if pi < pattern_bytes.len() && pattern_bytes[pi] == STAR {
            proof {
                if let Some(s) = star {
                    if wild_later(p, s + 1, v, star_value + 1) {
                        lemma_star_supersedes(p, s as int, pi as int, v, star_value as int);
                    }
                }
                lemma_later_unfolds(p, pi + 1, v, vi as int);
            }
            star = Some(pi);
            pi = pi + 1;
            star_value = vi;
        } else if let Some(star_index) = star {
            proof {
                lemma_later_unfolds(p, star_index + 1, v, star_value + 1);
            }
            pi = star_index + 1;
            star_value = star_value + 1;
            vi = star_value;
        } else {
            return false;
        }
    }
    proof {
        if let Some(s) = star {
            lemma_later(p, s + 1, v, star_value + 1);
            if wild_later(p, s + 1, v, star_value + 1) {
                let k = choose|k: int|
                    star_value < k <= v.len() && #[trigger] wild(p, s + 1, v, k);
                let later = lemma_later_match(p, s + 1, pi as int, v, star_value as int, k);
                assert(later == v.len());
            }
        }
    }
    let ghost rest = pi as int;
    while pi < pattern_bytes.len() && pattern_bytes[pi] == STAR
        invariant
            p == pattern_bytes@,
            rest <= pi <= p.len(),
            forall|i: int| rest <= i < pi ==> #[trigger] p[i] == STAR,
        decreases p.len() - pi,
    {
        pi = pi + 1;
    }
    pi == pattern_bytes.len()
}

/// Whether `pattern` from `pi` on stands for `value` from `vi` on, with `?` for
/// any one byte and `*` for any run of bytes, whatever they are.
pub open spec fn glob(pattern: Seq<u8>, pi: int, value: Seq<u8>, vi: int) -> bool
    decreases pattern.len() - pi, value.len() - vi,
{
    if pi >= pattern.len() {
        vi >= value.len()
    } else if pattern[pi] == STAR {
        glob(pattern, pi + 1, value, vi) || (vi < value.len() && glob(pattern, pi, value, vi + 1))
    } else {
        vi < value.len() && byte_fits(pattern[pi], value[vi]) && glob(
            pattern,
            pi + 1,
            value,
            vi + 1,
        )
    }
}

proof fn lemma_wild_is_glob(pattern: Seq<u8>, pi: int, value: Seq<u8>, vi: int)
    requires
        0 <= pi <= pattern.len(),
        0 <= vi <= value.len(),
        !value.contains(STAR),
    ensures
        wild(pattern, pi, value, vi) == glob(pattern, pi, value, vi),
    decreases pattern.len() - pi, value.len() - vi,
{
    if pi < pattern.len() {
        lemma_wild_is_glob(pattern, pi + 1, value, vi);
        if vi < value.len() {
            assert(value[vi] != STAR) by {
                assert(value.contains(value[vi]));
            }
            lemma_wild_is_glob(pattern, pi + 1, value, vi + 1);
            lemma_wild_is_glob(pattern, pi, value, vi + 1);
            lemma_later_unfolds(pattern, pi + 1, value, vi);
            if vi + 1 < value.len() {
                assert(value[vi + 1] != STAR) by {
                    assert(value.contains(value[vi + 1]));
                }
            } else {
                lemma_later_unfolds(pattern, pi + 1, value, vi + 1);
            }
        }
    }
}

/// On a value without `*`, a pattern matches as wildcards commonly do.
pub proof fn law_wildcards_are_globs(pattern: Seq<u8>, value: Seq<u8>)
    requires
        !value.contains(STAR),
    ensures
        wildcard_matches(pattern, value) == glob(pattern, 0, value, 0),
{
    lemma_wild_is_glob(pattern, 0, value, 0);
}

proof fn lemma_plain(pattern: Seq<u8>, value: Seq<u8>, at: int)
    requires
        0 <= at <= pattern.len(),
        at <= value.len(),
        !pattern.contains(STAR),
        !pattern.contains(ANY),
    ensures
        wild(pattern, at, value, at) <==> pattern.skip(at) =~= value.skip(at),
    decreases pattern.len() - at,
{
    if at < pattern.len() {
        assert(pattern[at] != STAR && pattern[at] != ANY) by {
            assert(pattern.contains(pattern[at]));
        }
        if at < value.len() {
            lemma_plain(pattern, value, at + 1);
            assert(pattern.skip(at) =~= seq![pattern[at]] + pattern.skip(at + 1));
            assert(value.skip(at) =~= seq![value[at]] + value.skip(at + 1));
            if pattern.skip(at) =~= value.skip(at) {
                assert(pattern.skip(at)[0] == value.skip(at)[0]);
                assert(pattern.skip(at).skip(1) =~= pattern.skip(at + 1));
                assert(value.skip(at).skip(1) =~= value.skip(at + 1));
            }
        }
    }
}

/// A pattern without `*` and `?` matches itself and nothing else.
pub proof fn law_plain_patterns_match_themselves(pattern: Seq<u8>, value: Seq<u8>)
    requires
        !pattern.contains(STAR),
        !pattern.contains(ANY),
    ensures
        wildcard_matches(pattern, value) <==> pattern == value,
{
    lemma_plain(pattern, value, 0);
    assert(pattern.skip(0) =~= pattern);
    assert(value.skip(0) =~= value);
}

/// Whether a match starts at the given places depends on what comes after them
/// alone.
proof fn lemma_shift(pattern: Seq<u8>, pi: int, value: Seq<u8>, vi: int, dp: int, dv: int)
    requires
        0 <= dp <= pi <= pattern.len(),
        0 <= dv <= vi <= value.len(),
    ensures
        wild(pattern, pi, value, vi) == wild(pattern.skip(dp), pi - dp, value.skip(dv), vi - dv),
    decreases pattern.len() - pi,
{
    let p = pattern.skip(dp);
    let v = value.skip(dv);
    if vi == value.len() {
        assert forall|i: int| pi - dp <= i < p.len() implies #[trigger] p[i] == pattern[i + dp] by {}
        assert(only_stars(pattern, pi) == only_stars(p, pi - dp)) by {
            if only_stars(p, pi - dp) {
                assert forall|i: int| pi <= i < pattern.len() implies #[trigger] pattern[i]
                    == STAR by {
                    assert(p[i - dp] == STAR);
                }
            }
        }
    } else if pi < pattern.len() {
        assert(p[pi - dp] == pattern[pi] && v[vi - dv] == value[vi]);
        lemma_shift(pattern, pi + 1, value, vi + 1, dp, dv);
        lemma_later(pattern, pi + 1, value, vi);
        lemma_later(p, pi - dp + 1, v, vi - dv);
        assert forall|k: int| vi <= k <= value.len() implies #[trigger] wild(
            pattern,
            pi + 1,
            value,
            k,
        ) == wild(p, pi - dp + 1, v, k - dv) by {
            lemma_shift(pattern, pi + 1, value, k, dp, dv);
        }
        if wild_later(p, pi - dp + 1, v, vi - dv) {
            let k = choose|k: int|
                vi - dv <= k <= v.len() && #[trigger] wild(p, pi - dp + 1, v, k);
            assert(wild(pattern, pi + 1, value, k + dv));
        }
        if wild_later(pattern, pi + 1, value, vi) {
            let k = choose|k: int|
                vi <= k <= value.len() && #[trigger] wild(pattern, pi + 1, value, k);
            assert(wild(p, pi - dp + 1, v, k - dv));
        }
    }
}

/// How a pattern (`*` is 42, `?` is 63) matches, by its first byte and that of
/// the value. An empty value needs a pattern of `*` alone, and an empty pattern
/// an empty value. A byte that is the value's, and `?`, stands for that byte. Any
/// other `*` stands for some number of bytes, none or more. Nothing else matches.
pub proof fn law_patterns_match_byte_by_byte(pattern: Seq<u8>, value: Seq<u8>)
    ensures
        value.len() == 0 ==> (wildcard_matches(pattern, value) <==> forall|i: int|
            0 <= i < pattern.len() ==> #[trigger] pattern[i] == 42),
        pattern.len() == 0 && value.len() > 0 ==> !wildcard_matches(pattern, value),
        pattern.len() > 0 && value.len() > 0 ==> {
            let rest = pattern.skip(1);
            if pattern[0] == value[0] || pattern[0] == 63 {
                wildcard_matches(pattern, value) <==> wildcard_matches(rest, value.skip(1))
            } else if pattern[0] == 42 {
                wildcard_matches(pattern, value) <==> exists|n: int|
                    0 <= n <= value.len() && #[trigger] wildcard_matches(rest, value.skip(n))
            } else {
                !wildcard_matches(pattern, value)
            }
        },
{
    if pattern.len() > 0 && value.len() > 0 {
        let rest = pattern.skip(1);
        lemma_shift(pattern, 1, value, 1, 1, 1);
        lemma_later(pattern, 1, value, 0);
        assert forall|n: int| 0 <= n <= value.len() implies #[trigger] wildcard_matches(
            rest,
            value.skip(n),
        ) == wild(pattern, 1, value, n) by {
            lemma_shift(pattern, 1, value, n, 1, n);
        }
        if pattern[0] == 42 && value[0] != 42 {
            if wildcard_matches(pattern, value) {
                let n = choose|n: int| 0 <= n <= value.len() && #[trigger] wild(pattern, 1, value, n);
                assert(wildcard_matches(rest, value.skip(n)));
            }
            if exists|n: int|
                0 <= n <= value.len() && #[trigger] wildcard_matches(rest, value.skip(n)) {
                let n = choose|n: int|
                    0 <= n <= value.len() && #[trigger] wildcard_matches(rest, value.skip(n));
                assert(wild(pattern, 1, value, n));
            }
        }
    }
}

} // verus!

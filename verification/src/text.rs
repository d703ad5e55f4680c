//! Text operations shared by the stages: decimal numbers, ASCII case,
//! trimming, searching and joining, each stated over sequences of characters.

use vstd::prelude::*;
use vstd::string::StringExecFns;

verus! {

/// `String::push` appends the given character to the end of the string.
pub assume_specification[ String::push ](text: &mut String, c: char)
    ensures
        final(text)@ == old(text)@.push(c),
;

/// The decimal digit with value `d`.
pub open spec fn digit_char(d: nat) -> char {
    (('0' as nat) + d) as char
}

/// `n` written in decimal, without leading zeros.
pub open spec fn decimal_text(n: nat) -> Seq<char>
    decreases n,
{
    if n < 10 {
        seq![digit_char(n)]
    } else {
        decimal_text(n / 10).push(digit_char(n % 10))
    }
}

/// The lowercase form of an ASCII letter, any other character unchanged.
pub open spec fn lower_char(c: char) -> char {
    if 'A' <= c && c <= 'Z' {
        ((c as u32) + 32) as char
    } else {
        c
    }
}

/// `text` with every ASCII letter in lower case.
pub open spec fn lower_text(text: Seq<char>) -> Seq<char> {
    text.map_values(|c: char| lower_char(c))
}

/// `text` with every backslash turned into a slash.
pub open spec fn slashed_text(text: Seq<char>) -> Seq<char> {
    text.map_values(|c: char| if c == '\\' { '/' } else { c })
}

/// Whether `c` has the Unicode property `White_Space`.
pub open spec fn is_white(c: char) -> bool {
    ||| 0x09 <= c as u32 <= 0x0d
    ||| c as u32 == 0x20
    ||| c as u32 == 0x85
    ||| c as u32 == 0xa0
    ||| c as u32 == 0x1680
    ||| 0x2000 <= c as u32 <= 0x200a
    ||| c as u32 == 0x2028
    ||| c as u32 == 0x2029
    ||| c as u32 == 0x202f
    ||| c as u32 == 0x205f
    ||| c as u32 == 0x3000
}

/// `text` without the white space at its start.
pub open spec fn trimmed_start(text: Seq<char>) -> Seq<char>
    decreases text.len(),
{
    if text.len() > 0 && is_white(text[0]) {
        trimmed_start(text.subrange(1, text.len() as int))
    } else {
        text
    }
}

/// `text` without the white space at its end.
pub open spec fn trimmed_end(text: Seq<char>) -> Seq<char>
    decreases text.len(),
{
    if text.len() > 0 && is_white(text.last()) {
        trimmed_end(text.drop_last())
    } else {
        text
    }
}

/// `text` without the white space at its start and at its end.
pub open spec fn trimmed(text: Seq<char>) -> Seq<char> {
    trimmed_end(trimmed_start(text))
}

/// Whether `needle` occurs in `hay` at position `at`.
pub open spec fn occurs_at(hay: Seq<char>, needle: Seq<char>, at: int) -> bool {
    &&& 0 <= at
    &&& at + needle.len() <= hay.len()
    &&& hay.subrange(at, at + needle.len()) == needle
}

/// Whether `needle` occurs somewhere in `hay`.
pub open spec fn occurs_in(hay: Seq<char>, needle: Seq<char>) -> bool {
    exists|at: int| occurs_at(hay, needle, at)
}

/// Whether `text` ends with `suffix`.
pub open spec fn ends_with_text(text: Seq<char>, suffix: Seq<char>) -> bool {
    occurs_at(text, suffix, text.len() - suffix.len())
}

/// The parts in order, with `separator` between neighbours.
pub open spec fn joined(parts: Seq<Seq<char>>, separator: Seq<char>) -> Seq<char>
    decreases parts.len(),
{
    if parts.len() == 0 {
        Seq::empty()
    } else if parts.len() == 1 {
        parts[0]
    } else {
        joined(parts.drop_last(), separator) + separator + parts.last()
    }
}

/// The characters of each string.
pub open spec fn texts(strings: Seq<String>) -> Seq<Seq<char>> {
    strings.map_values(|s: String| s@)
}

/// The first line of `text`, without its line ending (`\n` or `\r\n`).
pub open spec fn first_line(text: Seq<char>) -> Seq<char> {
    if text.contains('\n') {
        let end = text.index_of_first('\n')->0;
        if end > 0 && text[end - 1] == '\r' {
            text.subrange(0, end - 1)
        } else {
            text.subrange(0, end)
        }
    } else {
        text
    }
}

/// The characters of `text`, one by one.
pub fn chars_of(text: &str) -> (chars: Vec<char>)
    ensures
        chars@ == text@,
{
    let mut chars: Vec<char> = Vec::new();
    for c in iter: text.chars()
        invariant
            iter.seq() == text@,
            chars@ == text@.subrange(0, iter.index() as int),
    {
        chars.push(c);
        assert(text@.subrange(0, iter.index() + 1) =~= text@.subrange(0, iter.index() as int).push(
            c,
        ));
    }
    assert(text@.subrange(0, text@.len() as int) =~= text@);
    chars
}

/// The string made of the characters `from..to` of `chars`.
pub fn string_of(chars: &Vec<char>, from: usize, to: usize) -> (text: String)
    requires
        from <= to <= chars@.len(),
    ensures
        text@ == chars@.subrange(from as int, to as int),
{
    let mut text: String = String::new();
    let mut i: usize = from;
    while i < to
        invariant
            from <= i <= to <= chars@.len(),
            text@ == chars@.subrange(from as int, i as int),
        decreases to - i,
    {
        text.push(chars[i]);
        i = i + 1;
        assert(text@ =~= chars@.subrange(from as int, i as int));
    }
    text
}

/// `n` in decimal.
pub fn decimal(n: u64) -> (text: String)
    ensures
        text@ == decimal_text(n as nat),
    decreases n,
{
    let mut text: String = if n < 10 {
        String::new()
    } else {
        decimal(n / 10)
    };
    let d: u8 = (n % 10) as u8;
    let code: u8 = 48 + d;
    text.push(code as char);
    assert(text@ =~= decimal_text(n as nat));
    text
}

/// `text` with every ASCII letter in lower case.
pub fn ascii_lowercase(text: &str) -> (lower: String)
    ensures
        lower@ == lower_text(text@),
{
    let chars: Vec<char> = chars_of(text);
    let mut lower: String = String::new();
    let mut i: usize = 0;
    while i < chars.len()
        invariant
            i <= chars@.len(),
            lower@ == lower_text(chars@.subrange(0, i as int)),
        decreases chars@.len() - i,
    {
        let c: char = chars[i];
        if 'A' <= c && c <= 'Z' {
            let code: u8 = c as u8;
            lower.push((code + 32) as char);
        } else {
            lower.push(c);
        }
        i = i + 1;
        assert(lower@ =~= lower_text(chars@.subrange(0, i as int)));
    }
    assert(chars@.subrange(0, i as int) =~= text@);
    lower
}

/// `text` with every backslash turned into a slash.
pub fn with_slashes(text: &str) -> (slashed: String)
    ensures
        slashed@ == slashed_text(text@),
{
    let chars: Vec<char> = chars_of(text);
    let mut slashed: String = String::new();
    let mut i: usize = 0;
    while i < chars.len()
        invariant
            i <= chars@.len(),
            slashed@ == slashed_text(chars@.subrange(0, i as int)),
        decreases chars@.len() - i,
    {
        let c: char = chars[i];
        if c == '\\' {
            slashed.push('/');
        } else {
            slashed.push(c);
        }
        i = i + 1;
        assert(slashed@ =~= slashed_text(chars@.subrange(0, i as int)));
    }
    assert(chars@.subrange(0, i as int) =~= text@);
    slashed
}

/// Whether `c` has the Unicode property `White_Space`.
pub fn is_white_space(c: char) -> (white: bool)
    ensures
        white == is_white(c),
{
    let code: u32 = c as u32;
    (0x09 <= code && code <= 0x0d) || code == 0x20 || code == 0x85 || code == 0xa0 || code == 0x1680
        || (0x2000 <= code && code <= 0x200a) || code == 0x2028 || code == 0x2029 || code == 0x202f
        || code == 0x205f || code == 0x3000
}

/// `text` without the white space at its start and at its end.
pub fn trim(text: &str) -> (trimmed_string: String)
    ensures
        trimmed_string@ == trimmed(text@),
{
    let chars: Vec<char> = chars_of(text);
    let n: usize = chars.len();
    let mut from: usize = 0;
    assert(chars@.subrange(0, n as int) =~= text@);
    while from < n && is_white_space(chars[from])
        invariant
            from <= n == chars@.len(),
            trimmed_start(text@) == trimmed_start(chars@.subrange(from as int, n as int)),
        decreases n - from,
    {
        assert(chars@.subrange(from as int, n as int).subrange(1, n - from) =~= chars@.subrange(
            from + 1,
            n as int,
        ));
        from = from + 1;
    }
    assert(trimmed_start(text@) == chars@.subrange(from as int, n as int));
    let mut to: usize = n;
    while to > from && is_white_space(chars[to - 1])
        invariant
            from <= to <= n == chars@.len(),
            trimmed(text@) == trimmed_end(chars@.subrange(from as int, to as int)),
        decreases to,
    {
        assert(chars@.subrange(from as int, to as int).drop_last() =~= chars@.subrange(
            from as int,
            to - 1,
        ));
        to = to - 1;
    }
    string_of(&chars, from, to)
}

/// Whether `needle` occurs in `hay` at position `at`.
fn matches_at(hay: &Vec<char>, needle: &Vec<char>, at: usize) -> (found: bool)
    requires
        at + needle@.len() <= hay@.len(),
    ensures
        found == occurs_at(hay@, needle@, at as int),
{
    let hay_len: usize = hay.len();
    let mut i: usize = 0;
    while i < needle.len()
        invariant
            i <= needle@.len(),
            at + needle@.len() <= hay@.len() == hay_len,
            hay@.subrange(at as int, at + i) == needle@.subrange(0, i as int),
        decreases needle@.len() - i,
    {
        if hay[at + i] != needle[i] {
            assert(hay@.subrange(at as int, at + needle@.len())[i as int] != needle@[i as int]);
            return false;
        }
        assert(hay@.subrange(at as int, at + i + 1) =~= hay@.subrange(at as int, at + i).push(
            hay@[at + i],
        ));
        assert(needle@.subrange(0, i + 1) =~= needle@.subrange(0, i as int).push(needle@[i as int]));
        i = i + 1;
    }
    assert(needle@.subrange(0, i as int) =~= needle@);
    true
}

/// Whether `needle` occurs somewhere in `hay`.
pub fn contains_text(hay: &str, needle: &str) -> (found: bool)
    ensures
        found == occurs_in(hay@, needle@),
{
    let hay_chars: Vec<char> = chars_of(hay);
    let needle_chars: Vec<char> = chars_of(needle);
    if needle_chars.len() > hay_chars.len() {
        return false;
    }
    let last: usize = hay_chars.len() - needle_chars.len();
    let mut at: usize = 0;
    loop
        invariant
            hay_chars@ == hay@,
            needle_chars@ == needle@,
            last + needle@.len() == hay@.len(),
            at <= last,
            forall|k: int| k < at ==> !occurs_at(hay@, needle@, k),
        decreases last - at,
    {
        if matches_at(&hay_chars, &needle_chars, at) {
            assert(occurs_at(hay@, needle@, at as int));
            return true;
        }
        if at == last {
            return false;
        }
        at = at + 1;
    }
}

/// Whether `text` ends with `suffix`.
pub fn has_suffix(text: &str, suffix: &str) -> (found: bool)
    ensures
        found == ends_with_text(text@, suffix@),
{
    let chars: Vec<char> = chars_of(text);
    let suffix_chars: Vec<char> = chars_of(suffix);
    if suffix_chars.len() > chars.len() {
        return false;
    }
    matches_at(&chars, &suffix_chars, chars.len() - suffix_chars.len())
}

/// The parts in order, with `separator` between neighbours.
pub fn join(parts: &Vec<String>, separator: &str) -> (text: String)
    ensures
        text@ == joined(texts(parts@), separator@),
{
    let mut text: String = String::new();
    let mut i: usize = 0;
    while i < parts.len()
        invariant
            i <= parts@.len(),
            text@ == joined(texts(parts@).subrange(0, i as int), separator@),
        decreases parts@.len() - i,
    {
        let ghost next = texts(parts@).subrange(0, i + 1);
        assert(next.drop_last() =~= texts(parts@).subrange(0, i as int));
        if i > 0 {
            text.append(separator);
        }
        text.append(parts[i].as_str());
        i = i + 1;
        assert(text@ =~= joined(next, separator@));
    }
    assert(texts(parts@).subrange(0, i as int) =~= texts(parts@));
    text
}

/// The first line of `text`, without its line ending (`\n` or `\r\n`).
pub fn head_line(text: &str) -> (line: String)
    ensures
        line@ == first_line(text@),
{
    let chars: Vec<char> = chars_of(text);
    let mut end: usize = 0;
    while end < chars.len() && chars[end] != '\n'
        invariant
            end <= chars@.len(),
            forall|k: int| 0 <= k < end ==> chars@[k] != '\n',
        decreases chars@.len() - end,
    {
        end = end + 1;
    }
    if end == chars.len() {
        assert(!text@.contains('\n'));
        assert(chars@.subrange(0, end as int) =~= text@);
        return string_of(&chars, 0, end);
    }
    assert(text@[end as int] == '\n');
    proof {
        text@.index_of_first_ensures('\n');
    }
    if end > 0 && chars[end - 1] == '\r' {
        string_of(&chars, 0, end - 1)
    } else {
        string_of(&chars, 0, end)
    }
}

// ---------------------------------------------------------------------------
// What the operations mean
// ---------------------------------------------------------------------------

/// The number that a sequence of decimal digits stands for.
pub open spec fn value_of(digits: Seq<char>) -> int
    decreases digits.len(),
{
    if digits.len() == 0 {
        0
    } else {
        10 * value_of(digits.drop_last()) + (digits.last() as int - '0' as int)
    }
}

/// A number is written with decimal digits that stand for it, and without a zero
/// before them.
pub proof fn law_decimal_texts_stand_for_numbers(n: nat)
    ensures
        value_of(decimal_text(n)) == n,
        decimal_text(n).len() > 0,
        forall|i: int|
            0 <= i < decimal_text(n).len() ==> '0' <= #[trigger] decimal_text(n)[i] <= '9',
        decimal_text(n).len() > 1 ==> decimal_text(n)[0] != '0',
    decreases n,
{
    reveal_with_fuel(value_of, 2);
    if n >= 10 {
        law_decimal_texts_stand_for_numbers(n / 10);
        assert(decimal_text(n).drop_last() =~= decimal_text(n / 10));
        if decimal_text(n / 10).len() == 1 {
            assert(value_of(decimal_text(n / 10)) == decimal_text(n / 10)[0] as int - '0' as int)
                by {
                assert(decimal_text(n / 10).drop_last().len() == 0);
            }
        }
    } else {
        assert(decimal_text(n).drop_last().len() == 0);
    }
}

/// Lowering a text lowers its ASCII letters, each in its place, and no other
/// character.
pub proof fn law_lowering_is_letter_by_letter(text: Seq<char>, i: int)
    requires
        0 <= i < text.len(),
    ensures
        lower_text(text).len() == text.len(),
        'A' <= text[i] <= 'Z' ==> lower_text(text)[i] as int == text[i] as int + 32,
        !('A' <= text[i] <= 'Z') ==> lower_text(text)[i] == text[i],
{
}

/// Every backslash becomes a slash, and nothing else changes.
pub proof fn law_slashing_is_letter_by_letter(text: Seq<char>, i: int)
    requires
        0 <= i < text.len(),
    ensures
        slashed_text(text).len() == text.len(),
        text[i] == '\\' ==> slashed_text(text)[i] == '/',
        text[i] != '\\' ==> slashed_text(text)[i] == text[i],
{
}

/// Whether a text is all white space.
pub open spec fn all_white(text: Seq<char>) -> bool {
    forall|i: int| 0 <= i < text.len() ==> is_white(#[trigger] text[i])
}

/// Trimming takes white space off both ends and leaves a text that neither
/// starts nor ends with white space: however a text is put together of white
/// space, such a text and white space, it is that text which is left.
pub proof fn law_trimming_leaves_the_core(before: Seq<char>, core: Seq<char>, after: Seq<char>)
    requires
        all_white(before),
        all_white(after),
        core.len() > 0,
        !is_white(core[0]),
        !is_white(core.last()),
    ensures
        trimmed(before + core + after) == core,
        trimmed(before).len() == 0,
{
    lemma_trimmed_start(before, core + after);
    assert(before + core + after =~= before + (core + after));
    lemma_trimmed_end(core, after);
    lemma_trimmed_start(before, Seq::empty());
    assert(before + Seq::empty() =~= before);
}

proof fn lemma_trimmed_start(before: Seq<char>, rest: Seq<char>)
    requires
        all_white(before),
        rest.len() > 0 ==> !is_white(rest[0]),
    ensures
        trimmed_start(before + rest) == rest,
    decreases before.len(),
{
    if before.len() == 0 {
        assert(before + rest =~= rest);
    } else {
        let shorter = before.drop_first();
        assert forall|i: int| 0 <= i < shorter.len() implies is_white(#[trigger] shorter[i]) by {
            assert(shorter[i] == before[i + 1]);
        }
        lemma_trimmed_start(shorter, rest);
        assert((before + rest)[0] == before[0]);
        assert((before + rest).subrange(1, (before + rest).len() as int) =~= shorter + rest);
    }
}

proof fn lemma_trimmed_end(rest: Seq<char>, after: Seq<char>)
    requires
        all_white(after),
        rest.len() > 0 ==> !is_white(rest.last()),
    ensures
        trimmed_end(rest + after) == rest,
    decreases after.len(),
{
    if after.len() == 0 {
        assert(rest + after =~= rest);
    } else {
        let shorter = after.drop_last();
        assert forall|i: int| 0 <= i < shorter.len() implies is_white(#[trigger] shorter[i]) by {
            assert(shorter[i] == after[i]);
        }
        lemma_trimmed_end(rest, shorter);
        assert((rest + after).last() == after.last());
        assert((rest + after).drop_last() =~= rest + shorter);
    }
}

/// A text occurs in another exactly where the other can be put together of
/// something, the text, and something.
pub proof fn law_occurring_is_standing_between(hay: Seq<char>, needle: Seq<char>)
    ensures
        occurs_in(hay, needle) <==> exists|before: Seq<char>, after: Seq<char>| #[trigger]
            (before + needle + after) == hay,
{
    if occurs_in(hay, needle) {
        let at = choose|at: int| occurs_at(hay, needle, at);
        let before = hay.subrange(0, at);
        let after = hay.subrange(at + needle.len(), hay.len() as int);
        assert(before + needle + after =~= hay) by {
            assert(hay.subrange(at, at + needle.len()) == needle);
            assert forall|i: int| 0 <= i < hay.len() implies (before + needle + after)[i]
                == hay[i] by {
                if at <= i < at + needle.len() {
                    assert(hay.subrange(at, at + needle.len())[i - at] == hay[i]);
                }
            }
        }
    }
    if exists|before: Seq<char>, after: Seq<char>| #[trigger] (before + needle + after) == hay {
        let (before, after) = choose|before: Seq<char>, after: Seq<char>| #[trigger]
            (before + needle + after) == hay;
        assert(hay.subrange(before.len() as int, (before.len() + needle.len()) as int) =~= needle);
        assert(occurs_at(hay, needle, before.len() as int));
    }
}

/// A text ends with a suffix exactly if it is something and the suffix.
pub proof fn law_ending_is_standing_last(text: Seq<char>, suffix: Seq<char>)
    ensures
        ends_with_text(text, suffix) <==> exists|stem: Seq<char>| #[trigger] (stem + suffix)
            == text,
{
    if ends_with_text(text, suffix) {
        let at = text.len() - suffix.len();
        let stem = text.subrange(0, at);
        assert(stem + suffix =~= text) by {
            assert(text.subrange(at, at + suffix.len()) == suffix);
            assert forall|i: int| at <= i < text.len() implies suffix[i - at] == text[i] by {
                assert(text.subrange(at, at + suffix.len())[i - at] == text[i]);
            }
        }
    }
    if exists|stem: Seq<char>| #[trigger] (stem + suffix) == text {
        let stem = choose|stem: Seq<char>| #[trigger] (stem + suffix) == text;
        assert(text.subrange(stem.len() as int, (stem.len() + suffix.len()) as int) =~= suffix);
    }
}

/// Joining nothing gives nothing, joining one text gives it, and joining two
/// lists in a row gives what each gives with the separator between them.
pub proof fn law_joining_is_putting_between(
    one: Seq<char>,
    a: Seq<Seq<char>>,
    b: Seq<Seq<char>>,
    separator: Seq<char>,
)
    requires
        a.len() > 0,
        b.len() > 0,
    ensures
        joined(Seq::empty(), separator) == Seq::<char>::empty(),
        joined(seq![one], separator) == one,
        joined(a + b, separator) == joined(a, separator) + separator + joined(b, separator),
    decreases b.len(),
{
    if b.len() == 1 {
        assert((a + b).drop_last() =~= a);
        assert((a + b).last() == b[0]);
    } else {
        law_joining_is_putting_between(one, a, b.drop_last(), separator);
        assert((a + b).drop_last() =~= a + b.drop_last());
        assert((a + b).last() == b.last());
        assert(joined(a + b, separator) =~= joined(a, separator) + separator + joined(
            b,
            separator,
        ));
    }
}

/// The first line is all that comes before the first line ending, `\r\n` or
/// `\n`, and the whole text if there is none.
pub proof fn law_the_first_line_comes_before_the_ending(line: Seq<char>, rest: Seq<char>)
    requires
        !line.contains('\n'),
    ensures
        first_line(line) == line,
        first_line(line + seq!['\r', '\n'] + rest) == line,
        line.len() == 0 || line.last() != '\r' ==> first_line(line + seq!['\n'] + rest) == line,
{
    let long = line + seq!['\r', '\n'] + rest;
    assert(long[line.len() as int + 1] == '\n');
    long.index_of_first_ensures('\n');
    let at = long.index_of_first('\n')->0;
    assert(at == line.len() + 1) by {
        if at < line.len() {
            assert(line[at] == long[at]);
        } else if at == line.len() {
            assert(long[at] == '\r');
        }
    }
    assert(long[at - 1] == '\r');
    assert(long.subrange(0, at - 1) =~= line);
    let short = line + seq!['\n'] + rest;
    assert(short[line.len() as int] == '\n');
    short.index_of_first_ensures('\n');
    let end = short.index_of_first('\n')->0;
    assert(end == line.len()) by {
        if end < line.len() {
            assert(line[end] == short[end]);
        }
    }
    if line.len() > 0 {
        assert(short[end - 1] == line.last());
    }
    assert(short.subrange(0, end) =~= line);
}

} // verus!

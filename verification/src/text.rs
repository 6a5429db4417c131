//! Text primitives: white space, words, letter case, searching and joining.
use vstd::prelude::*;

verus! {

/// The characters that carry the Unicode property `White_Space`.
pub open spec fn white_space(c: char) -> bool {
    ||| '\u{9}' <= c <= '\u{d}'
    ||| c == '\u{20}'
    ||| c == '\u{85}'
    ||| c == '\u{a0}'
    ||| c == '\u{1680}'
    ||| '\u{2000}' <= c <= '\u{200a}'
    ||| c == '\u{2028}'
    ||| c == '\u{2029}'
    ||| c == '\u{202f}'
    ||| c == '\u{205f}'
    ||| c == '\u{3000}'
}

/// Whether a character is white space.
pub fn is_white_space(c: char) -> (b: bool)
    ensures
        b == white_space(c),
{
    ('\u{9}' <= c && c <= '\u{d}') || c == '\u{20}' || c == '\u{85}' || c == '\u{a0}' || c
        == '\u{1680}' || ('\u{2000}' <= c && c <= '\u{200a}') || c == '\u{2028}' || c
        == '\u{2029}' || c == '\u{202f}' || c == '\u{205f}' || c == '\u{3000}'
}

/// `s` without the white space at its end.
pub open spec fn trim_end(s: Seq<char>) -> Seq<char>
    decreases s.len(),
{
    if s.len() > 0 && white_space(s.last()) {
        trim_end(s.drop_last())
    } else {
        s
    }
}

/// `s` without the white space at its start.
pub open spec fn trim_start(s: Seq<char>) -> Seq<char>
    decreases s.len(),
{
    if s.len() > 0 && white_space(s[0]) {
        trim_start(s.drop_first())
    } else {
        s
    }
}

/// `s` without the white space at its two ends.
pub open spec fn trim(s: Seq<char>) -> Seq<char> {
    trim_start(trim_end(s))
}

/// The longest end of `s` that holds no white space.
pub open spec fn unbroken_end(s: Seq<char>) -> Seq<char>
    decreases s.len(),
{
    if s.len() > 0 && !white_space(s.last()) {
        unbroken_end(s.drop_last()).push(s.last())
    } else {
        Seq::empty()
    }
}

/// The last of the words that white space separates in `s`; empty where there is none.
pub open spec fn last_word(s: Seq<char>) -> Seq<char> {
    unbroken_end(trim_end(s))
}

/// The ASCII capital `c` as a small letter; any other character as it is.
pub open spec fn lower_char(c: char) -> char {
    if 'A' <= c <= 'Z' {
        (c as u32 + 32) as char
    } else {
        c
    }
}

/// `s` with its ASCII capitals made small.
pub open spec fn ascii_lower(s: Seq<char>) -> Seq<char> {
    s.map_values(|c: char| lower_char(c))
}

/// Whether `needle` stands somewhere in `s` without a gap.
pub open spec fn contains_text(s: Seq<char>, needle: Seq<char>) -> bool {
    exists|i: int| #[trigger] occurs_at(s, needle, i)
}

/// Whether `needle` stands in `s` from position `i` on.
pub open spec fn occurs_at(s: Seq<char>, needle: Seq<char>, i: int) -> bool {
    0 <= i && i + needle.len() <= s.len() && s.subrange(i, i + needle.len()) == needle
}

/// The parts in their order, with one space between each two.
pub open spec fn spaced(parts: Seq<Seq<char>>) -> Seq<char>
    decreases parts.len(),
{
    if parts.len() == 0 {
        Seq::empty()
    } else if parts.len() == 1 {
        parts[0]
    } else {
        spaced(parts.drop_last()).push(' ') + parts.last()
    }
}

/// What the strings of a vector hold.
pub open spec fn texts(parts: Seq<String>) -> Seq<Seq<char>> {
    parts.map_values(|s: String| s@)
}

/// The text of an optional string.
pub open spec fn text_of(s: Option<String>) -> Option<Seq<char>> {
    match s {
        Some(t) => Some(t@),
        None => None,
    }
}

/// The text of an optional string slice.
pub open spec fn str_of(s: Option<&str>) -> Option<Seq<char>> {
    match s {
        Some(t) => Some(t@),
        None => None,
    }
}

/// The characters of `s`.
pub fn chars_of(s: &str) -> (chars: Vec<char>)
    ensures
        chars@ == s@,
{
    let mut chars: Vec<char> = Vec::new();
    for c in it: s.chars()
        invariant
            chars@ == it.seq().take(it.index() as int),
            it.seq() == s@,
    {
        chars.push(c);
    }
    chars
}

/// Whether two strings hold the same text.
pub fn same_text(a: &str, b: &str) -> (same: bool)
    ensures
        same == (a@ == b@),
{
    a.to_owned() == b.to_owned()
}

proof fn lemma_trim_end(s: Seq<char>, n: int)
    requires
        0 <= n <= s.len(),
        forall|i: int| n <= i < s.len() ==> white_space(#[trigger] s[i]),
        n > 0 ==> !white_space(s[n - 1]),
    ensures
        trim_end(s) == s.take(n),
    decreases s.len(),
{
    if n < s.len() {
        assert(white_space(s[s.len() - 1]));
        lemma_trim_end(s.drop_last(), n);
        assert(s.drop_last().take(n) =~= s.take(n));
    } else {
        assert(s.take(n) =~= s);
    }
}

proof fn lemma_trim_start(s: Seq<char>, n: int)
    requires
        0 <= n <= s.len(),
        forall|i: int| 0 <= i < n ==> white_space(#[trigger] s[i]),
        n < s.len() ==> !white_space(s[n]),
    ensures
        trim_start(s) == s.skip(n),
    decreases s.len(),
{
    if n > 0 {
        assert(white_space(s[0]));
        let rest = s.drop_first();
        assert forall|i: int| 0 <= i < n - 1 implies white_space(#[trigger] rest[i]) by {
            assert(rest[i] == s[i + 1]);
        }
        lemma_trim_start(rest, n - 1);
        assert(rest.skip(n - 1) =~= s.skip(n));
    } else {
        assert(s.skip(0) =~= s);
    }
}

proof fn lemma_unbroken_end(s: Seq<char>, n: int)
    requires
        0 <= n <= s.len(),
        forall|i: int| n <= i < s.len() ==> !white_space(#[trigger] s[i]),
        n > 0 ==> white_space(s[n - 1]),
    ensures
        unbroken_end(s) == s.skip(n),
    decreases s.len(),
{
    if n < s.len() {
        assert(!white_space(s[s.len() - 1]));
        lemma_unbroken_end(s.drop_last(), n);
        assert(s.drop_last().skip(n).push(s.last()) =~= s.skip(n));
    } else {
        assert(s.skip(n) =~= Seq::<char>::empty());
    }
}

/// A text that ends in a word behind a space has that word as its last.
pub proof fn lemma_last_word_behind_space(before: Seq<char>, word: Seq<char>)
    requires
        word.len() > 0,
        forall|i: int| 0 <= i < word.len() ==> !white_space(#[trigger] word[i]),
    ensures
        last_word(word) == word,
        last_word(before.push(' ') + word) == word,
{
    lemma_trim_end(word, word.len() as int);
    lemma_unbroken_end(word, 0);
    assert(word.take(word.len() as int) =~= word);
    assert(word.skip(0) =~= word);
    let line = before.push(' ') + word;
    let n = before.len() as int + 1;
    assert(line[line.len() - 1] == word[word.len() - 1]);
    lemma_trim_end(line, line.len() as int);
    assert(line.take(line.len() as int) =~= line);
    assert(line[n - 1] == ' ');
    assert forall|i: int| n <= i < line.len() implies !white_space(#[trigger] line[i]) by {
        assert(line[i] == word[i - n]);
    }
    lemma_unbroken_end(line, n);
    assert(line.skip(n) =~= word);
}

/// Where the white space at the end of `chars` begins.
fn end_of_text(chars: &Vec<char>) -> (n: usize)
    ensures
        n <= chars.len(),
        forall|i: int| n <= i < chars.len() ==> white_space(#[trigger] chars[i]),
        n > 0 ==> !white_space(chars[n - 1]),
{
    let mut n: usize = chars.len();
    while n > 0 && is_white_space(chars[n - 1])
        invariant
            n <= chars.len(),
            forall|i: int| n <= i < chars.len() ==> white_space(#[trigger] chars[i]),
        decreases n,
    {
        n = n - 1;
    }
    n
}

/// `s` without the white space at its two ends.
pub fn trimmed(s: &str) -> (t: &str)
    ensures
        t@ == trim(s@),
{
    let chars = chars_of(s);
    let end = end_of_text(&chars);
    let mut start: usize = 0;
    while start < end && is_white_space(chars[start])
        invariant
            start <= end <= chars.len(),
            forall|i: int| 0 <= i < start ==> white_space(#[trigger] chars[i]),
        decreases end - start,
    {
        start = start + 1;
    }
    proof {
        lemma_trim_end(s@, end as int);
        let kept = s@.take(end as int);
        assert forall|i: int| 0 <= i < start implies white_space(#[trigger] kept[i]) by {
            assert(kept[i] == chars[i]);
        }
        lemma_trim_start(kept, start as int);
        assert(kept.skip(start as int) =~= s@.subrange(start as int, end as int));
    }
    s.substring_char(start, end)
}

/// The last word of `s`, as [`last_word`] says.
pub fn word_at_end(s: &str) -> (word: &str)
    ensures
        word@ == last_word(s@),
{
    let chars = chars_of(s);
    let end = end_of_text(&chars);
    let mut start: usize = end;
    while start > 0 && !is_white_space(chars[start - 1])
        invariant
            start <= end <= chars.len(),
            forall|i: int| start <= i < end ==> !white_space(#[trigger] chars[i]),
        decreases start,
    {
        start = start - 1;
    }
    proof {
        lemma_trim_end(s@, end as int);
        let kept = s@.take(end as int);
        assert forall|i: int| start <= i < kept.len() implies !white_space(#[trigger] kept[i]) by {
            assert(kept[i] == chars[i]);
        }
        lemma_unbroken_end(kept, start as int);
        assert(kept.skip(start as int) =~= s@.subrange(start as int, end as int));
    }
    s.substring_char(start, end)
}

/// Whether `s`, its ASCII capitals made small, is the text `small`.
pub fn lower_is(s: &str, small: &str) -> (same: bool)
    ensures
        same == (ascii_lower(s@) == small@),
{
    let a = chars_of(s);
    let b = chars_of(small);
    if a.len() != b.len() {
        return false;
    }
    let mut i: usize = 0;
    while i < a.len()
        invariant
            i <= a.len() == b.len(),
            a@ == s@,
            b@ == small@,
            forall|k: int| 0 <= k < i ==> lower_char(#[trigger] a[k]) == b[k],
        decreases a.len() - i,
    {
        let c = a[i];
        let d: char = if 'A' <= c && c <= 'Z' {
            ((c as u8) + 32) as char
        } else {
            c
        };
        if d != b[i] {
            assert(ascii_lower(s@)[i as int] != small@[i as int]);
            return false;
        }
        i = i + 1;
    }
    assert(ascii_lower(s@) =~= small@);
    true
}

/// Whether `needle` stands somewhere in `s`.
pub fn has_text(s: &str, needle: &str) -> (found: bool)
    ensures
        found == contains_text(s@, needle@),
{
    let a = chars_of(s);
    let b = chars_of(needle);
    if b.len() > a.len() {
        return false;
    }
    let mut i: usize = 0;
    while i <= a.len() - b.len()
        invariant
            a@ == s@,
            b@ == needle@,
            b.len() <= a.len(),
            i <= a.len() - b.len() + 1,
            forall|k: int| 0 <= k < i ==> !#[trigger] occurs_at(s@, needle@, k),
        decreases a.len() - b.len() + 1 - i,
    {
        let mut j: usize = 0;
        while j < b.len() && a[i + j] == b[j]
            invariant
                a@ == s@,
                b@ == needle@,
                j <= b.len() <= a.len(),
                i + b.len() <= a.len(),
                forall|k: int| 0 <= k < j ==> a[i + k] == #[trigger] b[k],
            decreases b.len() - j,
        {
            j = j + 1;
        }
        if j == b.len() {
            assert(s@.subrange(i as int, i + needle@.len()) =~= needle@);
            assert(occurs_at(s@, needle@, i as int));
            return true;
        }
        assert(s@.subrange(i as int, i + needle@.len())[j as int] != needle@[j as int]);
        i = i + 1;
    }
    false
}

/// The strings in their order, with one space between each two.
pub fn join_spaced(parts: &Vec<String>) -> (line: String)
    ensures
        line@ == spaced(texts(parts@)),
{
    let mut line = String::new();
    let mut i: usize = 0;
    while i < parts.len()
        invariant
            i <= parts.len(),
            line@ == spaced(texts(parts@).take(i as int)),
        decreases parts.len() - i,
    {
        proof {
            reveal_strlit(" ");
            assert(texts(parts@).take(i + 1).drop_last() =~= texts(parts@).take(i as int));
        }
        if i > 0 {
            line.append(" ");
            assert(line@ =~= spaced(texts(parts@).take(i as int)).push(' '));
        }
        line.append(parts[i].as_str());
        assert(line@ =~= spaced(texts(parts@).take(i + 1)));
        i = i + 1;
    }
    assert(texts(parts@).take(parts.len() as int) =~= texts(parts@));
    line
}

/// A text that is white space throughout.
pub open spec fn all_white(s: Seq<char>) -> bool {
    forall|i: int| 0 <= i < s.len() ==> white_space(#[trigger] s[i])
}

/// A text without white space.
pub open spec fn no_white(s: Seq<char>) -> bool {
    forall|i: int| 0 <= i < s.len() ==> !white_space(#[trigger] s[i])
}

/// Of a text with white space around it, trimming leaves the text: nothing of it is lost, and
/// nothing of what stands around it is kept.
pub proof fn trimming_leaves_the_core(before: Seq<char>, core: Seq<char>, after: Seq<char>)
    requires
        all_white(before),
        all_white(after),
        core.len() > 0 ==> !white_space(core[0]) && !white_space(core[core.len() - 1]),
    ensures
        trim(before + core + after) == core,
{
    let s = before + core + after;
    if core.len() > 0 {
        let n = (before.len() + core.len()) as int;
        assert forall|i: int| n <= i < s.len() implies white_space(#[trigger] s[i]) by {
            assert(s[i] == after[i - n]);
        }
        assert(s[n - 1] == core[core.len() - 1]);
        lemma_trim_end(s, n);
        let kept = s.take(n);
        assert forall|i: int| 0 <= i < before.len() implies white_space(#[trigger] kept[i]) by {
            assert(kept[i] == before[i]);
        }
        assert(kept[before.len() as int] == core[0]);
        lemma_trim_start(kept, before.len() as int);
        assert(kept.skip(before.len() as int) =~= core);
    } else {
        assert forall|i: int| 0 <= i < s.len() implies white_space(#[trigger] s[i]) by {
            if i < before.len() {
                assert(s[i] == before[i]);
            } else {
                assert(s[i] == after[i - before.len()]);
            }
        }
        lemma_trim_end(s, 0);
        assert(s.take(0) =~= core);
    }
}

/// The last word of a text is the word behind the last gap, whatever white space makes the gap
/// and whatever white space follows.
pub proof fn last_word_stands_at_the_end(before: Seq<char>, word: Seq<char>, after: Seq<char>)
    requires
        before.len() > 0 ==> white_space(before[before.len() - 1]),
        no_white(word),
        word.len() > 0 || before.len() == 0,
        all_white(after),
    ensures
        last_word(before + word + after) == word,
{
    let s = before + word + after;
    let n = (before.len() + word.len()) as int;
    assert forall|i: int| n <= i < s.len() implies white_space(#[trigger] s[i]) by {
        assert(s[i] == after[i - n]);
    }
    if word.len() > 0 {
        assert(s[n - 1] == word[word.len() - 1]);
    }
    lemma_trim_end(s, n);
    let kept = s.take(n);
    let start = before.len() as int;
    assert forall|i: int| start <= i < kept.len() implies !white_space(#[trigger] kept[i]) by {
        assert(kept[i] == word[i - start]);
    }
    if start > 0 {
        assert(kept[start - 1] == before[start - 1]);
    }
    lemma_unbroken_end(kept, start);
    assert(kept.skip(start) =~= word);
}

/// Three texts one behind the other.
pub open spec fn framed(before: Seq<char>, core: Seq<char>, after: Seq<char>) -> Seq<char> {
    before + core + after
}

/// A text stands in every text that is made by putting others before and behind it.
pub proof fn framed_text_is_contained(before: Seq<char>, core: Seq<char>, after: Seq<char>)
    ensures
        contains_text(before + core + after, core),
{
    let s = before + core + after;
    let i = before.len() as int;
    assert(s.subrange(i, i + core.len()) =~= core);
    assert(occurs_at(s, core, i));
}

/// A text stands in another only if that can be taken apart into what stands before it, the text
/// itself and what stands behind it.
pub proof fn contained_text_is_framed(s: Seq<char>, core: Seq<char>)
    requires
        contains_text(s, core),
    ensures
        exists|before: Seq<char>, after: Seq<char>| s == #[trigger] framed(before, core, after),
{
    let i = choose|i: int| #[trigger] occurs_at(s, core, i);
    let before = s.take(i);
    let after = s.skip(i + core.len());
    assert forall|k: int| 0 <= k < s.len() implies #[trigger] s[k] == framed(
        before,
        core,
        after,
    )[k] by {
        if i <= k < i + core.len() {
            assert(s.subrange(i, i + core.len())[k - i] == s[k]);
        }
    }
    assert(s =~= framed(before, core, after));
}

/// Making letters small changes the ASCII capitals alone, each into the small letter that stands
/// thirty-two places behind it.
pub proof fn small_letters(s: Seq<char>, i: int)
    requires
        0 <= i < s.len(),
    ensures
        ascii_lower(s).len() == s.len(),
        'A' <= s[i] <= 'Z' ==> ascii_lower(s)[i] as u32 == s[i] as u32 + 32,
        !('A' <= s[i] <= 'Z') ==> ascii_lower(s)[i] == s[i],
{
}

/// Joining puts one space behind the first of several parts and the others, joined, behind that.
pub proof fn joining_goes_on_behind_a_space(first: Seq<char>, rest: Seq<Seq<char>>)
    ensures
        spaced(Seq::<Seq<char>>::empty()) == Seq::<char>::empty(),
        spaced(seq![first]) == first,
        rest.len() > 0 ==> spaced(seq![first] + rest) == first + seq![' '] + spaced(rest),
    decreases rest.len(),
{
    if rest.len() > 0 {
        let all = seq![first] + rest;
        assert(all.drop_last() =~= seq![first] + rest.drop_last());
        assert(all.last() == rest.last());
        joining_goes_on_behind_a_space(first, rest.drop_last());
        if rest.len() == 1 {
            assert(all.drop_last() =~= seq![first]);
            assert(spaced(all) =~= first + seq![' '] + spaced(rest));
        } else {
            assert(spaced(all) =~= first + seq![' '] + spaced(rest));
        }
    }
}

} // verus!

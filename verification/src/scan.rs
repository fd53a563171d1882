//! Cutting text up: trimming, lines, words, fields and searches.

use vstd::prelude::*;
use vstd::slice::slice_subrange;

verus! {

// ---------------------------------------------------------------------------
// Positions
// ---------------------------------------------------------------------------

/// The first position of `c` in `s` from `i` on, or the end.
pub open spec fn position(s: Seq<char>, c: char, i: int) -> int
    decreases s.len() - i,
{
    if i >= s.len() || s[i] == c {
        i
    } else {
        position(s, c, i + 1)
    }
}

/// `position` finds the first occurrence, or the end where there is none.
pub proof fn lemma_position(s: Seq<char>, c: char, i: int)
    requires
        0 <= i <= s.len(),
    ensures
        i <= position(s, c, i) <= s.len(),
        position(s, c, i) < s.len() ==> s[position(s, c, i)] == c,
        forall|j: int| i <= j < position(s, c, i) ==> s[j] != c,
    decreases s.len() - i,
{
    if i < s.len() && s[i] != c {
        lemma_position(s, c, i + 1);
    }
}

/// The first position of `c` from `from` on, or the end.
pub fn find(s: &[char], c: char, from: usize) -> (r: usize)
    requires
        from <= s@.len(),
    ensures
        r == position(s@, c, from as int),
        from <= r <= s@.len(),
{
    let mut i: usize = from;
    while i < s.len() && s[i] != c
        invariant
            from <= i <= s@.len(),
            position(s@, c, from as int) == position(s@, c, i as int),
        decreases s@.len() - i,
    {
        i = i + 1;
    }
    i
}

/// Whether `needle` stands in `s` at position `i`.
pub open spec fn stands_at(s: Seq<char>, needle: Seq<char>, i: int) -> bool {
    0 <= i && i + needle.len() <= s.len() && s.subrange(i, i + needle.len()) == needle
}

/// Whether `needle` stands in `s`.
pub open spec fn holds(s: Seq<char>, needle: Seq<char>) -> bool {
    exists|i: int| stands_at(s, needle, i)
}

/// Whether `needle` stands in `s` at `i`.
pub fn matches_at(s: &[char], needle: &[char], i: usize) -> (r: bool)
    requires
        i <= s@.len(),
    ensures
        r == stands_at(s@, needle@, i as int),
{
    if needle.len() > s.len() - i {
        return false;
    }
    let mut k: usize = 0;
    while k < needle.len()
        invariant
            k <= needle@.len(),
            i + needle@.len() <= s@.len(),
            i + needle@.len() <= usize::MAX,
            forall|j: int| 0 <= j < k ==> s@[i + j] == needle@[j],
        decreases needle@.len() - k,
    {
        if s[i + k] != needle[k] {
            proof {
                assert(s@.subrange(i as int, i + needle@.len())[k as int] != needle@[k as int]);
            }
            return false;
        }
        k = k + 1;
    }
    proof {
        assert(s@.subrange(i as int, i + needle@.len()) =~= needle@);
    }
    true
}

/// The first position from `i` on at which `needle` stands, if any.
pub open spec fn first_match(s: Seq<char>, needle: Seq<char>, i: int) -> Option<int>
    decreases s.len() + 1 - i,
{
    if i < 0 || i > s.len() {
        None
    } else if stands_at(s, needle, i) {
        Some(i)
    } else {
        first_match(s, needle, i + 1)
    }
}

/// `first_match` finds the first occurrence, where there is one.
pub proof fn lemma_first_match(s: Seq<char>, needle: Seq<char>, i: int)
    requires
        0 <= i,
    ensures
        match first_match(s, needle, i) {
            Some(k) => i <= k && k + needle.len() <= s.len() && stands_at(s, needle, k)
                && forall|j: int| i <= j < k ==> !#[trigger] stands_at(s, needle, j),
            None => forall|j: int| i <= j ==> !#[trigger] stands_at(s, needle, j),
        },
    decreases s.len() + 1 - i,
{
    if i <= s.len() && !stands_at(s, needle, i) {
        lemma_first_match(s, needle, i + 1);
    }
}

/// The first position from `from` on at which `needle` stands, if any.
pub fn search(s: &[char], needle: &[char], from: usize) -> (r: Option<usize>)
    requires
        from <= s@.len(),
    ensures
        match r {
            Some(i) => first_match(s@, needle@, from as int) == Some(i as int) && from <= i && i
                + needle@.len() <= s@.len(),
            None => first_match(s@, needle@, from as int) is None,
        },
{
    let mut i: usize = from;
    loop
        invariant
            from <= i <= s@.len(),
            first_match(s@, needle@, from as int) == first_match(s@, needle@, i as int),
        decreases s@.len() - i,
    {
        if matches_at(s, needle, i) {
            return Some(i);
        }
        if i == s.len() {
            proof {
                reveal_with_fuel(first_match, 2);
            }
            return None;
        }
        i = i + 1;
    }
}

/// Whether `needle` stands in `s`.
pub fn contains(s: &[char], needle: &[char]) -> (r: bool)
    ensures
        r == holds(s@, needle@),
{
    proof {
        lemma_first_match(s@, needle@, 0);
        if holds(s@, needle@) {
            let i = choose|i: int| stands_at(s@, needle@, i);
            assert(stands_at(s@, needle@, i));
        }
    }
    match search(s, needle, 0) {
        Some(_) => true,
        None => false,
    }
}

/// What follows `prefix` in `s`, where `s` starts with it.
pub open spec fn after_prefix(s: Seq<char>, prefix: Seq<char>) -> Option<Seq<char>> {
    if stands_at(s, prefix, 0) {
        Some(s.skip(prefix.len() as int))
    } else {
        None
    }
}

/// What precedes `suffix` in `s`, where `s` ends with it.
pub open spec fn before_suffix(s: Seq<char>, suffix: Seq<char>) -> Option<Seq<char>> {
    if suffix.len() <= s.len() && stands_at(s, suffix, s.len() - suffix.len()) {
        Some(s.take(s.len() - suffix.len()))
    } else {
        None
    }
}

/// What follows `prefix`, where `s` starts with it.
pub fn strip_prefix<'a>(s: &'a [char], prefix: &[char]) -> (r: Option<&'a [char]>)
    ensures
        match r {
            Some(rest) => after_prefix(s@, prefix@) == Some(rest@),
            None => after_prefix(s@, prefix@) is None,
        },
{
    if matches_at(s, prefix, 0) {
        let rest = slice_subrange(s, prefix.len(), s.len());
        proof {
            assert(rest@ =~= s@.skip(prefix@.len() as int));
        }
        Some(rest)
    } else {
        None
    }
}

/// What precedes `suffix`, where `s` ends with it.
pub fn strip_suffix<'a>(s: &'a [char], suffix: &[char]) -> (r: Option<&'a [char]>)
    ensures
        match r {
            Some(rest) => before_suffix(s@, suffix@) == Some(rest@),
            None => before_suffix(s@, suffix@) is None,
        },
{
    if suffix.len() <= s.len() && matches_at(s, suffix, s.len() - suffix.len()) {
        let rest = slice_subrange(s, 0, s.len() - suffix.len());
        proof {
            assert(rest@ =~= s@.take(s@.len() - suffix@.len()));
        }
        Some(rest)
    } else {
        None
    }
}

/// What stands before and after the first `c`, where there is one.
pub open spec fn cut(s: Seq<char>, c: char) -> Option<(Seq<char>, Seq<char>)> {
    let i = position(s, c, 0);
    if i < s.len() {
        Some((s.take(i), s.skip(i + 1)))
    } else {
        None
    }
}

/// Split at the first `c`, where there is one.
pub fn split_once<'a>(s: &'a [char], c: char) -> (r: Option<(&'a [char], &'a [char])>)
    ensures
        match r {
            Some(parts) => cut(s@, c) == Some((parts.0@, parts.1@)),
            None => cut(s@, c) is None,
        },
{
    let i: usize = find(s, c, 0);
    if i < s.len() {
        let head = slice_subrange(s, 0, i);
        let tail = slice_subrange(s, i + 1, s.len());
        proof {
            assert(head@ =~= s@.take(i as int));
            assert(tail@ =~= s@.skip(i + 1));
        }
        Some((head, tail))
    } else {
        None
    }
}

// ---------------------------------------------------------------------------
// Trimming
// ---------------------------------------------------------------------------

/// A class of characters that is cut off at the ends of a text.
#[derive(Clone, Copy, PartialEq, Eq, Structural)]
pub enum Class {
    /// White space.
    Space,
    /// The double quote.
    Quote,
    /// Curly braces.
    Brace,
}

/// Whether a character is white space in Unicode's sense.
pub open spec fn is_space(c: char) -> bool {
    let code = c as u32;
    0x09 <= code <= 0x0d || code == 0x20 || code == 0x85 || code == 0xa0 || code == 0x1680
        || 0x2000 <= code <= 0x200a || code == 0x2028 || code == 0x2029 || code == 0x202f
        || code == 0x205f || code == 0x3000
}

/// Whether a character belongs to a class.
pub open spec fn in_class(c: char, class: Class) -> bool {
    match class {
        Class::Space => is_space(c),
        Class::Quote => c == '"',
        Class::Brace => c == '{' || c == '}',
    }
}

/// Whether a character belongs to a class.
pub fn belongs(c: char, class: Class) -> (r: bool)
    ensures
        r == in_class(c, class),
{
    match class {
        Class::Space => {
            let code: u32 = c as u32;
            0x09 <= code && code <= 0x0d || code == 0x20 || code == 0x85 || code == 0xa0 || code
                == 0x1680 || 0x2000 <= code && code <= 0x200a || code == 0x2028 || code == 0x2029
                || code == 0x202f || code == 0x205f || code == 0x3000
        },
        Class::Quote => c == '"',
        Class::Brace => c == '{' || c == '}',
    }
}

/// `s` from its first character outside the class on.
pub open spec fn trim_front(s: Seq<char>, class: Class) -> Seq<char>
    decreases s.len(),
{
    if s.len() > 0 && in_class(s[0], class) {
        trim_front(s.drop_first(), class)
    } else {
        s
    }
}

/// `s` up to its last character outside the class.
pub open spec fn trim_back(s: Seq<char>, class: Class) -> Seq<char>
    decreases s.len(),
{
    if s.len() > 0 && in_class(s.last(), class) {
        trim_back(s.drop_last(), class)
    } else {
        s
    }
}

/// `s` without the characters of a class at its ends.
pub open spec fn trimmed(s: Seq<char>, class: Class) -> Seq<char> {
    trim_back(trim_front(s, class), class)
}

/// Cut off the characters of a class at both ends.
pub fn trim<'a>(s: &'a [char], class: Class) -> (r: &'a [char])
    ensures
        r@ == trimmed(s@, class),
{
    let mut lo: usize = 0;
    proof {
        assert(s@.skip(0) =~= s@);
    }
    while lo < s.len() && belongs(s[lo], class)
        invariant
            lo <= s@.len(),
            trim_front(s@, class) == trim_front(s@.skip(lo as int), class),
        decreases s@.len() - lo,
    {
        proof {
            assert(s@.skip(lo as int).drop_first() =~= s@.skip(lo + 1));
        }
        lo = lo + 1;
    }
    let ghost front = s@.skip(lo as int);
    proof {
        assert(trim_front(s@, class) == front);
        assert(front.take(front.len() as int) =~= front);
    }
    let mut hi: usize = s.len();
    while hi > lo && belongs(s[hi - 1], class)
        invariant
            lo <= hi <= s@.len(),
            front == s@.skip(lo as int),
            trim_back(front, class) == trim_back(front.take(hi - lo), class),
        decreases hi,
    {
        proof {
            assert(front.take(hi - lo).drop_last() =~= front.take(hi - lo - 1));
        }
        hi = hi - 1;
    }
    let r = slice_subrange(s, lo, hi);
    proof {
        assert(r@ =~= front.take(hi - lo));
    }
    r
}

// ---------------------------------------------------------------------------
// Lines and words
// ---------------------------------------------------------------------------

/// A line without the carriage return that its ending may have.
pub open spec fn without_return(line: Seq<char>) -> Seq<char> {
    if line.len() > 0 && line.last() == '\r' {
        line.drop_last()
    } else {
        line
    }
}

/// The lines of a text. Each ends at a line feed, with or without a carriage
/// return before it; the ending of the last line is optional.
pub open spec fn lines(s: Seq<char>) -> Seq<Seq<char>>
    decreases s.len(),
{
    if s.len() == 0 {
        seq![]
    } else {
        let i = position(s, '\n', 0);
        if 0 <= i < s.len() {
            seq![without_return(s.take(i))] + lines(s.skip(i + 1))
        } else {
            seq![s]
        }
    }
}

/// Cut a text into its lines.
pub fn split_lines<'a>(s: &'a [char]) -> (r: Vec<&'a [char]>)
    ensures
        r@.len() == lines(s@).len(),
        forall|i: int| 0 <= i < r@.len() ==> (#[trigger] r@[i])@ == lines(s@)[i],
{
    let mut out: Vec<&'a [char]> = Vec::new();
    let mut start: usize = 0;
    proof {
        assert(s@.skip(0) =~= s@);
    }
    while start < s.len()
        invariant
            start <= s@.len(),
            lines(s@).len() == out@.len() + lines(s@.skip(start as int)).len(),
            forall|i: int| 0 <= i < out@.len() ==> (#[trigger] out@[i])@ == lines(s@)[i],
            forall|i: int|
                0 <= i < lines(s@.skip(start as int)).len() ==> #[trigger] lines(
                    s@.skip(start as int),
                )[i] == lines(s@)[out@.len() + i],
        decreases s@.len() - start,
    {
        let ghost rest = s@.skip(start as int);
        let end: usize = find(s, '\n', start);
        proof {
            lemma_position(s@, '\n', start as int);
            lemma_position(rest, '\n', 0);
            lemma_position_shift(s@, '\n', start as int);
        }
        if end < s.len() {
            let stop: usize = if end > start && s[end - 1] == '\r' {
                end - 1
            } else {
                end
            };
            let line = slice_subrange(s, start, stop);
            proof {
                let whole = rest.take(end - start);
                assert(whole =~= s@.subrange(start as int, end as int));
                assert(line@ =~= without_return(whole));
                assert(rest.skip(end - start + 1) =~= s@.skip(end + 1));
                assert(lines(rest)[0] == line@);
                assert(lines(rest) =~= seq![line@] + lines(s@.skip(end + 1)));
            }
            let ghost done = out@;
            out.push(line);
            start = end + 1;
            proof {
                let after = lines(s@.skip(start as int));
                assert forall|i: int| 0 <= i < after.len() implies #[trigger] after[i] == lines(s@)[
                out@.len() + i] by {
                    assert(lines(rest)[i + 1] == after[i]);
                }
                assert(lines(rest)[0] == lines(s@)[done.len() as int]);
            }
        } else {
            let line = slice_subrange(s, start, s.len());
            proof {
                assert(line@ =~= rest);
                assert(lines(rest) =~= seq![rest]);
                assert(lines(rest)[0] == lines(s@)[out@.len() as int]);
                assert(s@.skip(s@.len() as int) =~= seq![]);
            }
            out.push(line);
            start = s.len();
        }
    }
    proof {
        assert(s@.skip(start as int) =~= seq![]);
    }
    out
}

proof fn lemma_position_shift(s: Seq<char>, c: char, start: int)
    requires
        0 <= start <= s.len(),
    ensures
        position(s, c, start) == start + position(s.skip(start), c, 0),
{
    let rest = s.skip(start);
    lemma_position(s, c, start);
    lemma_position(rest, c, 0);
    let a = position(s, c, start) - start;
    let b = position(rest, c, 0);
    if a < b {
        assert(rest[a] == s[start + a]);
    } else if b < a {
        assert(rest[b] == s[start + b]);
    }
}

/// The position of the first white space in `s` from `i` on, or the end.
pub open spec fn word_end(s: Seq<char>, i: int) -> int
    decreases s.len() - i,
{
    if i >= s.len() || is_space(s[i]) {
        i
    } else {
        word_end(s, i + 1)
    }
}

proof fn lemma_word_end(s: Seq<char>, i: int)
    requires
        0 <= i <= s.len(),
    ensures
        i <= word_end(s, i) <= s.len(),
        i < s.len() && !is_space(s[i]) ==> i < word_end(s, i),
    decreases s.len() - i,
{
    if i < s.len() && !is_space(s[i]) {
        lemma_word_end(s, i + 1);
    }
}

/// The words of `s`: what stands between white space.
pub open spec fn words(s: Seq<char>) -> Seq<Seq<char>>
    decreases s.len(),
{
    if s.len() == 0 {
        seq![]
    } else if is_space(s[0]) {
        words(s.drop_first())
    } else {
        let end = word_end(s, 0);
        if 0 < end <= s.len() {
            seq![s.take(end)] + words(s.skip(end))
        } else {
            seq![]
        }
    }
}

/// Cut a text into its words.
pub fn split_words<'a>(s: &'a [char]) -> (r: Vec<&'a [char]>)
    ensures
        r@.len() == words(s@).len(),
        forall|i: int| 0 <= i < r@.len() ==> (#[trigger] r@[i])@ == words(s@)[i],
{
    let mut out: Vec<&'a [char]> = Vec::new();
    let mut start: usize = 0;
    proof {
        assert(s@.skip(0) =~= s@);
    }
    while start < s.len()
        invariant
            start <= s@.len(),
            words(s@).len() == out@.len() + words(s@.skip(start as int)).len(),
            forall|i: int| 0 <= i < out@.len() ==> (#[trigger] out@[i])@ == words(s@)[i],
            forall|i: int|
                0 <= i < words(s@.skip(start as int)).len() ==> #[trigger] words(
                    s@.skip(start as int),
                )[i] == words(s@)[out@.len() + i],
        decreases s@.len() - start,
    {
        let ghost rest = s@.skip(start as int);
        if belongs(s[start], Class::Space) {
            proof {
                assert(rest.drop_first() =~= s@.skip(start + 1));
            }
            start = start + 1;
        } else {
            let mut end: usize = start;
            proof {
                assert(s@.skip(start as int) =~= rest);
            }
            while end < s.len() && !belongs(s[end], Class::Space)
                invariant
                    start <= end <= s@.len(),
                    rest == s@.skip(start as int),
                    word_end(rest, 0) == word_end(rest, end - start),
                decreases s@.len() - end,
            {
                end = end + 1;
            }
            proof {
                lemma_word_end(rest, 0);
                assert(word_end(rest, 0) == end - start);
            }
            let word = slice_subrange(s, start, end);
            proof {
                assert(word@ =~= rest.take(end - start));
                assert(rest.skip(end - start) =~= s@.skip(end as int));
                assert(words(rest) =~= seq![word@] + words(s@.skip(end as int)));
                assert(words(rest)[0] == words(s@)[out@.len() as int]);
                let after = words(s@.skip(end as int));
                assert forall|i: int| 0 <= i < after.len() implies #[trigger] after[i] == words(s@)[
                out@.len() + 1 + i] by {
                    assert(words(rest)[i + 1] == after[i]);
                }
            }
            out.push(word);
            start = end;
        }
    }
    proof {
        assert(s@.skip(start as int) =~= seq![]);
    }
    out
}

// ---------------------------------------------------------------------------
// Laws
// ---------------------------------------------------------------------------

/// Whether all characters of a text are of a class.
pub open spec fn all_in(s: Seq<char>, class: Class) -> bool {
    forall|i: int| 0 <= i < s.len() ==> in_class(#[trigger] s[i], class)
}

/// Whether a text has no white space.
pub open spec fn is_word(s: Seq<char>) -> bool {
    s.len() > 0 && forall|i: int| 0 <= i < s.len() ==> !is_space(#[trigger] s[i])
}

/// What surrounds a text is cut off, and nothing of the text itself.
pub proof fn lemma_trimming_bares_the_text(
    before: Seq<char>,
    s: Seq<char>,
    after: Seq<char>,
    class: Class,
)
    requires
        all_in(before, class),
        all_in(after, class),
        s.len() > 0,
        !in_class(s[0], class),
        !in_class(s.last(), class),
    ensures
        trimmed(before + s + after, class) == s,
{
    lemma_front_goes(before, s + after, class);
    assert(before + s + after =~= before + (s + after));
    assert((s + after)[0] == s[0]);
    lemma_back_goes(s, after, class);
}

/// A text of nothing but such characters leaves nothing.
pub proof fn lemma_trimming_leaves_nothing(s: Seq<char>, class: Class)
    requires
        all_in(s, class),
    ensures
        trimmed(s, class).len() == 0,
{
    lemma_front_goes(s, seq![], class);
    assert(s + seq![] =~= s);
}

proof fn lemma_front_goes(before: Seq<char>, s: Seq<char>, class: Class)
    requires
        all_in(before, class),
        s.len() > 0 ==> !in_class(s[0], class),
    ensures
        trim_front(before + s, class) == s,
    decreases before.len(),
{
    let all = before + s;
    if before.len() == 0 {
        assert(all =~= s);
    } else {
        assert(all[0] == before[0]);
        assert(all.drop_first() =~= before.drop_first() + s);
        assert forall|i: int| 0 <= i < before.drop_first().len() implies in_class(
            #[trigger] before.drop_first()[i],
            class,
        ) by {
            assert(before.drop_first()[i] == before[i + 1]);
        }
        lemma_front_goes(before.drop_first(), s, class);
    }
}

proof fn lemma_back_goes(s: Seq<char>, after: Seq<char>, class: Class)
    requires
        all_in(after, class),
        s.len() > 0,
        !in_class(s.last(), class),
    ensures
        trim_back(s + after, class) == s,
    decreases after.len(),
{
    let all = s + after;
    if after.len() == 0 {
        assert(all =~= s);
    } else {
        assert(all.last() == after[after.len() - 1]);
        assert(all.drop_last() =~= s + after.drop_last());
        assert forall|i: int| 0 <= i < after.drop_last().len() implies in_class(
            #[trigger] after.drop_last()[i],
            class,
        ) by {
            assert(after.drop_last()[i] == after[i]);
        }
        lemma_back_goes(s, after.drop_last(), class);
    }
}

/// A word after white space is the first of the words, and the others are those
/// of what follows it.
pub proof fn lemma_words_stand_between_spaces(before: Seq<char>, word: Seq<char>, rest: Seq<char>)
    requires
        all_in(before, Class::Space),
        is_word(word),
        rest.len() > 0 ==> is_space(rest[0]),
    ensures
        words(before + word + rest) == seq![word] + words(rest),
    decreases before.len(),
{
    let all = before + word + rest;
    if before.len() > 0 {
        assert(all[0] == before[0]);
        assert(in_class(before[0], Class::Space));
        assert(all.drop_first() =~= before.drop_first() + word + rest);
        assert forall|i: int| 0 <= i < before.drop_first().len() implies in_class(
            #[trigger] before.drop_first()[i],
            Class::Space,
        ) by {
            assert(before.drop_first()[i] == before[i + 1]);
        }
        lemma_words_stand_between_spaces(before.drop_first(), word, rest);
    } else {
        assert(all =~= word + rest);
        assert(all[0] == word[0]);
        assert forall|i: int| 0 <= i < word.len() implies !is_space(#[trigger] all[i]) by {
            assert(all[i] == word[i]);
        }
        if rest.len() > 0 {
            assert(all[word.len() as int] == rest[0]);
        }
        lemma_word_ends(all, 0, word.len() as int);
        assert(all.take(word.len() as int) =~= word);
        assert(all.skip(word.len() as int) =~= rest);
    }
}

proof fn lemma_word_ends(s: Seq<char>, i: int, end: int)
    requires
        0 <= i <= end <= s.len(),
        forall|j: int| i <= j < end ==> !is_space(#[trigger] s[j]),
        end < s.len() ==> is_space(s[end]),
    ensures
        word_end(s, i) == end,
    decreases end - i,
{
    if i < end {
        assert(!is_space(s[i]));
        lemma_word_ends(s, i + 1, end);
    }
}

/// A text is cut at the first such character, which is left out; one without it
/// is not cut.
pub proof fn lemma_texts_are_cut_at_the_first(a: Seq<char>, c: char, b: Seq<char>)
    requires
        !a.contains(c),
    ensures
        cut(a + seq![c] + b, c) == Some((a, b)),
        cut(a, c) is None,
{
    let all = a + seq![c] + b;
    lemma_position(all, c, 0);
    lemma_position(a, c, 0);
    assert(all[a.len() as int] == c);
    assert forall|j: int| 0 <= j < a.len() implies all[j] != c by {
        assert(all[j] == a[j]);
        assert(a.contains(a[j]));
    }
    assert(position(all, c, 0) == a.len());
    assert(all.take(a.len() as int) =~= a);
    assert(all.skip(a.len() as int + 1) =~= b);
    if position(a, c, 0) < a.len() {
        assert(a.contains(a[position(a, c, 0)]));
    }
}

/// A line ends at its line feed, without the carriage return before it, and the
/// lines that follow are those of what follows; the last line needs no ending.
pub proof fn lemma_lines_end_at_line_feeds(line: Seq<char>, rest: Seq<char>)
    requires
        !line.contains('\n'),
    ensures
        line.len() == 0 || line.last() != '\r' ==> lines(line + seq!['\n'] + rest) == seq![line]
            + lines(rest),
        lines(line + seq!['\r', '\n'] + rest) == seq![line] + lines(rest),
        line.len() > 0 ==> lines(line) == seq![line],
        lines(seq![]).len() == 0,
{
    let bare = line + seq!['\n'] + rest;
    lemma_texts_are_cut_at_the_first(line, '\n', rest);
    lemma_position(bare, '\n', 0);
    lemma_position(line, '\n', 0);
    let returned = line.push('\r');
    assert(!returned.contains('\n')) by {
        if returned.contains('\n') {
            let i = returned.index_of('\n');
            assert(line[i] == '\n');
            assert(line.contains('\n'));
        }
    }
    let full = line + seq!['\r', '\n'] + rest;
    assert(full =~= returned + seq!['\n'] + rest);
    lemma_texts_are_cut_at_the_first(returned, '\n', rest);
    lemma_position(full, '\n', 0);
    assert(returned.drop_last() =~= line);
    assert(lines(full) =~= seq![line] + lines(rest));
    if line.len() > 0 {
        assert(lines(line) =~= seq![line]);
    }
}

/// The white space of Unicode: six controls, the space, and those of other
/// scripts and of typesetting; and what the other classes hold.
pub proof fn lemma_classes_hold_these(c: char)
    ensures
        is_space(c) <==> (c == '\t' || c == '\n' || c == '\u{b}' || c == '\u{c}' || c == '\r' || c
            == ' ' || c == '\u{85}' || c == '\u{a0}' || c == '\u{1680}' || ('\u{2000}' <= c && c
            <= '\u{200a}') || c == '\u{2028}' || c == '\u{2029}' || c == '\u{202f}' || c
            == '\u{205f}' || c == '\u{3000}'),
        in_class(c, Class::Quote) <==> c == '"',
        in_class(c, Class::Brace) <==> (c == '{' || c == '}'),
{
}

} // verus!

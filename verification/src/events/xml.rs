//! The few things that are read out of an event's XML.

use crate::ordered::StringMap;
use crate::scan;
use crate::scan::{belongs, find, matches_at, search, Class};
use crate::text;
use crate::text::{chars_of, string_of};
use vstd::prelude::*;
use vstd::slice::slice_subrange;

verus! {

// ---------------------------------------------------------------------------
// Entities
// ---------------------------------------------------------------------------

/// The character that an entity at the start of `s` stands for, with the
/// entity's length.
pub open spec fn entity(s: Seq<char>) -> Option<(char, int)> {
    if scan::stands_at(s, "&amp;"@, 0) {
        Some(('&', 5))
    } else if scan::stands_at(s, "&lt;"@, 0) {
        Some(('<', 4))
    } else if scan::stands_at(s, "&gt;"@, 0) {
        Some(('>', 4))
    } else if scan::stands_at(s, "&quot;"@, 0) {
        Some(('"', 6))
    } else if scan::stands_at(s, "&apos;"@, 0) {
        Some(('\'', 6))
    } else {
        None
    }
}

/// Text with its entities replaced.
pub open spec fn unescaped(s: Seq<char>) -> Seq<char>
    decreases s.len(),
{
    if s.len() == 0 {
        seq![]
    } else {
        match entity(s) {
            Some((c, len)) => if 0 < len <= s.len() {
                seq![c] + unescaped(s.skip(len))
            } else {
                seq![]
            },
            None => seq![s[0]] + unescaped(s.skip(1)),
        }
    }
}

fn entity_at(s: &[char]) -> (r: Option<(char, usize)>)
    ensures
        match r {
            Some((c, len)) => entity(s@) == Some((c, len as int)) && 0 < len <= s@.len(),
            None => entity(s@) is None,
        },
{
    let amp = chars_of("&amp;");
    let lt = chars_of("&lt;");
    let gt = chars_of("&gt;");
    let quot = chars_of("&quot;");
    let apos = chars_of("&apos;");
    proof {
        reveal_strlit("&amp;");
        reveal_strlit("&lt;");
        reveal_strlit("&gt;");
        reveal_strlit("&quot;");
        reveal_strlit("&apos;");
    }
    if matches_at(s, amp.as_slice(), 0) {
        Some(('&', 5))
    } else if matches_at(s, lt.as_slice(), 0) {
        Some(('<', 4))
    } else if matches_at(s, gt.as_slice(), 0) {
        Some(('>', 4))
    } else if matches_at(s, quot.as_slice(), 0) {
        Some(('"', 6))
    } else if matches_at(s, apos.as_slice(), 0) {
        Some(('\'', 6))
    } else {
        None
    }
}

fn unescape(s: &[char]) -> (r: String)
    ensures
        r@ == unescaped(s@),
{
    let mut out: Vec<char> = Vec::new();
    let mut i: usize = 0;
    proof {
        assert(s@.skip(0) =~= s@);
        assert(out@ + unescaped(s@) =~= unescaped(s@));
    }
    while i < s.len()
        invariant
            i <= s@.len(),
            unescaped(s@) == out@ + unescaped(s@.skip(i as int)),
        decreases s@.len() - i,
    {
        let rest = slice_subrange(s, i, s.len());
        let ghost done = out@;
        proof {
            assert(rest@ =~= s@.skip(i as int));
        }
        match entity_at(rest) {
            Some((c, len)) => {
                out.push(c);
                proof {
                    assert(rest@.skip(len as int) =~= s@.skip(i + len));
                    assert(done + (seq![c] + unescaped(rest@.skip(len as int))) =~= out@
                        + unescaped(s@.skip(i + len)));
                }
                i = i + len;
            },
            None => {
                out.push(s[i]);
                proof {
                    assert(rest@.skip(1) =~= s@.skip(i + 1));
                    assert(done + (seq![rest@[0]] + unescaped(rest@.skip(1))) =~= out@ + unescaped(
                        s@.skip(i + 1),
                    ));
                }
                i = i + 1;
            },
        }
    }
    proof {
        assert(s@.skip(i as int) =~= seq![]);
        assert(out@ + unescaped(s@.skip(i as int)) =~= out@);
    }
    string_of(out.as_slice())
}

// ---------------------------------------------------------------------------
// Tags
// ---------------------------------------------------------------------------

/// Whether a character ends the name of a tag.
pub open spec fn ends_name(c: char) -> bool {
    scan::is_space(c) || c == '/' || c == '>'
}

/// The start of the first opening tag from `i` on; `opener` is `<` and its
/// name.
pub open spec fn tag_from(s: Seq<char>, opener: Seq<char>, i: int) -> Option<int>
    decreases s.len() - i,
{
    if i < 0 || i >= s.len() {
        None
    } else if scan::stands_at(s, opener, i) && i + opener.len() < s.len() && ends_name(
        s[i + opener.len()],
    ) {
        Some(i)
    } else {
        tag_from(s, opener, i + 1)
    }
}

/// The first opening tag of an element from `i` on: where it starts, and where
/// its closing bracket stands.
pub open spec fn opening(s: Seq<char>, name: Seq<char>, i: int) -> Option<(int, int)> {
    match tag_from(s, "<"@ + name, i) {
        Some(start) => {
            let end = scan::position(s, '>', start);
            if end < s.len() {
                Some((start, end))
            } else {
                None
            }
        },
        None => None,
    }
}

/// What an element with its opening tag at `tag` holds, and where it ends. An
/// element that closes itself holds nothing.
pub open spec fn content(s: Seq<char>, name: Seq<char>, tag: (int, int)) -> Option<(Seq<char>, int)> {
    if s[tag.1 - 1] == '/' {
        Some((seq![], tag.1 + 1))
    } else {
        let closer = "</"@ + name + ">"@;
        match scan::first_match(s, closer, tag.1 + 1) {
            Some(stop) => Some((s.subrange(tag.1 + 1, stop), stop + closer.len())),
            None => None,
        }
    }
}

/// The text of the first element with a name.
pub open spec fn element(s: Seq<char>, name: Seq<char>) -> Option<Seq<char>> {
    match opening(s, name, 0) {
        Some(tag) => match content(s, name, tag) {
            Some((inner, _)) => Some(unescaped(inner)),
            None => None,
        },
        None => None,
    }
}

/// The value of an attribute in a tag: what stands between quotes after its
/// name.
pub open spec fn attribute_in(tag: Seq<char>, name: Seq<char>) -> Option<Seq<char>> {
    let marker = " "@ + name + "="@;
    match scan::first_match(tag, marker, 0) {
        Some(at) => {
            let open = at + marker.len();
            if open < tag.len() && (tag[open] == '"' || tag[open] == '\'') {
                let close = scan::position(tag, tag[open], open + 1);
                if close < tag.len() {
                    Some(unescaped(tag.subrange(open + 1, close)))
                } else {
                    None
                }
            } else {
                None
            }
        },
        None => None,
    }
}

/// The value of an attribute of the first element with a name.
pub open spec fn attribute_of(s: Seq<char>, element: Seq<char>, name: Seq<char>) -> Option<
    Seq<char>,
> {
    match opening(s, element, 0) {
        Some((start, end)) => attribute_in(s.subrange(start, end), name),
        None => None,
    }
}

fn find_opening(s: &[char], opener: &[char], from: usize, Ghost(name): Ghost<Seq<char>>) -> (r:
    Option<(usize, usize)>)
    requires
        from <= s@.len(),
        opener@ == "<"@ + name,
    ensures
        match r {
            Some((start, end)) => opening(s@, name, from as int) == Some((start as int, end as int))
                && from <= start < end < s@.len(),
            None => opening(s@, name, from as int) is None,
        },
{
    let mut i: usize = from;
    proof {
        reveal_strlit("<");
    }
    while i < s.len()
        invariant
            from <= i <= s@.len(),
            opener@ == "<"@ + name,
            opener@.len() > 0,
            tag_from(s@, opener@, from as int) == tag_from(s@, opener@, i as int),
        ensures
            i == s@.len(),
            tag_from(s@, opener@, from as int) is None,
        decreases s@.len() - i,
    {
        if matches_at(s, opener, i) {
            let after: usize = i + opener.len();
            if after < s.len() && (belongs(s[after], Class::Space) || s[after] == '/' || s[after]
                == '>') {
                let end: usize = find(s, '>', i);
                proof {
                    scan::lemma_position(s@, '>', i as int);
                    reveal_strlit("<");
                    assert(s@.subrange(i as int, i + opener@.len())[0] == '<');
                }
                if end < s.len() {
                    return Some((i, end));
                } else {
                    return None;
                }
            }
        }
        i = i + 1;
    }
    None
}

/// The text of the first element with a name.
pub fn element_text(document: &str, name: &str) -> (r: Option<String>)
    ensures
        text::opt_text(r) == element(document@, name@),
{
    let chars = chars_of(document);
    match inner_text(chars.as_slice(), name, 0) {
        Some((_, _, inner, _)) => Some(unescape(inner)),
        None => None,
    }
}

/// The first element with a name from `from` on: its opening tag, what it
/// holds and where it ends.
fn inner_text<'a>(s: &'a [char], name: &str, from: usize) -> (r: Option<
    (usize, usize, &'a [char], usize),
>)
    requires
        from <= s@.len(),
    ensures
        match r {
            Some((start, end, inner, stop)) => {
                &&& opening(s@, name@, from as int) == Some((start as int, end as int))
                &&& content(s@, name@, (start as int, end as int)) == Some((inner@, stop as int))
                &&& from <= start < end < stop <= s@.len()
            },
            None => match opening(s@, name@, from as int) {
                Some(tag) => content(s@, name@, tag) is None,
                None => true,
            },
        },
{
    let mut opener_text = "<".to_owned();
    opener_text.append(name);
    let opener = chars_of(opener_text.as_str());
    let (start, end) = match find_opening(s, opener.as_slice(), from, Ghost(name@)) {
        Some(tag) => tag,
        None => {
            return None;
        },
    };
    if s[end - 1] == '/' {
        let inner = slice_subrange(s, end, end);
        proof {
            assert(inner@ =~= seq![]);
        }
        return Some((start, end, inner, end + 1));
    }
    let mut closer_text = "</".to_owned();
    closer_text.append(name);
    closer_text.append(">");
    let closer = chars_of(closer_text.as_str());
    match search(s, closer.as_slice(), end + 1) {
        Some(stop) => {
            let inner = slice_subrange(s, end + 1, stop);
            Some((start, end, inner, stop + closer.len()))
        },
        None => None,
    }
}

fn tag_attribute(tag: &[char], name: &str) -> (r: Option<String>)
    ensures
        text::opt_text(r) == attribute_in(tag@, name@),
{
    let mut marker_text = " ".to_owned();
    marker_text.append(name);
    marker_text.append("=");
    let marker = chars_of(marker_text.as_str());
    let at: usize = match search(tag, marker.as_slice(), 0) {
        Some(at) => at,
        None => {
            return None;
        },
    };
    let length: usize = tag.len();
    let open: usize = at + marker.len();
    if open < length && (tag[open] == '"' || tag[open] == '\'') {
        let close: usize = find(tag, tag[open], open + 1);
        if close < tag.len() {
            return Some(unescape(slice_subrange(tag, open + 1, close)));
        }
    }
    None
}

/// The value of an attribute of the first element with a name.
pub fn attribute(document: &str, element: &str, name: &str) -> (r: Option<String>)
    ensures
        text::opt_text(r) == attribute_of(document@, element@, name@),
{
    let chars = chars_of(document);
    let mut opener_text = "<".to_owned();
    opener_text.append(element);
    let opener = chars_of(opener_text.as_str());
    match find_opening(chars.as_slice(), opener.as_slice(), 0, Ghost(element@)) {
        Some((start, end)) => tag_attribute(slice_subrange(chars.as_slice(), start, end), name),
        None => None,
    }
}

// ---------------------------------------------------------------------------
// Event data
// ---------------------------------------------------------------------------

/// The data elements of a document from `i` on, added to `fields`: the texts of
/// the named ones by name, and whether all of them are named.
pub open spec fn data_from(
    s: Seq<char>,
    i: int,
    fields: Map<Seq<char>, Seq<char>>,
    named: bool,
) -> (Map<Seq<char>, Seq<char>>, bool)
    decreases s.len() - i,
{
    match opening(s, "Data"@, i) {
        Some(tag) => match content(s, "Data"@, tag) {
            Some((inner, stop)) => if i < stop <= s.len() {
                match attribute_in(s.subrange(tag.0, tag.1), "Name"@) {
                    Some(name) => data_from(s, stop, fields.insert(name, unescaped(inner)), named),
                    None => data_from(s, stop, fields, false),
                }
            } else {
                (fields, named)
            },
            None => (fields, named),
        },
        None => (fields, named),
    }
}

/// The fields of an event's data, and whether they are named.
pub fn event_data(document: &str) -> (r: (StringMap<String>, bool))
    ensures
        (r.0@.map_values(|v: String| v@), r.1) == data_from(document@, 0, Map::empty(), true),
{
    let chars = chars_of(document);
    let s = chars.as_slice();
    let mut fields: StringMap<String> = StringMap::new();
    let mut named = true;
    let mut from: usize = 0;
    proof {
        assert(fields@.map_values(|v: String| v@) =~= Map::empty());
    }
    loop
        invariant
            s@ == document@,
            from <= s@.len(),
            data_from(document@, 0, Map::empty(), true) == data_from(
                document@,
                from as int,
                fields@.map_values(|v: String| v@),
                named,
            ),
        decreases s@.len() - from,
    {
        match inner_text(s, "Data", from) {
            None => {
                return (fields, named);
            },
            Some((start, end, inner, stop)) => {
                let ghost known = fields@.map_values(|v: String| v@);
                match tag_attribute(slice_subrange(s, start, end), "Name") {
                    Some(name) => {
                        let ghost key = name@;
                        let value = unescape(inner);
                        let ghost said = value@;
                        fields.insert(name, value);
                        proof {
                            assert(fields@.map_values(|v: String| v@) =~= known.insert(key, said));
                        }
                    },
                    None => {
                        named = false;
                    },
                }
                from = stop;
            },
        }
    }
}

} // verus!

//! Laws of reading events: what a document says is what is read out of it.

use crate::counting;
use crate::events;
use crate::events::{sys, xml, EventModel, WlanEvent};
use crate::scan;
use crate::scan::Class;
use crate::text;
use crate::time;
use vstd::prelude::*;

verus! {

// ---------------------------------------------------------------------------
// Numbers and sessions
// ---------------------------------------------------------------------------

/// A number in decimal is read back, whatever white space surrounds it, and one
/// that no 64 bits hold is not read at all.
pub proof fn lemma_decimals_are_read(before: Seq<char>, n: nat, after: Seq<char>)
    requires
        scan::all_in(before, Class::Space),
        scan::all_in(after, Class::Space),
    ensures
        n <= u64::MAX ==> events::number(before + text::decimal(n) + after) == Some(n),
        n > u64::MAX ==> events::number(before + text::decimal(n) + after) is None,
{
    let written = text::decimal(n);
    text::lemma_decimal_reads_back(n);
    assert('0' <= written[0] <= '9');
    assert('0' <= written[written.len() - 1] <= '9');
    scan::lemma_trimming_bares_the_text(before, written, after, Class::Space);
    reveal_strlit("0x");
    reveal_strlit("0X");
    if written.len() >= 2 {
        assert('0' <= written[1] <= '9');
        assert(written.subrange(0, 2)[1] == written[1]);
        assert("0x"@[1] == 'x' && "0X"@[1] == 'X');
    }
    assert(!scan::stands_at(written, "0x"@, 0));
    assert(!scan::stands_at(written, "0X"@, 0));
}

/// After `0x` or `0X` each further digit, in either case, counts sixteen times
/// less than the one before it.
pub proof fn lemma_hex_numbers_are_read(s: Seq<char>, d: nat, lower: bool)
    requires
        d < 16,
        s.len() > 0 ==> s[0] != '+' && !scan::is_space(s.last()),
    ensures
        ({
            let digit: char = if d < 10 {
                (0x30 + d) as char
            } else if lower {
                (0x61 + d - 10) as char
            } else {
                (0x41 + d - 10) as char
            };
            let shorter = events::number("0x"@ + s);
            let longer = events::number("0x"@ + s.push(digit));
            &&& events::number("0X"@ + s.push(digit)) == longer
            &&& s.len() == 0 ==> longer == Some(d)
            &&& shorter matches Some(n) ==> (if n * 16 + d <= u64::MAX {
                longer == Some((n * 16 + d) as nat)
            } else {
                longer is None
            })
        }),
{
    let digit: char = if d < 10 {
        (0x30 + d) as char
    } else if lower {
        (0x61 + d - 10) as char
    } else {
        (0x41 + d - 10) as char
    };
    reveal_strlit("0x");
    reveal_strlit("0X");
    let more = s.push(digit);
    lemma_marked(s, "0x"@);
    lemma_marked(more, "0x"@);
    lemma_marked(more, "0X"@);
    assert(!scan::stands_at("0X"@ + more, "0x"@, 0)) by {
        assert(("0X"@ + more).subrange(0, 2)[1] == 'X');
        assert("0x"@[1] == 'x');
    }
    assert(more.drop_last() =~= s);
    assert(more.last() == digit);
    assert(text::digit_value(digit, 16) == Some(d));
    assert(s.len() > 0 ==> more[0] == s[0]);
}

proof fn lemma_marked(digits: Seq<char>, mark: Seq<char>)
    requires
        mark.len() == 2,
        mark[0] == '0',
        !scan::is_space(mark[1]),
        digits.len() > 0 ==> !scan::is_space(digits.last()),
    ensures
        scan::trimmed(mark + digits, Class::Space) == mark + digits,
        scan::after_prefix(mark + digits, mark) == Some(digits),
{
    let all = mark + digits;
    assert(all[0] == '0');
    assert(all.subrange(0, 2) =~= mark);
    assert(all.skip(2) =~= digits);
}

/// An event belongs to the session that its connection number names: the number
/// itself, or its high half where it has one.
pub proof fn lemma_sessions_are_named(event: EventModel, session: nat, low: nat)
    requires
        session <= u32::MAX,
        low <= u32::MAX,
    ensures
        event.data.dom().contains("ConnectionId"@) && event.data["ConnectionId"@] == text::decimal(
            session,
        ) ==> event.session() == Some(session),
        event.data.dom().contains("ConnectionId"@) && session > 0 && event.data["ConnectionId"@]
            == text::decimal((session * 0x1_0000_0000 + low) as nat) ==> event.session() == Some(
            session,
        ),
        !event.data.dom().contains("ConnectionId"@) ==> event.session() is None,
{
    let none: Seq<char> = seq![];
    let whole = (session * 0x1_0000_0000 + low) as nat;
    lemma_decimals_are_read(none, session, none);
    lemma_decimals_are_read(none, whole, none);
    assert(none + text::decimal(session) + none =~= text::decimal(session));
    assert(none + text::decimal(whole) + none =~= text::decimal(whole));
    assert(session > 0 ==> whole / 0x1_0000_0000 == session && whole > u32::MAX);
}

/// Whether an event number is one of those with a meaning of its own.
pub open spec fn is_known(event_id: u32) -> bool {
    ||| 8000 <= event_id <= 8003
    ||| event_id == 8011
    ||| 11000 <= event_id <= 11002
    ||| 11004 <= event_id <= 11006
    ||| event_id == 11010
    ||| 12011 <= event_id <= 12013
}

/// Known events have meanings of their own, and all others share one.
pub proof fn lemma_known_events_are_told_apart(a: u32, b: u32)
    ensures
        is_known(a) ==> (events::meaning_of(a) == events::meaning_of(b) <==> a == b),
        !is_known(a) ==> events::meaning_of(a) == "unrecognised event"@,
{
    reveal_strlit("connection attempt started");
    reveal_strlit("connection succeeded");
    reveal_strlit("connection failed");
    reveal_strlit("disconnected");
    reveal_strlit("network visible, auto-connect pending");
    reveal_strlit("association started");
    reveal_strlit("association succeeded");
    reveal_strlit("association aborted");
    reveal_strlit("security teardown");
    reveal_strlit("security succeeded");
    reveal_strlit("security failed");
    reveal_strlit("security started");
    reveal_strlit("802.1X authentication started");
    reveal_strlit("802.1X authentication succeeded");
    reveal_strlit("802.1X authentication failed");
    reveal_strlit("unrecognised event");
    let x = events::meaning_of(a);
    let y = events::meaning_of(b);
    assert(x[0] == y[0] || x != y);
    assert(x[3] == y[3] || x != y);
    assert(x[9] == y[9] || x != y);
    assert(x[11] == y[11] || x != y);
    assert(x[12] == y[12] || x != y);
    assert(x.len() == y.len() || x != y);
}

/// What ended well says that it succeeded, what ended badly that it failed, and
/// what was begun that it started.
pub proof fn lemma_meanings_say_the_outcome()
    ensures
        forall|id: u32| #[trigger]
            events::meaning_of(id) == (if id == 8001 {
                "connection succeeded"@
            } else if id == 11001 {
                "association succeeded"@
            } else if id == 11005 {
                "security succeeded"@
            } else if id == 12012 {
                "802.1X authentication succeeded"@
            } else if id == 8002 {
                "connection failed"@
            } else if id == 11006 {
                "security failed"@
            } else if id == 12013 {
                "802.1X authentication failed"@
            } else if id == 8000 {
                "connection attempt started"@
            } else if id == 11000 {
                "association started"@
            } else if id == 11010 {
                "security started"@
            } else if id == 12011 {
                "802.1X authentication started"@
            } else if id == 8003 {
                "disconnected"@
            } else if id == 11002 {
                "association aborted"@
            } else if id == 11004 {
                "security teardown"@
            } else if id == 8011 {
                "network visible, auto-connect pending"@
            } else {
                "unrecognised event"@
            }),
{
}

// ---------------------------------------------------------------------------
// Documents
// ---------------------------------------------------------------------------

/// How a character is written in a document.
pub open spec fn escaped_char(c: char) -> Seq<char> {
    if c == '&' {
        "&amp;"@
    } else if c == '<' {
        "&lt;"@
    } else if c == '>' {
        "&gt;"@
    } else if c == '"' {
        "&quot;"@
    } else if c == '\'' {
        "&apos;"@
    } else {
        seq![c]
    }
}

/// How a text is written in a document.
pub open spec fn escaped(s: Seq<char>) -> Seq<char>
    decreases s.len(),
{
    if s.len() == 0 {
        seq![]
    } else {
        escaped_char(s[0]) + escaped(s.skip(1))
    }
}

/// A text reads the same after it has been written into a document.
pub proof fn lemma_escaped_text_reads_back(s: Seq<char>)
    ensures
        xml::unescaped(escaped(s)) == s,
        forall|i: int|
            0 <= i < escaped(s).len() ==> #[trigger] escaped(s)[i] != '<' && escaped(s)[i] != '>'
                && escaped(s)[i] != '"' && escaped(s)[i] != '\'',
    decreases s.len(),
{
    reveal_strlit("&amp;");
    reveal_strlit("&lt;");
    reveal_strlit("&gt;");
    reveal_strlit("&quot;");
    reveal_strlit("&apos;");
    if s.len() > 0 {
        let head = escaped_char(s[0]);
        let tail = escaped(s.skip(1));
        let all = head + tail;
        lemma_escaped_text_reads_back(s.skip(1));
        assert(all.take(head.len() as int) =~= head);
        assert(all.skip(head.len() as int) =~= tail);
        if s[0] == '&' {
            assert(scan::stands_at(all, "&amp;"@, 0));
        } else if s[0] == '<' {
            assert(scan::stands_at(all, "&lt;"@, 0));
            lemma_other_mark(all, "&amp;"@, "&lt;"@);
        } else if s[0] == '>' {
            assert(scan::stands_at(all, "&gt;"@, 0));
            lemma_other_mark(all, "&amp;"@, "&gt;"@);
            lemma_other_mark(all, "&lt;"@, "&gt;"@);
        } else if s[0] == '"' {
            assert(scan::stands_at(all, "&quot;"@, 0));
            lemma_other_mark(all, "&amp;"@, "&quot;"@);
            lemma_other_mark(all, "&lt;"@, "&quot;"@);
            lemma_other_mark(all, "&gt;"@, "&quot;"@);
        } else if s[0] == '\'' {
            assert(scan::stands_at(all, "&apos;"@, 0));
            lemma_other_mark(all, "&lt;"@, "&apos;"@);
            lemma_other_mark(all, "&gt;"@, "&apos;"@);
            lemma_other_mark(all, "&quot;"@, "&apos;"@);
            assert("&amp;"@[2] != "&apos;"@[2]);
            assert(all[2] == 'p');
            if scan::stands_at(all, "&amp;"@, 0) {
                assert(all.subrange(0, 5)[2] == 'm');
            }
        } else {
            assert(all[0] == s[0]);
            lemma_no_mark(all);
        }
        assert(seq![s[0]] + s.skip(1) =~= s);
        assert forall|i: int| 0 <= i < all.len() implies #[trigger] all[i] != '<' && all[i] != '>'
            && all[i] != '"' && all[i] != '\'' by {
            if i < head.len() {
                assert(all[i] == head[i]);
            } else {
                assert(all[i] == tail[i - head.len()]);
            }
        }
    }
}

/// A text without an ampersand is as it is written.
pub proof fn lemma_plain_text_reads_as_written(s: Seq<char>)
    requires
        !s.contains('&'),
    ensures
        xml::unescaped(s) == s,
    decreases s.len(),
{
    if s.len() > 0 {
        assert(s.contains(s[0]));
        lemma_no_mark(s);
        let rest = s.skip(1);
        if rest.contains('&') {
            let i = rest.index_of('&');
            assert(s[i + 1] == '&');
            assert(s.contains(s[i + 1]));
        }
        lemma_plain_text_reads_as_written(rest);
        assert(seq![s[0]] + rest =~= s);
    }
}

proof fn lemma_other_mark(s: Seq<char>, other: Seq<char>, mark: Seq<char>)
    requires
        scan::stands_at(s, mark, 0),
        other.len() >= 2,
        mark.len() >= 2,
        other[1] != mark[1],
    ensures
        !scan::stands_at(s, other, 0),
{
    assert(s.subrange(0, mark.len() as int)[1] == mark[1]);
    if scan::stands_at(s, other, 0) {
        assert(s.subrange(0, other.len() as int)[1] == other[1]);
    }
}

proof fn lemma_no_mark(s: Seq<char>)
    requires
        s.len() > 0,
        s[0] != '&',
    ensures
        xml::entity(s) is None,
{
    reveal_strlit("&amp;");
    reveal_strlit("&lt;");
    reveal_strlit("&gt;");
    reveal_strlit("&quot;");
    reveal_strlit("&apos;");
    assert forall|mark: Seq<char>| mark.len() > 0 && mark[0] == '&' implies !#[trigger] scan::stands_at(
        s,
        mark,
        0,
    ) by {
        if scan::stands_at(s, mark, 0) {
            assert(s.subrange(0, mark.len() as int)[0] == mark[0]);
        }
    }
}

/// Whether no tag of a name opens in the first `n` characters of a document.
pub open spec fn none_opens(document: Seq<char>, name: Seq<char>, from: int, n: int) -> bool {
    forall|i: int| from <= i < n ==> !#[trigger] scan::stands_at(document, "<"@ + name, i)
}

/// Whether a text can stand in an opening tag after the name: attributes after
/// white space, or nothing, and no mark that the tag closes itself.
pub open spec fn are_attributes(s: Seq<char>) -> bool {
    &&& s.len() > 0 ==> scan::is_space(s[0])
    &&& s.len() > 0 ==> s.last() != '/'
    &&& !s.contains('>')
}

/// Where the first tag of a name is the one after `before`, it is that tag.
proof fn lemma_tag_opens(
    before: Seq<char>,
    name: Seq<char>,
    attributes: Seq<char>,
    rest: Seq<char>,
    from: int,
)
    requires
        0 <= from <= before.len(),
        name.len() > 0,
        !name.contains('>'),
        attributes.len() > 0 ==> scan::is_space(attributes[0]),
        !attributes.contains('>'),
        none_opens(
            before + "<"@ + name + attributes + ">"@ + rest,
            name,
            from,
            before.len() as int,
        ),
    ensures
        xml::opening(before + "<"@ + name + attributes + ">"@ + rest, name, from) == Some(
            (
                before.len() as int,
                (before.len() + 1 + name.len() + attributes.len()) as int,
            ),
        ),
    decreases before.len() - from,
{
    reveal_strlit("<");
    reveal_strlit(">");
    let s = before + "<"@ + name + attributes + ">"@ + rest;
    let opener = "<"@ + name;
    let n = before.len() as int;
    let end: int = n + 1 + name.len() + attributes.len();
    assert(s.subrange(n, n + opener.len()) =~= opener);
    assert(scan::stands_at(s, opener, n));
    assert(s[end] == '>');
    if attributes.len() > 0 {
        assert(s[n + opener.len()] == attributes[0]);
    }
    if from == n {
        scan::lemma_position(s, '>', n);
        assert forall|j: int| n <= j < end implies s[j] != '>' by {
            if j == n {
            } else if j < n + 1 + name.len() {
                assert(s[j] == name[j - n - 1]);
                assert(name.contains(name[j - n - 1]));
            } else {
                assert(s[j] == attributes[j - n - 1 - name.len()]);
                assert(attributes.contains(attributes[j - n - 1 - name.len()]));
            }
        }
        assert(scan::position(s, '>', n) == end);
    } else {
        assert(!scan::stands_at(s, opener, from));
        lemma_tag_opens(before, name, attributes, rest, from + 1);
    }
}

/// An element holds the text between its tags, with its entities replaced, and
/// ends after the closing tag.
proof fn lemma_content_ends(
    head: Seq<char>,
    name: Seq<char>,
    inner: Seq<char>,
    after: Seq<char>,
    start: int,
)
    requires
        head.len() >= 2,
        head.last() == '>',
        head[head.len() - 2] != '/',
        !inner.contains('<'),
    ensures
        xml::content(head + inner + "</"@ + name + ">"@ + after, name, (start, head.len() - 1))
            == Some((inner, (head.len() + inner.len() + 3 + name.len()) as int)),
{
    reveal_strlit("</");
    reveal_strlit(">");
    let s = head + inner + "</"@ + name + ">"@ + after;
    let closer = "</"@ + name + ">"@;
    let n = head.len() as int;
    let stop = n + inner.len();
    assert(s.subrange(stop, stop + closer.len()) =~= closer);
    assert(s[n - 2] == head[n - 2]);
    scan::lemma_first_match(s, closer, n);
    assert forall|j: int| n <= j < stop implies !#[trigger] scan::stands_at(s, closer, j) by {
        if scan::stands_at(s, closer, j) {
            assert(s.subrange(j, j + closer.len())[0] == '<');
            assert(s[j] == inner[j - n]);
            assert(inner.contains(inner[j - n]));
        }
    }
    assert(scan::stands_at(s, closer, stop));
    assert(scan::first_match(s, closer, n) == Some(stop));
    assert(s.subrange(n, stop) =~= inner);
}

/// The text of an element is what stands between the first tag of its name and
/// the tag that closes it.
pub proof fn lemma_elements_are_read(
    before: Seq<char>,
    name: Seq<char>,
    attributes: Seq<char>,
    said: Seq<char>,
    after: Seq<char>,
)
    requires
        name.len() > 0,
        !name.contains('>'),
        name.last() != '/',
        are_attributes(attributes),
        none_opens(
            before + "<"@ + name + attributes + ">"@ + (escaped(said) + "</"@ + name + ">"@
                + after),
            name,
            0,
            before.len() as int,
        ),
    ensures
        xml::element(
            before + "<"@ + name + attributes + ">"@ + (escaped(said) + "</"@ + name + ">"@
                + after),
            name,
        ) == Some(said),
{
    reveal_strlit("<");
    reveal_strlit(">");
    let inner = escaped(said);
    let head = before + "<"@ + name + attributes + ">"@;
    let rest = inner + "</"@ + name + ">"@ + after;
    lemma_tag_opens(before, name, attributes, rest, 0);
    lemma_escaped_text_reads_back(said);
    if inner.contains('<') {
        let i = inner.index_of('<');
        assert(inner[i] == '<');
    }
    if attributes.len() > 0 {
        assert(head[head.len() - 2] == attributes.last());
    } else {
        assert(head[head.len() - 2] == name.last());
    }
    lemma_content_ends(head, name, inner, after, before.len() as int);
    assert(head + rest =~= head + inner + "</"@ + name + ">"@ + after);
}

/// A document without a tag of a name has no such element, and no attribute of
/// one.
pub proof fn lemma_missing_elements_are_not_read(
    document: Seq<char>,
    name: Seq<char>,
    attribute: Seq<char>,
)
    requires
        none_opens(document, name, 0, document.len() as int),
    ensures
        xml::element(document, name) is None,
        xml::attribute_of(document, name, attribute) is None,
{
    lemma_no_tag(document, name, 0);
}

proof fn lemma_no_tag(document: Seq<char>, name: Seq<char>, from: int)
    requires
        0 <= from,
        none_opens(document, name, from, document.len() as int),
    ensures
        xml::opening(document, name, from) is None,
    decreases document.len() - from,
{
    if from < document.len() {
        assert(!scan::stands_at(document, "<"@ + name, from));
        lemma_no_tag(document, name, from + 1);
    }
}

/// An attribute says what stands between the quotes after its name, which may
/// be of either kind.
pub proof fn lemma_attributes_are_read(
    before: Seq<char>,
    name: Seq<char>,
    quote: char,
    said: Seq<char>,
    after: Seq<char>,
)
    requires
        quote == '"' || quote == '\'',
        forall|i: int|
            0 <= i < before.len() ==> !#[trigger] scan::stands_at(
                before + " "@ + name + "="@ + seq![quote] + escaped(said) + seq![quote] + after,
                " "@ + name + "="@,
                i,
            ),
    ensures
        xml::attribute_in(
            before + " "@ + name + "="@ + seq![quote] + escaped(said) + seq![quote] + after,
            name,
        ) == Some(said),
{
    reveal_strlit(" ");
    reveal_strlit("=");
    let inner = escaped(said);
    let tag = before + " "@ + name + "="@ + seq![quote] + inner + seq![quote] + after;
    let marker = " "@ + name + "="@;
    let n = before.len() as int;
    let open = n + marker.len();
    assert(tag.subrange(n, n + marker.len()) =~= marker);
    assert(scan::stands_at(tag, marker, n));
    scan::lemma_first_match(tag, marker, 0);
    assert(scan::first_match(tag, marker, 0) == Some(n));
    assert(tag[open] == quote);
    let close = open + 1 + inner.len();
    assert(tag[close] == quote);
    scan::lemma_position(tag, quote, open + 1);
    lemma_escaped_text_reads_back(said);
    assert forall|j: int| open < j < close implies tag[j] != quote by {
        assert(tag[j] == inner[j - open - 1]);
    }
    assert(scan::position(tag, quote, open + 1) == close);
    assert(tag.subrange(open + 1, close) =~= inner);
}

/// A named piece of data, as a document writes it.
pub open spec fn named_data(name: Seq<char>, quote: char, said: Seq<char>) -> Seq<char> {
    "<"@ + "Data"@ + (" "@ + "Name"@ + "="@ + seq![quote] + escaped(name) + seq![quote]) + ">"@
        + (escaped(said) + "</"@ + "Data"@ + ">"@)
}

/// A piece of data without a name, as a document writes it.
pub open spec fn nameless_data(said: Seq<char>) -> Seq<char> {
    "<"@ + "Data"@ + ">"@ + (escaped(said) + "</"@ + "Data"@ + ">"@)
}

/// The next named piece of data gives its field that text, and the reading goes
/// on after it.
pub proof fn lemma_named_data_is_kept(
    before: Seq<char>,
    name: Seq<char>,
    quote: char,
    said: Seq<char>,
    after: Seq<char>,
    from: int,
    fields: Map<Seq<char>, Seq<char>>,
    named: bool,
)
    requires
        quote == '"' || quote == '\'',
        0 <= from <= before.len(),
        none_opens(
            before + named_data(name, quote, said) + after,
            "Data"@,
            from,
            before.len() as int,
        ),
    ensures
        xml::data_from(before + named_data(name, quote, said) + after, from, fields, named)
            == xml::data_from(
            before + named_data(name, quote, said) + after,
            (before.len() + named_data(name, quote, said).len()) as int,
            fields.insert(name, said),
            named,
        ),
{
    reveal_strlit("<");
    reveal_strlit("</");
    reveal_strlit(">");
    reveal_strlit("Data");
    reveal_strlit(" ");
    reveal_strlit("Name");
    reveal_strlit("=");
    let s = before + named_data(name, quote, said) + after;
    let attributes = " "@ + "Name"@ + "="@ + seq![quote] + escaped(name) + seq![quote];
    let inner = escaped(said);
    let rest = inner + "</"@ + "Data"@ + ">"@ + after;
    let head = before + "<"@ + "Data"@ + attributes + ">"@;
    lemma_escaped_text_reads_back(name);
    lemma_escaped_text_reads_back(said);
    assert(s =~= before + "<"@ + "Data"@ + attributes + ">"@ + rest);
    assert(s =~= head + inner + "</"@ + "Data"@ + ">"@ + after);
    assert(!attributes.contains('>')) by {
        if attributes.contains('>') {
            let i = attributes.index_of('>');
            if 7 <= i < 7 + escaped(name).len() {
                assert(attributes[i] == escaped(name)[i - 7]);
            }
        }
    }
    assert(!("Data"@).contains('>')) by {
        if "Data"@.contains('>') {
            let i = "Data"@.index_of('>');
            assert("Data"@[i] == '>');
        }
    }
    lemma_tag_opens(before, "Data"@, attributes, rest, from);
    assert(!inner.contains('<')) by {
        if inner.contains('<') {
            let i = inner.index_of('<');
            assert(inner[i] == '<');
        }
    }
    assert(head[head.len() - 2] == attributes.last());
    lemma_content_ends(head, "Data"@, inner, after, before.len() as int);
    let start = before.len() as int;
    let end = head.len() - 1;
    let tag = s.subrange(start, end);
    let none: Seq<char> = seq![];
    let front = "<"@ + "Data"@;
    assert(tag =~= front + " "@ + "Name"@ + "="@ + seq![quote] + escaped(name) + seq![quote] + none);
    let marker = " "@ + "Name"@ + "="@;
    assert forall|i: int| 0 <= i < front.len() implies !#[trigger] scan::stands_at(tag, marker, i) by {
        if scan::stands_at(tag, marker, i) {
            assert(tag.subrange(i, i + marker.len())[0] == ' ');
            assert(tag[i] == front[i]);
        }
    }
    lemma_attributes_are_read(front, "Name"@, quote, name, none);
    assert(before.len() + named_data(name, quote, said).len() == head.len() + inner.len() + 3 + 4);
}

/// The next piece of data without a name is not kept, and the event is known to
/// have one.
pub proof fn lemma_nameless_data_is_noticed(
    before: Seq<char>,
    said: Seq<char>,
    after: Seq<char>,
    from: int,
    fields: Map<Seq<char>, Seq<char>>,
    named: bool,
)
    requires
        0 <= from <= before.len(),
        none_opens(before + nameless_data(said) + after, "Data"@, from, before.len() as int),
    ensures
        xml::data_from(before + nameless_data(said) + after, from, fields, named) == xml::data_from(
            before + nameless_data(said) + after,
            (before.len() + nameless_data(said).len()) as int,
            fields,
            false,
        ),
{
    reveal_strlit("<");
    reveal_strlit("</");
    reveal_strlit(">");
    reveal_strlit("Data");
    reveal_strlit(" ");
    reveal_strlit("Name");
    reveal_strlit("=");
    let s = before + nameless_data(said) + after;
    let attributes: Seq<char> = seq![];
    let inner = escaped(said);
    let rest = inner + "</"@ + "Data"@ + ">"@ + after;
    let head = before + "<"@ + "Data"@ + attributes + ">"@;
    lemma_escaped_text_reads_back(said);
    assert(s =~= before + "<"@ + "Data"@ + attributes + ">"@ + rest);
    assert(s =~= head + inner + "</"@ + "Data"@ + ">"@ + after);
    assert(!("Data"@).contains('>')) by {
        if "Data"@.contains('>') {
            let i = "Data"@.index_of('>');
            assert("Data"@[i] == '>');
        }
    }
    lemma_tag_opens(before, "Data"@, attributes, rest, from);
    assert(!inner.contains('<')) by {
        if inner.contains('<') {
            let i = inner.index_of('<');
            assert(inner[i] == '<');
        }
    }
    assert(head[head.len() - 2] == "Data"@[3]);
    lemma_content_ends(head, "Data"@, inner, after, before.len() as int);
    let start = before.len() as int;
    let end = head.len() - 1;
    let tag = s.subrange(start, end);
    let front = "<"@ + "Data"@;
    assert(tag =~= front);
    let marker = " "@ + "Name"@ + "="@;
    scan::lemma_first_match(tag, marker, 0);
    if scan::first_match(tag, marker, 0) is Some {
        let i = scan::first_match(tag, marker, 0)->0;
        assert(tag.subrange(i, i + marker.len())[0] == ' ');
        assert(tag[i] == front[i]);
    }
    assert(before.len() + nameless_data(said).len() == head.len() + inner.len() + 3 + 4);
}

/// Where no further data follows, the fields are those that were kept.
pub proof fn lemma_data_ends(
    document: Seq<char>,
    from: int,
    fields: Map<Seq<char>, Seq<char>>,
    named: bool,
)
    requires
        0 <= from,
        none_opens(document, "Data"@, from, document.len() as int),
    ensures
        xml::data_from(document, from, fields, named) == (fields, named),
{
    lemma_no_tag(document, "Data"@, from);
}

// ---------------------------------------------------------------------------
// Events
// ---------------------------------------------------------------------------

/// An event has the number, the record number and the time that its document
/// writes, and the data of the whole document.
pub proof fn lemma_events_are_decoded(
    document: Seq<char>,
    event_id: u32,
    record_id: Option<u64>,
    seconds: int,
)
    requires
        xml::element(document, "EventID"@) == Some(text::decimal(event_id as nat)),
        match record_id {
            Some(id) => xml::element(document, "EventRecordID"@) == Some(text::decimal(id as nat)),
            None => xml::element(document, "EventRecordID"@) is None,
        },
        xml::attribute_of(document, "TimeCreated"@, "SystemTime"@) == Some(
            time::epoch_text(seconds),
        ),
        time::first_second() <= seconds <= time::last_second(),
    ensures
        events::decoded(document) matches Ok(event) && {
            &&& event.event_id == event_id
            &&& event.record_id == record_id
            &&& event.epoch_seconds == seconds
            &&& event.time_created == time::epoch_text(seconds)
            &&& event.meaning == events::meaning_of(event_id)
            &&& (event.data, event.named_fields) == xml::data_from(document, 0, Map::empty(), true)
        },
{
    lemma_decimal_is_read(event_id as nat);
    if let Some(id) = record_id {
        lemma_decimal_is_read(id as nat);
    }
    time::lemma_timestamps_round_trip(seconds);
    lemma_seconds_fit(seconds);
}

proof fn lemma_decimal_is_read(n: nat)
    ensures
        scan::trimmed(text::decimal(n), Class::Space) == text::decimal(n),
        text::parse_unsigned(text::decimal(n), 10) == Some(n),
{
    let none: Seq<char> = seq![];
    let written = text::decimal(n);
    text::lemma_decimal_reads_back(n);
    assert('0' <= written[0] <= '9');
    assert('0' <= written[written.len() - 1] <= '9');
    scan::lemma_trimming_bares_the_text(none, written, none, Class::Space);
    assert(none + written + none =~= written);
}

proof fn lemma_seconds_fit(seconds: int)
    requires
        time::first_second() <= seconds <= time::last_second(),
    ensures
        i64::MIN <= seconds <= i64::MAX,
{
}

/// A document without a number or a time is no event, and one with a number
/// that is none is refused too: the first fault is the one that is named.
pub proof fn lemma_faulty_documents_are_refused(document: Seq<char>, event_id: u32)
    ensures
        xml::element(document, "EventID"@) is None ==> events::decoded(document) == Err::<
            EventModel,
            Seq<char>,
        >("missing EventID"@),
        events::decoded(document) is Ok ==> xml::element(document, "EventID"@) is Some
            && xml::attribute_of(document, "TimeCreated"@, "SystemTime"@) is Some,
        (xml::element(document, "EventID"@) == Some(text::decimal(event_id as nat)) && xml::element(
            document,
            "EventRecordID"@,
        ) is None && xml::attribute_of(document, "TimeCreated"@, "SystemTime"@) is None)
            ==> events::decoded(document) == Err::<EventModel, Seq<char>>(
            "missing TimeCreated/SystemTime"@,
        ),
{
    lemma_decimal_is_read(event_id as nat);
}

/// All documents are decoded, each to the event in its place, or the first one
/// that cannot be is named by its place.
pub proof fn lemma_documents_are_decoded_in_order(documents: Seq<String>)
    ensures
        match events::all_decoded(documents) {
            Ok(all) => all.len() == documents.len() && forall|i: int|
                0 <= i < documents.len() ==> events::decoded((#[trigger] documents[i])@) == Ok::<
                    EventModel,
                    Seq<char>,
                >(all[i]),
            Err(said) => exists|i: int|
                0 <= i < documents.len() && (forall|j: int|
                    0 <= j < i ==> events::decoded((#[trigger] documents[j])@) is Ok)
                    && events::decoded((#[trigger] documents[i])@) is Err && said
                    == "failed to decode WLAN event "@ + text::decimal(i as nat) + ": "@
                    + events::decoded(documents[i]@)->Err_0,
        },
    decreases documents.len(),
{
    if documents.len() > 0 {
        let shorter = documents.drop_last();
        let last = documents.len() - 1;
        lemma_documents_are_decoded_in_order(shorter);
        assert forall|i: int| 0 <= i < last implies #[trigger] shorter[i] == documents[i] by {}
        match events::all_decoded(shorter) {
            Ok(all) => {
                assert forall|i: int| 0 <= i < last implies events::decoded(
                    (#[trigger] documents[i])@,
                ) is Ok by {
                    assert(shorter[i] == documents[i]);
                }
                if let Ok(event) = events::decoded(documents.last()@) {
                    let full = all.push(event);
                    assert forall|i: int| 0 <= i < documents.len() implies events::decoded(
                        (#[trigger] documents[i])@,
                    ) == Ok::<EventModel, Seq<char>>(full[i]) by {
                        if i < last {
                            assert(shorter[i] == documents[i]);
                        }
                    }
                } else {
                    assert(documents[last] == documents.last());
                }
            },
            Err(said) => {
                let i = choose|i: int|
                    0 <= i < shorter.len() && (forall|j: int|
                        0 <= j < i ==> events::decoded((#[trigger] shorter[j])@) is Ok)
                        && events::decoded((#[trigger] shorter[i])@) is Err && said
                        == "failed to decode WLAN event "@ + text::decimal(i as nat) + ": "@
                        + events::decoded(shorter[i]@)->Err_0;
                assert forall|j: int| 0 <= j < i implies events::decoded(
                    (#[trigger] documents[j])@,
                ) is Ok by {
                    assert(shorter[j] == documents[j]);
                }
                assert(shorter[i] == documents[i]);
            },
        }
    }
}

/// Of the events those are kept that are at most a window old: every one of
/// them, and no other.
pub proof fn lemma_windows_keep_recent_events(
    all: Seq<EventModel>,
    now: i64,
    window: u64,
    event: EventModel,
)
    ensures
        events::within(all, now as int, None) == all,
        events::within(all, now as int, Some(window)).contains(event) <==> all.contains(event)
            && now - event.epoch_seconds <= (if window > i64::MAX {
            i64::MAX as int
        } else {
            window as int
        }),
        (forall|i: int|
            0 <= i < all.len() ==> now - (#[trigger] all[i]).epoch_seconds <= window
                && window <= i64::MAX) ==> events::within(all, now as int, Some(window)) == all,
{
    let recent = |event: EventModel|
        event.epoch_seconds >= events::window_floor(now as int, window as nat);
    counting::lemma_picked_elements(all, recent, event);
    if forall|i: int|
        0 <= i < all.len() ==> now - (#[trigger] all[i]).epoch_seconds <= window && window
            <= i64::MAX {
        let every = |event: EventModel| true;
        counting::lemma_same_picks(all, recent, every);
        lemma_all_are_picked(all);
    }
}

proof fn lemma_all_are_picked(all: Seq<EventModel>)
    ensures
        all.filter(|event: EventModel| true) == all,
    decreases all.len(),
{
    reveal(Seq::filter);
    if all.len() > 0 {
        lemma_all_are_picked(all.drop_last());
        assert(all.drop_last().push(all.last()) =~= all);
    }
}

// ---------------------------------------------------------------------------
// The event log
// ---------------------------------------------------------------------------

/// Of a batch as many handles are rendered as came, but no more than one batch
/// holds and no more than are still wanted.
pub proof fn lemma_batches_are_taken(have: int, max: int, returned: int)
    requires
        0 <= have < max,
        0 <= returned,
    ensures
        0 <= sys::taken(have, max, returned) <= returned,
        sys::taken(have, max, returned) <= 32,
        have + sys::taken(have, max, returned) <= max,
        returned > 0 ==> sys::taken(have, max, returned) > 0,
        sys::taken(have, max, returned) < returned ==> sys::taken(have, max, returned) == 32 || have
            + sys::taken(have, max, returned) == max,
{
}

/// A window of seconds is asked for in milliseconds; without a window all
/// events are asked for.
pub proof fn lemma_windows_are_asked_for(seconds: u64)
    ensures
        sys::query_for(None) == Some("*"@),
        sys::query_for(Some(seconds)) is Some <==> seconds <= 18_446_744_073_709_551,
        sys::query_for(Some(seconds)) matches Some(query) ==> query
            == "*[System[TimeCreated[timediff(@SystemTime) <= "@ + text::decimal(
            (1000 * seconds) as nat,
        ) + "]]]"@,
{
}

/// A text without a zero character in it ends where its terminating zero
/// stands, whatever follows in the buffer.
pub proof fn lemma_wide_text_ends_at_its_zero(s: Seq<char>, rest: Seq<u16>)
    requires
        !s.contains('\0'),
    ensures
        sys::before_zero(sys::utf16(s).push(0) + rest) == sys::utf16(s),
{
    lemma_no_zero(s);
    lemma_ends_at_zero(sys::utf16(s), rest);
}

proof fn lemma_code_points_end(c: char)
    ensures
        0 <= c as int <= 0x10_FFFF,
{
}

proof fn lemma_no_zero(s: Seq<char>)
    requires
        !s.contains('\0'),
    ensures
        forall|i: int| 0 <= i < sys::utf16(s).len() ==> #[trigger] sys::utf16(s)[i] != 0,
    decreases s.len(),
{
    if s.len() > 0 {
        let shorter = s.drop_last();
        if shorter.contains('\0') {
            let i = shorter.index_of('\0');
            assert(s[i] == '\0');
            assert(s.contains(s[i]));
        }
        lemma_no_zero(shorter);
        assert(s.contains(s.last()));
        let front = sys::utf16(shorter);
        let units = sys::utf16_units(s.last());
        let code = s.last() as int;
        assert(s.last() != '\0');
        assert(code != 0);
        lemma_code_points_end(s.last());
        assert(0 < code <= 0x10_FFFF);
        if code >= 0x1_0000 {
            assert(0 <= (code - 0x1_0000) / 0x400 <= 0x3FF);
            assert(0 <= (code - 0x1_0000) % 0x400 <= 0x3FF);
            assert(units[0] == 0xD800 + (code - 0x1_0000) / 0x400);
            assert(units[1] == 0xDC00 + (code - 0x1_0000) % 0x400);
        } else {
            assert(units[0] == code);
        }
        assert forall|i: int| 0 <= i < sys::utf16(s).len() implies #[trigger] sys::utf16(s)[i]
            != 0 by {
            if i < front.len() {
                assert(sys::utf16(s)[i] == front[i]);
            } else {
                assert(sys::utf16(s)[i] == units[i - front.len()]);
            }
        }
    }
}

proof fn lemma_ends_at_zero(units: Seq<u16>, rest: Seq<u16>)
    requires
        forall|i: int| 0 <= i < units.len() ==> #[trigger] units[i] != 0,
    ensures
        sys::before_zero(units.push(0) + rest) == units,
    decreases units.len(),
{
    let all = units.push(0) + rest;
    if units.len() == 0 {
        assert(all[0] == 0);
    } else {
        let shorter = units.drop_first();
        assert forall|i: int| 0 <= i < shorter.len() implies #[trigger] shorter[i] != 0 by {
            assert(shorter[i] == units[i + 1]);
        }
        lemma_ends_at_zero(shorter, rest);
        assert(all.drop_first() =~= shorter.push(0) + rest);
        assert(all[0] == units[0]);
        assert(seq![units[0]] + shorter =~= units);
    }
}

/// What is said of a refused query names the channel, and tells a lack of
/// rights from a channel that is missing and from everything else.
pub proof fn lemma_refusals_name_the_channel(channel: Seq<char>, code: u32)
    ensures
        scan::holds(sys::refusal(channel, code), channel),
        scan::stands_at(sys::refusal(channel, code), "access denied reading "@, 0) <==> code == 5,
        scan::stands_at(sys::refusal(channel, code), "event channel not found: "@, 0) <==> code
            == 15007,
{
    reveal_strlit("access denied reading ");
    reveal_strlit("event channel not found: ");
    reveal_strlit("EvtQuery failed on ");
    let said = sys::refusal(channel, code);
    let denied = "access denied reading "@;
    let missing = "event channel not found: "@;
    let failed = "EvtQuery failed on "@;
    let lead = if code == 5 {
        denied
    } else if code == 15007 {
        missing
    } else {
        failed
    };
    let n = lead.len() as int;
    assert(said.subrange(n, n + channel.len()) =~= channel);
    assert(scan::stands_at(said, channel, n));
    assert(said.subrange(0, n) =~= lead);
    assert(said[0] == lead[0]);
    if scan::stands_at(said, denied, 0) {
        assert(said.subrange(0, denied.len() as int)[0] == 'a');
    }
    if scan::stands_at(said, missing, 0) {
        assert(said.subrange(0, missing.len() as int)[0] == 'e');
    }
}

/// A batch is rendered as far as it is wanted, and more are asked for only after
/// a full one; running out of events ends the query, and any other error fails
/// it with the channel and the code.
pub proof fn lemma_batches_are_decided(
    channel: &str,
    have: usize,
    max: usize,
    reply: sys::BatchReply,
    step: sys::BatchStep,
)
    requires
        call_ensures(sys::on_batch, (channel, have, max, reply), step),
        have < max,
    ensures
        reply matches sys::BatchReply::Returned(came) ==> (step matches sys::BatchStep::Render {
            count,
            more,
        } && count <= came && count <= 32 && have + count <= max && (more ==> came >= 32 && have
            + count < max) && (!more ==> came < 32 || have + count == max) && (count < came
            ==> count == 32 || have + count == max)),
        reply matches sys::BatchReply::Failed(code) ==> {
            &&& code == 259 <==> step is Finish
            &&& step matches sys::BatchStep::Fail(said) ==> scan::holds(said@, channel@)
                && scan::holds(said@, text::decimal(code as nat))
        },
{
    if let sys::BatchReply::Failed(code) = reply {
        let lead = "EvtNext failed on "@;
        let number = text::decimal(code as nat);
        let middle = " after "@ + text::decimal(have as nat) + " rendered events (error "@;
        let said = sys::interruption(channel@, have as nat, code);
        let n = lead.len() as int;
        assert(said.subrange(n, n + channel@.len()) =~= channel@);
        assert(scan::stands_at(said, channel@, n));
        let at = n + channel@.len() + middle.len();
        assert(said.subrange(at, at + number.len()) =~= number);
        assert(scan::stands_at(said, number, at));
    }
}

/// The room for an event is had from the one error that tells its size, and
/// holds all of its bytes.
pub proof fn lemma_rooms_hold_the_event(needed: u32, code: u32, room: Result<usize, String>)
    requires
        call_ensures(sys::render_size, (needed, code), room),
    ensures
        room is Ok <==> needed > 0 && code == 122,
        room matches Ok(units) ==> 2 * units > needed && 2 * units <= needed + 2,
        room matches Err(said) ==> said@ == "EvtRender sizing failed (error "@ + text::decimal(
            code as nat,
        ) + ", needed "@ + text::decimal(needed as nat) + " bytes)"@,
{
}

/// Nothing is asked of the log where nothing is wanted.
pub proof fn lemma_nothing_wanted_is_nothing_asked(
    max: usize,
    window: Option<u64>,
    query: Result<Option<String>, String>,
)
    requires
        call_ensures(sys::first_query, (max, window), query),
    ensures
        max == 0 <==> query == Ok::<Option<String>, String>(None),
        max > 0 && window is None ==> (query matches Ok(Some(asked)) && asked@ == "*"@),
        query is Err <==> max > 0 && window is Some && window->0 > 18_446_744_073_709_551,
{
}

/// An event names its interface by either of two fields.
pub proof fn lemma_events_name_their_interface(event: WlanEvent, named: Option<&str>)
    requires
        call_ensures(WlanEvent::interface_guid, (&event,), named),
    ensures
        event@.data.dom().contains("InterfaceGuid"@) ==> (named matches Some(guid) && guid@
            == event@.data["InterfaceGuid"@]),
        !event@.data.dom().contains("InterfaceGuid"@) && event@.data.dom().contains(
            "DeviceGuid"@,
        ) ==> (named matches Some(guid) && guid@ == event@.data["DeviceGuid"@]),
        !event@.data.dom().contains("InterfaceGuid"@) && !event@.data.dom().contains(
            "DeviceGuid"@,
        ) ==> named is None,
{
}

} // verus!

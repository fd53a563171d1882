//! The lines of a file, as bytes.
//!
//! A file that lost power in the middle of a write may end inside a character.
//! Cutting it at its line feeds, before anything is decoded, keeps that from
//! being more than the loss of one line.

use crate::scan;
use vstd::prelude::*;
use vstd::slice::slice_subrange;
use vstd::utf8::*;

verus! {

/// The position of the first line feed in `s` from `i` on, or the end.
pub open spec fn line_end(s: Seq<u8>, i: int) -> int
    decreases s.len() - i,
{
    if i >= s.len() || s[i] == 10 {
        i
    } else {
        line_end(s, i + 1)
    }
}

/// A line without the carriage return that its ending may have.
pub open spec fn without_return(line: Seq<u8>) -> Seq<u8> {
    if line.len() > 0 && line.last() == 13 {
        line.drop_last()
    } else {
        line
    }
}

/// The lines of a file. Each ends at a line feed, with or without a carriage
/// return before it; the ending of the last line is optional.
pub open spec fn byte_lines(s: Seq<u8>) -> Seq<Seq<u8>>
    decreases s.len(),
{
    if s.len() == 0 {
        seq![]
    } else {
        let i = line_end(s, 0);
        if 0 <= i < s.len() {
            seq![without_return(s.take(i))] + byte_lines(s.skip(i + 1))
        } else {
            seq![s]
        }
    }
}

/// `line_end` finds the first line feed, or the end where there is none.
pub proof fn lemma_line_end(s: Seq<u8>, i: int)
    requires
        0 <= i <= s.len(),
    ensures
        i <= line_end(s, i) <= s.len(),
        line_end(s, i) < s.len() ==> s[line_end(s, i)] == 10,
        forall|j: int| i <= j < line_end(s, i) ==> s[j] != 10,
    decreases s.len() - i,
{
    if i < s.len() && s[i] != 10 {
        lemma_line_end(s, i + 1);
    }
}

proof fn lemma_line_end_shift(s: Seq<u8>, start: int)
    requires
        0 <= start <= s.len(),
    ensures
        line_end(s, start) == start + line_end(s.skip(start), 0),
{
    let rest = s.skip(start);
    lemma_line_end(s, start);
    lemma_line_end(rest, 0);
    let a = line_end(s, start) - start;
    let b = line_end(rest, 0);
    if a < b {
        assert(rest[a] == s[start + a]);
    } else if b < a {
        assert(rest[b] == s[start + b]);
    }
}

/// Cut a file into its lines.
pub fn split_bytes<'a>(s: &'a [u8]) -> (r: Vec<&'a [u8]>)
    ensures
        r@.len() == byte_lines(s@).len(),
        forall|i: int| 0 <= i < r@.len() ==> (#[trigger] r@[i])@ == byte_lines(s@)[i],
{
    let mut out: Vec<&'a [u8]> = Vec::new();
    let mut start: usize = 0;
    let ghost all = byte_lines(s@);
    proof {
        assert(s@.skip(0) =~= s@);
    }
    while start < s.len()
        invariant
            start <= s@.len(),
            all == byte_lines(s@),
            all.len() == out@.len() + byte_lines(s@.skip(start as int)).len(),
            forall|i: int| 0 <= i < out@.len() ==> (#[trigger] out@[i])@ == all[i],
            all.skip(out@.len() as int) == byte_lines(s@.skip(start as int)),
        decreases s@.len() - start,
    {
        let ghost rest = s@.skip(start as int);
        let mut end: usize = start;
        while end < s.len() && s[end] != 10
            invariant
                start <= end <= s@.len(),
                line_end(s@, start as int) == line_end(s@, end as int),
            decreases s@.len() - end,
        {
            end = end + 1;
        }
        proof {
            lemma_line_end(s@, start as int);
            lemma_line_end_shift(s@, start as int);
            assert(all.skip(out@.len() as int)[0] == all[out@.len() as int]);
        }
        if end < s.len() {
            let stop: usize = if end > start && s[end - 1] == 13 {
                end - 1
            } else {
                end
            };
            let line = slice_subrange(s, start, stop);
            proof {
                let whole = rest.take(end - start);
                assert(whole =~= s@.subrange(start as int, end as int));
                assert(line@ =~= without_return(whole));
                assert(rest.skip(end - start + 1) =~= s@.skip(end + 1));
                assert(byte_lines(rest) =~= seq![line@] + byte_lines(s@.skip(end + 1)));
                let told = all.skip(out@.len() as int);
                assert(all.skip(out@.len() as int + 1) =~= told.skip(1));
                assert(told.skip(1) =~= byte_lines(s@.skip(end + 1)));
            }
            out.push(line);
            start = end + 1;
        } else {
            let line = slice_subrange(s, start, s.len());
            proof {
                assert(line@ =~= rest);
                assert(byte_lines(rest) =~= seq![rest]);
                assert(s@.skip(s@.len() as int) =~= seq![]);
                assert(all.skip(out@.len() as int + 1) =~= seq![]);
            }
            out.push(line);
            start = s.len();
        }
    }
    proof {
        assert(s@.skip(start as int) =~= seq![]);
    }
    out
}

// ---------------------------------------------------------------------------
// Lines of text
// ---------------------------------------------------------------------------

/// What one text after another is encoded as.
pub proof fn lemma_encoding_adds(a: Seq<char>, b: Seq<char>)
    ensures
        encode_utf8(a + b) == encode_utf8(a) + encode_utf8(b),
    decreases a.len(),
{
    if a.len() == 0 {
        assert(a + b =~= b);
        assert(encode_utf8(a) + encode_utf8(b) =~= encode_utf8(b));
    } else {
        lemma_encoding_adds(a.drop_first(), b);
        assert((a + b).drop_first() =~= a.drop_first() + b);
        assert(encode_utf8(a + b) =~= encode_utf8(a) + encode_utf8(b));
    }
}

/// A character beyond ASCII has no byte of ASCII.
proof fn lemma_encoding_of_one(c: char)
    ensures
        encode_utf8(seq![c]) == encode_scalar(c as u32),
        encode_utf8(seq![c]).len() > 0,
        c as u32 <= 127 ==> encode_utf8(seq![c]) == seq![c as u8] && c as u8 == c as u32,
        c as u32 > 127 ==> forall|i: int|
            0 <= i < encode_utf8(seq![c]).len() ==> #[trigger] encode_utf8(seq![c])[i] >= 128,
        c as u32 == 10 ==> c == '\n',
        c as u32 == 13 ==> c == '\r',
{
    let one = seq![c];
    assert(one.drop_first() =~= seq![]);
    assert(encode_utf8(one) =~= encode_scalar(c as u32)) by {
        reveal_with_fuel(encode_utf8, 2);
    }
    let v = c as u32;
    char_is_scalar(c);
    char_u32_cast(c, v);
    char_u32_cast('\n', 10);
    char_u32_cast('\r', 13);
    assert(v <= 127 ==> leading_byte_width_1(v) == v as u8 && v as u8 == v) by (bit_vector);
    assert(leading_byte_width_2(v) >= 128 && leading_byte_width_3(v) >= 128
        && leading_byte_width_4(v) >= 128 && last_continuation_byte(v) >= 128
        && second_last_continuation_byte(v) >= 128 && third_last_continuation_byte(v) >= 128)
        by (bit_vector);
    if v <= 127 {
        assert(encode_scalar(v) =~= seq![c as u8]);
    }
}

/// A text without a line feed has no byte that is one.
proof fn lemma_no_line_feed(s: Seq<char>)
    requires
        !s.contains('\n'),
    ensures
        !encode_utf8(s).contains(10),
    decreases s.len(),
{
    if s.len() > 0 {
        let first = seq![s[0]];
        let rest = s.drop_first();
        assert(s =~= first + rest);
        assert(s.contains(s[0]));
        assert(!rest.contains('\n')) by {
            if rest.contains('\n') {
                let j = choose|j: int| 0 <= j < rest.len() && rest[j] == '\n';
                assert(s[j + 1] == '\n');
            }
        }
        lemma_no_line_feed(rest);
        lemma_encoding_adds(first, rest);
        lemma_encoding_of_one(s[0]);
        let a = encode_utf8(first);
        let b = encode_utf8(rest);
        if (a + b).contains(10) {
            let j = choose|j: int| 0 <= j < (a + b).len() && (a + b)[j] == 10;
            if j >= a.len() {
                assert(b[j - a.len()] == 10);
                assert(b.contains(10));
            } else {
                assert(a[j] == 10);
            }
        }
    }
}

/// A carriage return at the end of a text is one at the end of its bytes.
proof fn lemma_return_at_the_end(s: Seq<char>)
    ensures
        encode_utf8(scan::without_return(s)) == without_return(encode_utf8(s)),
        s.len() > 0 ==> encode_utf8(s).len() > 0,
        s.len() > 0 ==> (encode_utf8(s).last() == 13 <==> s.last() == '\r'),
{
    if s.len() > 0 {
        let head = s.drop_last();
        let last = seq![s.last()];
        assert(s =~= head + last);
        lemma_encoding_adds(head, last);
        lemma_encoding_of_one(s.last());
        let bytes = encode_utf8(s);
        let end = encode_utf8(last);
        assert(bytes.last() == end.last());
        assert(end.last() == end[end.len() - 1]);
        if s.last() == '\r' {
            assert(bytes.drop_last() =~= encode_utf8(head));
        }
    }
}

/// A text that is framed is its bytes and a line feed.
pub proof fn lemma_framed_bytes(line: Seq<char>)
    ensures
        encode_utf8(line.push('\n')) == encode_utf8(line).push(10),
{
    assert(line.push('\n') =~= line + seq!['\n']);
    lemma_encoding_adds(line, seq!['\n']);
    lemma_encoding_of_one('\n');
    assert(encode_utf8(line) + seq![10u8] =~= encode_utf8(line).push(10));
}

/// The lines of a file of text are those of the text.
pub proof fn lemma_lines_of_text(s: Seq<char>)
    ensures
        byte_lines(encode_utf8(s)) == scan::lines(s).map_values(
            |line: Seq<char>| encode_utf8(line),
        ),
    decreases s.len(),
{
    let bytes = encode_utf8(s);
    let encoded = |line: Seq<char>| encode_utf8(line);
    if s.len() == 0 {
        assert(scan::lines(s).map_values(encoded) =~= seq![]);
    } else {
        lemma_return_at_the_end(s);
        scan::lemma_position(s, '\n', 0);
        lemma_line_end(bytes, 0);
        let i = scan::position(s, '\n', 0);
        let head = s.take(i);
        assert(!head.contains('\n'));
        lemma_no_line_feed(head);
        let a = encode_utf8(head);
        let k = line_end(bytes, 0);
        if i < s.len() {
            let rest = s.skip(i + 1);
            assert(s =~= head.push('\n') + rest);
            lemma_encoding_adds(head.push('\n'), rest);
            lemma_framed_bytes(head);
            assert(bytes == a.push(10) + encode_utf8(rest));
            assert(bytes[a.len() as int] == 10);
            assert forall|j: int| 0 <= j < a.len() implies bytes[j] != 10 by {
                assert(bytes[j] == a[j]);
                assert(a.contains(a[j]));
            }
            assert(k == a.len());
            assert(bytes.take(k) =~= a);
            assert(bytes.skip(k + 1) =~= encode_utf8(rest));
            lemma_return_at_the_end(head);
            lemma_lines_of_text(rest);
            assert(scan::lines(s) =~= seq![scan::without_return(head)] + scan::lines(rest));
            assert(scan::lines(s).map_values(encoded) =~= seq![without_return(a)] + scan::lines(
                rest,
            ).map_values(encoded));
        } else {
            assert(head =~= s);
            assert(k == bytes.len()) by {
                if k < bytes.len() {
                    assert(a.contains(bytes[k]));
                }
            }
            assert(scan::lines(s) =~= seq![s]);
            assert(scan::lines(s).map_values(encoded) =~= seq![bytes]);
        }
    }
}

/// A line of text that has no line feed, and no carriage return at its end, is
/// bytes without either, which read as that text.
pub proof fn lemma_bytes_of_a_line(line: Seq<char>)
    requires
        !line.contains('\n'),
        line.len() > 0 ==> line.last() != '\r',
    ensures
        !encode_utf8(line).contains(10),
        encode_utf8(line).len() > 0 ==> encode_utf8(line).last() != 13,
        valid_utf8(encode_utf8(line)),
        decode_utf8(encode_utf8(line)) == line,
{
    lemma_no_line_feed(line);
    lemma_return_at_the_end(line);
    encode_utf8_valid_utf8(line);
    encode_utf8_decode_utf8(line);
}

} // verus!

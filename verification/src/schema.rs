//! What every chronicle entry shares: the version of its schema and the key
//! by which a consumer recognises it.

use crate::scan;
use crate::text;
use crate::text::append_decimal;
use vstd::prelude::*;
use vstd::utf8::*;

verus! {

/// Current wire and storage schema of chronicle entries.
pub const CHRONICLE_SCHEMA_VERSION: u16 = 1;

/// The name an entry's stream goes by where the device has none.
pub open spec fn device_component(device_id: Option<Seq<char>>) -> Seq<char> {
    match device_id {
        Some(id) => id,
        None => "anonymous"@,
    }
}

/// The deduplication key of an entry: device and boot, each after its length
/// in bytes, and the sequence number.
pub open spec fn event_key(device_id: Seq<char>, boot_id: Seq<char>, sequence: nat) -> Seq<char> {
    "radiochron:1:"@ + (text::decimal(encode_utf8(device_id).len()) + seq![':'] + (device_id + seq![
        ':',
    ] + (text::decimal(encode_utf8(boot_id).len()) + seq![':'] + (boot_id + seq![':']
        + text::decimal(sequence)))))
}

/// The deduplication key of an entry.
pub fn event_id(device_id: &str, boot_id: &str, sequence: u64) -> (r: String)
    ensures
        r@ == event_key(device_id@, boot_id@, sequence as nat),
{
    let mut out = "radiochron:1:".to_owned();
    append_decimal(&mut out, device_id.as_bytes().len() as u64);
    out.push(':');
    out.append(device_id);
    out.push(':');
    append_decimal(&mut out, boot_id.as_bytes().len() as u64);
    out.push(':');
    out.append(boot_id);
    out.push(':');
    append_decimal(&mut out, sequence);
    proof {
        assert(out@ =~= event_key(device_id@, boot_id@, sequence as nat));
    }
    out
}

// ---------------------------------------------------------------------------
// Keys are unambiguous
// ---------------------------------------------------------------------------

proof fn lemma_decimal_has_no_colon(n: nat)
    ensures
        !text::decimal(n).contains(':'),
{
    text::lemma_decimal_reads_back(n);
    assert forall|i: int| 0 <= i < text::decimal(n).len() implies text::decimal(n)[i] != ':' by {}
}

proof fn lemma_first_colon(a: Seq<char>, x: Seq<char>, b: Seq<char>, y: Seq<char>)
    requires
        !a.contains(':'),
        !b.contains(':'),
        a + seq![':'] + x == b + seq![':'] + y,
    ensures
        a == b,
        x == y,
{
    let s = a + seq![':'] + x;
    assert(s[a.len() as int] == ':');
    assert((b + seq![':'] + y)[b.len() as int] == ':');
    if a.len() < b.len() {
        assert((b + seq![':'] + y)[a.len() as int] == b[a.len() as int]);
        assert(b.contains(':'));
    } else if b.len() < a.len() {
        assert(s[b.len() as int] == a[b.len() as int]);
        assert(a.contains(':'));
    }
    assert(a =~= s.take(a.len() as int));
    assert(b =~= (b + seq![':'] + y).take(b.len() as int));
    assert(x =~= s.skip(a.len() as int + 1));
    assert(y =~= (b + seq![':'] + y).skip(b.len() as int + 1));
}

proof fn lemma_encoding_adds_up(a: Seq<char>, b: Seq<char>)
    ensures
        encode_utf8(a + b).len() == encode_utf8(a).len() + encode_utf8(b).len(),
        a.len() > 0 ==> encode_utf8(a).len() > 0,
    decreases a.len(),
{
    if a.len() == 0 {
        assert(a + b =~= b);
    } else {
        assert((a + b).drop_first() =~= a.drop_first() + b);
        assert((a + b)[0] == a[0]);
        lemma_encoding_adds_up(a.drop_first(), b);
        char_is_scalar(a[0]);
    }
}

/// Of two prefixes of one text, the one that encodes to as many bytes is the
/// same.
proof fn lemma_same_prefix(a: Seq<char>, x: Seq<char>, b: Seq<char>, y: Seq<char>)
    requires
        a + x == b + y,
        encode_utf8(a).len() == encode_utf8(b).len(),
    ensures
        a == b,
        x == y,
{
    let s = a + x;
    if a.len() < b.len() {
        let more = b.skip(a.len() as int);
        assert(a =~= s.take(a.len() as int));
        assert(b =~= (b + y).take(b.len() as int));
        assert(b =~= a + more);
        lemma_encoding_adds_up(a, more);
        lemma_encoding_adds_up(more, seq![]);
    } else if b.len() < a.len() {
        let more = a.skip(b.len() as int);
        assert(b =~= (b + y).take(b.len() as int));
        assert(a =~= s.take(a.len() as int));
        assert(a =~= b + more);
        lemma_encoding_adds_up(b, more);
        lemma_encoding_adds_up(more, seq![]);
    }
    assert(a =~= s.take(a.len() as int));
    assert(b =~= (b + y).take(b.len() as int));
    assert(x =~= s.skip(a.len() as int));
    assert(y =~= (b + y).skip(b.len() as int));
}

/// Keys are unambiguous, whatever characters identities contain: entries of
/// different streams, and different entries of one stream, have different keys.
pub proof fn lemma_event_keys_are_unambiguous(
    device1: Seq<char>,
    boot1: Seq<char>,
    sequence1: nat,
    device2: Seq<char>,
    boot2: Seq<char>,
    sequence2: nat,
)
    requires
        event_key(device1, boot1, sequence1) == event_key(device2, boot2, sequence2),
    ensures
        device1 == device2,
        boot1 == boot2,
        sequence1 == sequence2,
{
    let head = "radiochron:1:"@;
    let tail1 = boot1 + seq![':'] + text::decimal(sequence1);
    let tail2 = boot2 + seq![':'] + text::decimal(sequence2);
    let mid1 = text::decimal(encode_utf8(boot1).len()) + seq![':'] + tail1;
    let mid2 = text::decimal(encode_utf8(boot2).len()) + seq![':'] + tail2;
    let rest1 = device1 + seq![':'] + mid1;
    let rest2 = device2 + seq![':'] + mid2;
    let body1 = text::decimal(encode_utf8(device1).len()) + seq![':'] + rest1;
    let body2 = text::decimal(encode_utf8(device2).len()) + seq![':'] + rest2;
    assert(body1 =~= (head + body1).skip(head.len() as int));
    assert(body2 =~= (head + body2).skip(head.len() as int));
    lemma_decimal_has_no_colon(encode_utf8(device1).len());
    lemma_decimal_has_no_colon(encode_utf8(device2).len());
    lemma_first_colon(
        text::decimal(encode_utf8(device1).len()),
        rest1,
        text::decimal(encode_utf8(device2).len()),
        rest2,
    );
    text::lemma_decimal_reads_back(encode_utf8(device1).len());
    text::lemma_decimal_reads_back(encode_utf8(device2).len());
    assert(rest1 =~= device1 + (seq![':'] + mid1));
    assert(rest2 =~= device2 + (seq![':'] + mid2));
    lemma_same_prefix(device1, seq![':'] + mid1, device2, seq![':'] + mid2);
    assert(mid1 =~= (seq![':'] + mid1).skip(1));
    assert(mid2 =~= (seq![':'] + mid2).skip(1));
    lemma_decimal_has_no_colon(encode_utf8(boot1).len());
    lemma_decimal_has_no_colon(encode_utf8(boot2).len());
    lemma_first_colon(
        text::decimal(encode_utf8(boot1).len()),
        tail1,
        text::decimal(encode_utf8(boot2).len()),
        tail2,
    );
    text::lemma_decimal_reads_back(encode_utf8(boot1).len());
    text::lemma_decimal_reads_back(encode_utf8(boot2).len());
    let end1 = seq![':'] + text::decimal(sequence1);
    let end2 = seq![':'] + text::decimal(sequence2);
    assert(tail1 =~= boot1 + end1);
    assert(tail2 =~= boot2 + end2);
    lemma_same_prefix(boot1, end1, boot2, end2);
    assert(text::decimal(sequence1) =~= end1.skip(1));
    assert(text::decimal(sequence2) =~= end2.skip(1));
    text::lemma_decimal_reads_back(sequence1);
    text::lemma_decimal_reads_back(sequence2);
}

/// A key begins with the name and version of its form, ends in the number of its
/// entry, and holds the names of the device and of the boot.
pub proof fn lemma_keys_name_their_stream(device: Seq<char>, boot: Seq<char>, sequence: nat)
    ensures
        ({
            let key = event_key(device, boot, sequence);
            let number = seq![':'] + text::decimal(sequence);
            &&& scan::stands_at(key, "radiochron:1:"@, 0)
            &&& key.len() >= number.len()
            &&& key.skip(key.len() - number.len()) == number
            &&& scan::holds(key, seq![':'] + device + seq![':'])
            &&& scan::holds(key, seq![':'] + boot + seq![':'])
        }),
        device_component(Some(device)) == device,
        device_component(None) == "anonymous"@,
{
    let head = "radiochron:1:"@;
    let first = text::decimal(encode_utf8(device).len());
    let second = text::decimal(encode_utf8(boot).len());
    let key = event_key(device, boot, sequence);
    let number = seq![':'] + text::decimal(sequence);
    assert(key.subrange(0, head.len() as int) =~= head);
    assert(key.skip(key.len() - number.len()) =~= number);
    let at = (head.len() + first.len()) as int;
    let named = seq![':'] + device + seq![':'];
    assert(key.subrange(at, at + named.len()) =~= named);
    assert(scan::stands_at(key, named, at));
    let behind = at + 1 + device.len() + 1 + second.len();
    let booted = seq![':'] + boot + seq![':'];
    assert(key.subrange(behind, behind + booted.len()) =~= booted);
    assert(scan::stands_at(key, booted, behind));
}

} // verus!

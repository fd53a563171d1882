//! Nearby BSS entries and the 802.11 Information Elements of their beacons.

use crate::ordered;
use crate::ordered::{place, Place};
use crate::text;
use crate::text::{append_decimal, append_signed, copied, same_ignoring_case};
use crate::wlan;
use crate::wlan::sys::WlanBssEntry;
use crate::wlan::{colon_separated, mac_to_string, phy_type, ssid_to_string};
use vstd::prelude::*;

verus! {

broadcast use vstd::multiset::group_multiset_axioms;

// ---------------------------------------------------------------------------
// The elements of a beacon
// ---------------------------------------------------------------------------

/// One Information Element.
#[verifier::ext_equal]
pub struct Element {
    pub id: u8,
    pub value: Seq<u8>,
}

/// The elements of a blob of `[id][len][value…]` records. A record that the
/// blob cuts short ends the walk.
pub open spec fn elements(bytes: Seq<u8>) -> Seq<Element>
    decreases bytes.len(),
{
    if bytes.len() < 2 || 2 + bytes[1] > bytes.len() {
        seq![]
    } else {
        seq![Element { id: bytes[0], value: bytes.subrange(2, 2 + bytes[1]) }] + elements(
            bytes.skip(2 + bytes[1]),
        )
    }
}

/// Whether some element has the id `id`.
pub open spec fn has_element(elements: Seq<Element>, id: u8) -> bool {
    exists|i: int| 0 <= i < elements.len() && (#[trigger] elements[i]).id == id
}

/// Whether `element` extends the id space: its first value byte is an id too.
pub open spec fn is_extension(element: Element) -> bool {
    element.id == 255 && element.value.len() >= 1
}

/// Whether some element has the extension id `id`.
pub open spec fn has_extension(elements: Seq<Element>, id: u8) -> bool {
    exists|i: int|
        0 <= i < elements.len() && is_extension(#[trigger] elements[i]) && elements[i].value[0]
            == id
}

/// Whether `element` names its vendor: its first three value bytes are an OUI.
pub open spec fn is_vendor(element: Element) -> bool {
    element.id == 221 && element.value.len() >= 3
}

/// Whether `element` is the legacy WPA element: OUI `00:50:f2`, subtype 1.
pub open spec fn is_wpa(element: Element) -> bool {
    is_vendor(element) && element.value.len() >= 4 && element.value.take(4) == seq![
        0x00u8,
        0x50u8,
        0xf2u8,
        0x01u8,
    ]
}

/// Whether some element is the legacy WPA element.
pub open spec fn has_wpa_element(elements: Seq<Element>) -> bool {
    exists|i: int| 0 <= i < elements.len() && is_wpa(#[trigger] elements[i])
}

/// The name of an element id.
pub open spec fn element_name(id: u8) -> Seq<char> {
    if id == 0 {
        "SSID"@
    } else if id == 1 {
        "Supported rates"@
    } else if id == 3 {
        "DS parameter set"@
    } else if id == 5 {
        "TIM"@
    } else if id == 7 {
        "Country"@
    } else if id == 11 {
        "BSS load"@
    } else if id == 32 {
        "Power constraint"@
    } else if id == 45 {
        "HT capabilities"@
    } else if id == 48 {
        "RSN"@
    } else if id == 50 {
        "Extended supported rates"@
    } else if id == 61 {
        "HT operation"@
    } else if id == 70 {
        "RM enabled capabilities"@
    } else if id == 107 {
        "Interworking"@
    } else if id == 127 {
        "Extended capabilities"@
    } else if id == 191 {
        "VHT capabilities"@
    } else if id == 192 {
        "VHT operation"@
    } else if id == 195 {
        "Transmit power envelope"@
    } else if id == 201 {
        "Reduced neighbor report"@
    } else if id == 221 {
        "Vendor specific"@
    } else if id == 255 {
        "Extension"@
    } else {
        "IE "@ + text::decimal(id as nat)
    }
}

/// The name of an extension id.
pub open spec fn extension_name(id: u8) -> Seq<char> {
    "Extension "@ + text::decimal(id as nat)
}

/// Whether `list` has `value`, up to the case of ASCII letters.
pub open spec fn lists(list: Seq<Seq<char>>, value: Seq<char>) -> bool {
    exists|i: int|
        0 <= i < list.len() && text::lower_text(#[trigger] list[i]) == text::lower_text(value)
}

/// `list` with `value` at its end, unless it is there already.
pub open spec fn listed(list: Seq<Seq<char>>, value: Seq<char>) -> Seq<Seq<char>> {
    if lists(list, value) {
        list
    } else {
        list.push(value)
    }
}

/// The names of elements and extensions, each once, in order of appearance.
pub open spec fn names_seen(elements: Seq<Element>) -> Seq<Seq<char>>
    decreases elements.len(),
{
    if elements.len() == 0 {
        seq![]
    } else {
        let element = elements.last();
        let named = listed(names_seen(elements.drop_last()), element_name(element.id));
        if is_extension(element) {
            listed(named, extension_name(element.value[0]))
        } else {
            named
        }
    }
}

/// The OUIs of vendor elements, each once, in order of appearance.
pub open spec fn ouis_seen(elements: Seq<Element>) -> Seq<Seq<char>>
    decreases elements.len(),
{
    if elements.len() == 0 {
        seq![]
    } else {
        let element = elements.last();
        let earlier = ouis_seen(elements.drop_last());
        if is_vendor(element) {
            listed(earlier, wlan::colon_hex(element.value.take(3)))
        } else {
            earlier
        }
    }
}

/// The bytes of a list of elements.
pub open spec fn encoded(list: Seq<Element>) -> Seq<u8>
    decreases list.len(),
{
    if list.len() == 0 {
        seq![]
    } else {
        seq![list[0].id, list[0].value.len() as u8] + list[0].value + encoded(list.drop_first())
    }
}

/// Elements that fit the length byte are read back as they were written, and
/// what follows them is read as if it stood alone.
pub proof fn lemma_elements_read_back(list: Seq<Element>, rest: Seq<u8>)
    requires
        forall|i: int| 0 <= i < list.len() ==> (#[trigger] list[i]).value.len() <= 255,
    ensures
        elements(encoded(list) + rest) == list + elements(rest),
    decreases list.len(),
{
    if list.len() == 0 {
        assert(encoded(list) + rest =~= rest);
        assert(list + elements(rest) =~= elements(rest));
    } else {
        let tail = list.drop_first();
        assert forall|i: int| 0 <= i < tail.len() implies (#[trigger] tail[i]).value.len() <= 255 by {
            assert(tail[i] == list[i + 1]);
        }
        lemma_elements_read_back(tail, rest);
        let bytes = encoded(list) + rest;
        let len = list[0].value.len() as int;
        assert(bytes[0] == list[0].id && bytes[1] == len);
        assert(bytes.subrange(2, 2 + len) =~= list[0].value);
        assert(bytes.skip(2 + len) =~= encoded(tail) + rest);
        assert(elements(bytes) =~= list + elements(rest));
    }
}

// ---------------------------------------------------------------------------
// Sorted lists
// ---------------------------------------------------------------------------

/// Whether a list of bytes ascends, without repeats.
pub open spec fn bytes_ascend(list: Seq<u8>) -> bool {
    forall|i: int, j: int| 0 <= i < j < list.len() ==> list[i] < list[j]
}

/// Whether a list of texts is in lexicographic order.
pub open spec fn texts_sorted(list: Seq<Seq<char>>) -> bool {
    forall|i: int, j: int|
        0 <= i < j < list.len() ==> !#[trigger] ordered::text_less(list[j], list[i])
}

/// Whether `list` holds the texts of `seen`, in lexicographic order.
pub open spec fn sorted_form(list: Seq<Seq<char>>, seen: Seq<Seq<char>>) -> bool {
    texts_sorted(list) && list.to_multiset() == seen.to_multiset()
}

/// Put `value` into an ascending list, unless it is there already.
fn push_unique(target: &mut Vec<u8>, value: u8)
    requires
        bytes_ascend(old(target)@),
    ensures
        bytes_ascend(final(target)@),
        forall|x: u8|
            final(target)@.contains(x) <==> (old(target)@.contains(x) || x == value),
{
    let ghost before = target@;
    let mut i: usize = 0;
    while i < target.len()
        invariant
            target@ == before,
            bytes_ascend(before),
            i <= before.len(),
            forall|j: int| 0 <= j < i ==> before[j] < value,
        ensures
            target@ == before,
            i <= before.len(),
            forall|j: int| 0 <= j < i ==> before[j] < value,
            i == before.len() || before[i as int] >= value,
        decreases before.len() - i,
    {
        if target[i] >= value {
            break;
        }
        i = i + 1;
    }
    if i < target.len() && target[i] == value {
        proof {
            assert(before.contains(value));
        }
        return;
    }
    target.insert(i, value);
    proof {
        let after = target@;
        assert(after == before.insert(i as int, value));
        assert forall|x: u8| after.contains(x) <==> (before.contains(x) || x == value) by {
            if after.contains(x) {
                let k = choose|k: int| 0 <= k < after.len() && after[k] == x;
                if k < i {
                    assert(before[k] == x);
                } else if k > i {
                    assert(before[k - 1] == x);
                }
            }
            if before.contains(x) {
                let k = choose|k: int| 0 <= k < before.len() && before[k] == x;
                if k < i {
                    assert(after[k] == x);
                } else {
                    assert(after[k + 1] == x);
                }
            }
            if x == value {
                assert(after[i as int] == x);
            }
        }
    }
}

pub(crate) proof fn lemma_lists_by_multiset(a: Seq<Seq<char>>, b: Seq<Seq<char>>, value: Seq<char>)
    requires
        a.to_multiset() == b.to_multiset(),
    ensures
        lists(a, value) == lists(b, value),
{
    if lists(a, value) {
        lemma_lists_one_way(a, b, value);
    }
    if lists(b, value) {
        lemma_lists_one_way(b, a, value);
    }
}

proof fn lemma_lists_one_way(a: Seq<Seq<char>>, b: Seq<Seq<char>>, value: Seq<char>)
    requires
        a.to_multiset() == b.to_multiset(),
        lists(a, value),
    ensures
        lists(b, value),
{
    let i = choose|i: int|
        0 <= i < a.len() && text::lower_text(#[trigger] a[i]) == text::lower_text(value);
    vstd::seq_lib::to_multiset_contains(a, a[i]);
    vstd::seq_lib::to_multiset_contains(b, a[i]);
    assert(a.contains(a[i]));
    let j = choose|j: int| 0 <= j < b.len() && b[j] == a[i];
    assert(text::lower_text(b[j]) == text::lower_text(value));
}

/// Put `value` into a sorted list, unless it is there already up to the case
/// of its letters.
fn push_unique_string(target: &mut Vec<String>, value: String, Ghost(seen): Ghost<Seq<Seq<char>>>)
    requires
        sorted_form(text::texts(old(target)@), seen),
    ensures
        sorted_form(text::texts(final(target)@), listed(seen, value@)),
{
    let ghost before = text::texts(target@);
    proof {
        lemma_lists_by_multiset(before, seen, value@);
    }
    let mut i: usize = 0;
    while i < target.len()
        invariant
            text::texts(target@) == before,
            sorted_form(before, seen),
            lists(before, value@) == lists(seen, value@),
            i <= target@.len(),
            forall|j: int|
                0 <= j < i ==> text::lower_text(#[trigger] before[j]) != text::lower_text(value@),
        decreases target@.len() - i,
    {
        if same_ignoring_case(target[i].as_str(), value.as_str()) {
            proof {
                assert(before[i as int] == target@[i as int]@);
                assert(lists(before, value@));
            }
            return;
        }
        proof {
            assert(before[i as int] == target@[i as int]@);
        }
        i = i + 1;
    }
    assert(!lists(seen, value@));
    let mut p: usize = 0;
    while p < target.len()
        invariant
            text::texts(target@) == before,
            p <= target@.len(),
            forall|j: int| 0 <= j < p ==> !#[trigger] ordered::text_less(value@, before[j]),
        ensures
            text::texts(target@) == before,
            p <= target@.len(),
            forall|j: int| 0 <= j < p ==> !#[trigger] ordered::text_less(value@, before[j]),
            p == target@.len() || ordered::text_less(value@, before[p as int]),
        decreases target@.len() - p,
    {
        match place(value.as_str(), target[p].as_str()) {
            Place::Before => {
                break;
            },
            _ => {
                p = p + 1;
            },
        }
    }
    let ghost text = value@;
    target.insert(p, value);
    proof {
        assert(text::texts(target@) =~= before.insert(p as int, text));
        lemma_insert_sorted(before, text, p as int);
        vstd::seq_lib::to_multiset_insert(before, p as int, text);
        vstd::seq_lib::to_multiset_build(seen, text);
    }
}

proof fn lemma_insert_sorted(list: Seq<Seq<char>>, value: Seq<char>, p: int)
    requires
        texts_sorted(list),
        0 <= p <= list.len(),
        forall|j: int| 0 <= j < p ==> !#[trigger] ordered::text_less(value, list[j]),
        p == list.len() || ordered::text_less(value, list[p]),
    ensures
        texts_sorted(list.insert(p, value)),
{
    let longer = list.insert(p, value);
    assert forall|i: int, j: int| 0 <= i < j < longer.len() implies !#[trigger] ordered::text_less(
        longer[j],
        longer[i],
    ) by {
        if i != p && j != p {
            let i2 = if i < p {
                i
            } else {
                i - 1
            };
            let j2 = if j < p {
                j
            } else {
                j - 1
            };
            assert(longer[i] == list[i2] && longer[j] == list[j2]);
            assert(!ordered::text_less(list[j2], list[i2]));
        } else if j == p {
            assert(!ordered::text_less(value, list[i]));
        } else {
            let k = j - 1;
            assert(longer[j] == list[k]);
            if ordered::text_less(list[k], value) {
                ordered::lemma_less_transitive(list[k], value, list[p]);
                if k == p {
                    ordered::lemma_less_irreflexive(list[p]);
                } else {
                    assert(!ordered::text_less(list[k], list[p]));
                }
            }
        }
    }
}

// ---------------------------------------------------------------------------
// Parsing
// ---------------------------------------------------------------------------

/// Parsed summary of the 802.11 Information Elements carried in a beacon.
#[derive(Debug, PartialEq, Eq)]
pub struct InformationElements {
    pub byte_length: usize,
    pub element_count: usize,
    pub element_ids: Vec<u8>,
    pub names: Vec<String>,
    pub extension_ids: Vec<u8>,
    pub vendor_ouis: Vec<String>,
    pub has_rsn: bool,
    pub has_wpa: bool,
    pub has_bss_load: bool,
    pub has_country: bool,
    pub has_ht: bool,
    pub has_vht: bool,
    pub has_he: bool,
    pub has_eht: bool,
}

/// Whether `ie` sums up the elements of `bytes`: ids and extension ids once
/// each in ascending order, names and OUIs once each in lexicographic order,
/// and each flag from the ids that stand for it.
pub open spec fn summarises(ie: InformationElements, bytes: Seq<u8>) -> bool {
    let found = elements(bytes);
    &&& ie.byte_length == bytes.len()
    &&& ie.element_count == found.len()
    &&& bytes_ascend(ie.element_ids@)
    &&& forall|id: u8| #[trigger] ie.element_ids@.contains(id) <==> has_element(found, id)
    &&& bytes_ascend(ie.extension_ids@)
    &&& forall|id: u8| #[trigger] ie.extension_ids@.contains(id) <==> has_extension(found, id)
    &&& sorted_form(text::texts(ie.names@), names_seen(found))
    &&& sorted_form(text::texts(ie.vendor_ouis@), ouis_seen(found))
    &&& ie.has_rsn == has_element(found, 48)
    &&& ie.has_wpa == has_wpa_element(found)
    &&& ie.has_bss_load == has_element(found, 11)
    &&& ie.has_country == has_element(found, 7)
    &&& ie.has_ht == (has_element(found, 45) || has_element(found, 61))
    &&& ie.has_vht == (has_element(found, 191) || has_element(found, 192))
    &&& ie.has_he == (has_extension(found, 35) || has_extension(found, 36) || has_extension(
        found,
        37,
    ) || has_extension(found, 38))
    &&& ie.has_eht == (has_extension(found, 106) || has_extension(found, 107) || has_extension(
        found,
        108,
    ))
}

fn contains_byte(list: &Vec<u8>, value: u8) -> (r: bool)
    ensures
        r == list@.contains(value),
{
    let mut i: usize = 0;
    while i < list.len()
        invariant
            i <= list.len(),
            forall|j: int| 0 <= j < i ==> list@[j] != value,
        decreases list.len() - i,
    {
        if list[i] == value {
            return true;
        }
        i = i + 1;
    }
    false
}

fn ie_name(id: u8) -> (r: String)
    ensures
        r@ == element_name(id),
{
    let name = match id {
        0 => "SSID",
        1 => "Supported rates",
        3 => "DS parameter set",
        5 => "TIM",
        7 => "Country",
        11 => "BSS load",
        32 => "Power constraint",
        45 => "HT capabilities",
        48 => "RSN",
        50 => "Extended supported rates",
        61 => "HT operation",
        70 => "RM enabled capabilities",
        107 => "Interworking",
        127 => "Extended capabilities",
        191 => "VHT capabilities",
        192 => "VHT operation",
        195 => "Transmit power envelope",
        201 => "Reduced neighbor report",
        221 => "Vendor specific",
        255 => "Extension",
        other => {
            let mut out = "IE ".to_owned();
            append_decimal(&mut out, other as u64);
            return out;
        },
    };
    name.to_owned()
}

/// What the walk over a blob has gathered after the elements `found`.
spec fn gathered(
    found: Seq<Element>,
    ids: Seq<u8>,
    extension_ids: Seq<u8>,
    names: Seq<String>,
    ouis: Seq<String>,
    has_wpa: bool,
) -> bool {
    &&& bytes_ascend(ids)
    &&& forall|id: u8| #[trigger] ids.contains(id) <==> has_element(found, id)
    &&& bytes_ascend(extension_ids)
    &&& forall|id: u8| #[trigger] extension_ids.contains(id) <==> has_extension(found, id)
    &&& sorted_form(text::texts(names), names_seen(found))
    &&& sorted_form(text::texts(ouis), ouis_seen(found))
    &&& has_wpa == has_wpa_element(found)
}

proof fn lemma_one_more(found: Seq<Element>, element: Element)
    ensures
        forall|id: u8| #[trigger]
            has_element(found.push(element), id) <==> (has_element(found, id) || element.id == id),
        forall|id: u8| #[trigger]
            has_extension(found.push(element), id) <==> (has_extension(found, id) || is_extension(
                element,
            ) && element.value[0] == id),
        has_wpa_element(found.push(element)) == (has_wpa_element(found) || is_wpa(element)),
{
    let longer = found.push(element);
    assert(longer[found.len() as int] == element);
    assert forall|i: int| 0 <= i < found.len() implies longer[i] == #[trigger] found[i] by {}
    assert forall|id: u8| #[trigger]
        has_element(longer, id) <==> (has_element(found, id) || element.id == id) by {
        if has_element(found, id) {
            let i = choose|i: int| 0 <= i < found.len() && (#[trigger] found[i]).id == id;
            assert(longer[i].id == id);
        }
    }
    assert forall|id: u8| #[trigger]
        has_extension(longer, id) <==> (has_extension(found, id) || is_extension(element)
            && element.value[0] == id) by {
        if has_extension(found, id) {
            let i = choose|i: int|
                0 <= i < found.len() && is_extension(#[trigger] found[i]) && found[i].value[0]
                    == id;
            assert(is_extension(longer[i]) && longer[i].value[0] == id);
        }
    }
    if has_wpa_element(found) {
        let i = choose|i: int| 0 <= i < found.len() && is_wpa(#[trigger] found[i]);
        assert(is_wpa(longer[i]));
    }
}

/// Walk the IE blob as 802.11 TLVs: `[id][len][value…]`.
pub fn parse_information_elements(bytes: &[u8]) -> (r: InformationElements)
    ensures
        summarises(r, bytes@),
{
    let mut ids: Vec<u8> = Vec::new();
    let mut extension_ids: Vec<u8> = Vec::new();
    let mut names: Vec<String> = Vec::new();
    let mut vendor_ouis: Vec<String> = Vec::new();
    let mut has_wpa = false;
    let mut count: usize = 0;
    let mut offset: usize = 0;
    let ghost mut found: Seq<Element> = seq![];
    proof {
        assert(bytes@.skip(0) =~= bytes@);
        assert(found + elements(bytes@) =~= elements(bytes@));
        assert(text::texts(names@) =~= seq![]);
    }
    while bytes.len() - offset >= 2
        invariant
            offset <= bytes.len(),
            elements(bytes@) == found + elements(bytes@.skip(offset as int)),
            count == found.len(),
            count <= offset,
            gathered(found, ids@, extension_ids@, names@, vendor_ouis@, has_wpa),
        ensures
            offset <= bytes.len(),
            count == found.len(),
            found == elements(bytes@),
            gathered(found, ids@, extension_ids@, names@, vendor_ouis@, has_wpa),
        decreases bytes.len() - offset,
    {
        let id: u8 = bytes[offset];
        let len: usize = bytes[offset + 1] as usize;
        let value_start: usize = offset + 2;
        let ghost rest = bytes@.skip(offset as int);
        proof {
            assert(rest[0] == id && rest[1] == len);
        }
        // Truncated element: stop rather than read past the blob.
        if len > bytes.len() - value_start {
            proof {
                assert(elements(rest) =~= seq![]);
                assert(found + elements(rest) =~= found);
            }
            break;
        }
        let next: usize = value_start + len;
        let ghost element = Element { id, value: rest.subrange(2, 2 + len) };
        let ghost longer = found.push(element);
        proof {
            lemma_one_more(found, element);
            assert(longer.drop_last() =~= found);
            assert(rest.skip(2 + len) =~= bytes@.skip(next as int));
            assert(found + elements(rest) =~= longer + elements(bytes@.skip(next as int)));
            assert forall|k: int| 0 <= k < len implies element.value[k] == #[trigger] bytes@[
                value_start + k] by {}
        }

        push_unique(&mut ids, id);
        let ghost named = listed(names_seen(found), element_name(id));
        push_unique_string(&mut names, ie_name(id), Ghost(names_seen(found)));
        count = count + 1;

        // Vendor-specific: the first three value bytes are the OUI. A 00:50:F2
        // OUI with subtype 1 is the legacy WPA (pre-RSN) element.
        if id == 221 && len >= 3 {
            let oui = colon_separated(vstd::slice::slice_subrange(bytes, value_start, value_start + 3));
            proof {
                assert(bytes@.subrange(value_start as int, value_start + 3) =~= element.value.take(
                    3,
                ));
            }
            if len >= 4 && bytes[value_start] == 0x00 && bytes[value_start + 1] == 0x50
                && bytes[value_start + 2] == 0xf2 && bytes[value_start + 3] == 1 {
                has_wpa = true;
                proof {
                    assert(element.value.take(4) =~= seq![0x00u8, 0x50u8, 0xf2u8, 0x01u8]);
                }
            } else {
                proof {
                    if is_wpa(element) {
                        let head = element.value.take(4);
                        assert(head[0] == element.value[0] && head[1] == element.value[1] && head[2]
                            == element.value[2] && head[3] == element.value[3]);
                    }
                }
            }
            push_unique_string(&mut vendor_ouis, oui, Ghost(ouis_seen(found)));
        }
        if id == 255 && len >= 1 {
            let ext: u8 = bytes[value_start];
            push_unique(&mut extension_ids, ext);
            let mut name = "Extension ".to_owned();
            append_decimal(&mut name, ext as u64);
            push_unique_string(&mut names, name, Ghost(named));
        }
        proof {
            found = longer;
        }
        offset = next;
    }
    let has_he = contains_byte(&extension_ids, 35) || contains_byte(&extension_ids, 36)
        || contains_byte(&extension_ids, 37) || contains_byte(&extension_ids, 38);
    let has_eht = contains_byte(&extension_ids, 106) || contains_byte(&extension_ids, 107)
        || contains_byte(&extension_ids, 108);
    InformationElements {
        byte_length: bytes.len(),
        element_count: count,
        has_rsn: contains_byte(&ids, 48),
        has_wpa,
        has_bss_load: contains_byte(&ids, 11),
        has_country: contains_byte(&ids, 7),
        has_ht: contains_byte(&ids, 45) || contains_byte(&ids, 61),
        has_vht: contains_byte(&ids, 191) || contains_byte(&ids, 192),
        has_he,
        has_eht,
        element_ids: ids,
        names,
        extension_ids,
        vendor_ouis,
    }
}

// ---------------------------------------------------------------------------
// Entries
// ---------------------------------------------------------------------------

/// The protection an access point reports, where the driver normalises it.
#[derive(Debug, Clone, Copy, PartialEq, Eq, Structural)]
pub enum SecurityMode {
    Open,
    Wep,
    WpaPersonal,
    Wpa2Personal,
    WpaWpa2Personal,
    Wpa2Enterprise,
    Wpa3Personal,
    Wpa2Wpa3Personal,
    WapiPersonal,
    Unknown,
}

/// One BSS that a radio has heard.
#[derive(Debug)]
pub struct BssEntry {
    /// Which WLAN interface saw this BSS — machines with more than one radio
    /// report the same SSID from several of them.
    pub interface_guid: String,
    pub ssid: Option<String>,
    pub bssid: String,
    pub bss_type: String,
    pub phy_type: String,
    /// Real signal strength in dBm.
    pub rssi_dbm: i32,
    pub link_quality: u32,
    pub center_frequency_khz: u32,
    /// Derived: "2.4GHz", "5GHz", "6GHz" or "unknown".
    pub band: &'static str,
    /// Derived 802.11 channel number, where the frequency maps to one.
    pub channel: Option<u16>,
    pub beacon_period_tu: u16,
    pub in_reg_domain: bool,
    pub capability_information: u16,
    /// What a driver that normalises security said of it.
    pub reported_security: Option<SecurityMode>,
    pub timestamp: u64,
    pub host_timestamp: u64,
    /// Rates in units of 0.5 Mbps.
    pub rates_half_mbps: Vec<u16>,
    /// Whether the elements below are all that the beacon carried.
    pub ie_data_complete: bool,
    pub information_elements: InformationElements,
}

/// The band and channel of a center frequency.
///
/// 6 GHz uses its own numbering (channel 1 is centred at 5955 MHz), which is
/// why it cannot share the 5 GHz formula; below channel 1 it has none.
pub open spec fn band_of(center_khz: u32) -> (Seq<char>, Option<u16>) {
    let mhz = center_khz as int / 1000;
    if 2412 <= mhz <= 2472 {
        ("2.4GHz"@, Some(((mhz - 2407) / 5) as u16))
    } else if mhz == 2484 {
        ("2.4GHz"@, Some(14))
    } else if 5000 <= mhz <= 5895 {
        ("5GHz"@, Some(((mhz - 5000) / 5) as u16))
    } else if 5955 <= mhz <= 7125 {
        ("6GHz"@, Some(((mhz - 5950) / 5) as u16))
    } else if 5925 <= mhz < 5955 {
        ("6GHz"@, None)
    } else {
        ("unknown"@, None)
    }
}

/// Map a channel center frequency onto its band and 802.11 channel number.
pub fn band_and_channel(center_khz: u32) -> (r: (&'static str, Option<u16>))
    ensures
        (r.0@, r.1) == band_of(center_khz),
{
    let mhz: u32 = center_khz / 1000;
    if 2412 <= mhz && mhz <= 2472 {
        ("2.4GHz", Some(((mhz - 2407) / 5) as u16))
    } else if mhz == 2484 {
        ("2.4GHz", Some(14))
    } else if 5000 <= mhz && mhz <= 5895 {
        ("5GHz", Some(((mhz - 5000) / 5) as u16))
    } else if 5925 <= mhz && mhz <= 7125 {
        if mhz < 5955 {
            ("6GHz", None)
        } else {
            ("6GHz", Some(((mhz - 5950) / 5) as u16))
        }
    } else {
        ("unknown", None)
    }
}

/// The name of a BSS type.
pub open spec fn bss_type_name(value: i32) -> Seq<char> {
    if value == 1 {
        "infrastructure"@
    } else if value == 2 {
        "independent"@
    } else if value == 3 {
        "any"@
    } else {
        "unknown_"@ + text::signed_decimal(value as int)
    }
}

fn bss_type(value: i32) -> (r: String)
    ensures
        r@ == bss_type_name(value),
{
    let name = match value {
        1 => "infrastructure",
        2 => "independent",
        3 => "any",
        _ => {
            let mut out = "unknown_".to_owned();
            append_signed(&mut out, value as i64);
            return out;
        },
    };
    name.to_owned()
}

/// A raw rate without its "basic rate" flag, which is bit 15.
pub open spec fn rate_units(raw: u16) -> u16 {
    raw % 0x8000
}

/// The rates of a rate set, in units of 0.5 Mbps, without those that are zero.
pub open spec fn rates_of(rate_set: Seq<u16>) -> Seq<u16>
    decreases rate_set.len(),
{
    if rate_set.len() == 0 {
        seq![]
    } else {
        let earlier = rates_of(rate_set.drop_last());
        let rate = rate_units(rate_set.last());
        if rate > 0 {
            earlier.push(rate)
        } else {
            earlier
        }
    }
}

/// Rates are stored in 0.5 Mbps units; bit 15 is the "basic rate" flag. A
/// length beyond the set counts as the whole set.
pub fn decode_rates(rate_set: &[u16], len: u32) -> (r: Vec<u16>)
    ensures
        r@ == rates_of(
            rate_set@.take(
                if len < rate_set@.len() {
                    len as int
                } else {
                    rate_set@.len() as int
                },
            ),
        ),
{
    let len: usize = if (len as u64) < (rate_set.len() as u64) {
        len as usize
    } else {
        rate_set.len()
    };
    let mut out: Vec<u16> = Vec::new();
    let mut i: usize = 0;
    proof {
        assert(rates_of(rate_set@.take(0)) =~= seq![]);
    }
    while i < len
        invariant
            i <= len <= rate_set.len(),
            out@ == rates_of(rate_set@.take(i as int)),
        decreases len - i,
    {
        let raw: u16 = rate_set[i];
        let rate: u16 = raw & 0x7fff;
        proof {
            assert(raw & 0x7fff == raw % 0x8000) by (bit_vector);
            assert(rate_set@.take(i + 1).drop_last() =~= rate_set@.take(i as int));
        }
        if rate > 0 {
            out.push(rate);
        }
        i = i + 1;
    }
    out
}

/// Which bytes of its list's allocation hold an entry's Information Elements,
/// counted from the entry: none where offset or size is missing or the size is
/// beyond what a beacon can carry.
pub open spec fn ie_range(entry: WlanBssEntry) -> (int, int) {
    if entry.ie_offset > 0 && 0 < entry.ie_size <= 4096 {
        (entry.ie_offset as int, entry.ie_offset + entry.ie_size)
    } else {
        (0, 0)
    }
}

/// Read one entry of a BSS list. `allocation` is what follows the entry's start
/// in the list's allocation, the entry itself included.
pub fn read_entry(entry: &WlanBssEntry, allocation: &[u8], interface_guid: &str) -> (r: BssEntry)
    requires
        ie_range(*entry).1 <= allocation@.len(),
    ensures
        r.interface_guid@ == interface_guid@,
        text::opt_text(r.ssid) == (if wlan::ssid_bytes(entry.dot11_ssid).len() == 0 {
            None
        } else {
            Some(wlan::lossy_utf8(wlan::ssid_bytes(entry.dot11_ssid)))
        }),
        r.bssid@ == wlan::colon_hex(entry.dot11_bssid@),
        r.bss_type@ == bss_type_name(entry.dot11_bss_type),
        r.phy_type@ == wlan::phy_name(entry.dot11_bss_phy_type),
        r.rssi_dbm == entry.rssi,
        r.link_quality == entry.link_quality,
        r.center_frequency_khz == entry.ch_center_frequency,
        (r.band@, r.channel) == band_of(entry.ch_center_frequency),
        r.beacon_period_tu == entry.beacon_period,
        r.in_reg_domain == (entry.in_reg_domain != 0),
        r.capability_information == entry.capability_information,
        r.reported_security is None,
        r.timestamp == entry.timestamp,
        r.host_timestamp == entry.host_timestamp,
        r.rates_half_mbps@ == rates_of(
            entry.rate_set.rate_set@.take(
                if entry.rate_set.rate_set_length < 126 {
                    entry.rate_set.rate_set_length as int
                } else {
                    126
                },
            ),
        ),
        r.ie_data_complete,
        summarises(
            r.information_elements,
            allocation@.subrange(ie_range(*entry).0, ie_range(*entry).1),
        ),
{
    // Bound the IE blob defensively: a malformed beacon must not turn into a
    // read outside its allocation.
    let ie_bytes = if entry.ie_offset > 0 && entry.ie_size > 0 && entry.ie_size <= 4096 {
        let tail = vstd::slice::slice_subrange(
            allocation,
            entry.ie_offset as usize,
            allocation.len(),
        );
        let blob = vstd::slice::slice_subrange(tail, 0, entry.ie_size as usize);
        proof {
            assert(blob@ =~= allocation@.subrange(ie_range(*entry).0, ie_range(*entry).1));
        }
        blob
    } else {
        vstd::slice::slice_subrange(allocation, 0, 0)
    };
    let (band, channel) = band_and_channel(entry.ch_center_frequency);
    BssEntry {
        interface_guid: interface_guid.to_owned(),
        ssid: ssid_to_string(&entry.dot11_ssid),
        bssid: mac_to_string(&entry.dot11_bssid),
        bss_type: bss_type(entry.dot11_bss_type),
        phy_type: phy_type(entry.dot11_bss_phy_type),
        rssi_dbm: entry.rssi,
        link_quality: entry.link_quality,
        center_frequency_khz: entry.ch_center_frequency,
        band,
        channel,
        beacon_period_tu: entry.beacon_period,
        in_reg_domain: entry.in_reg_domain != 0,
        capability_information: entry.capability_information,
        reported_security: None,
        timestamp: entry.timestamp,
        host_timestamp: entry.host_timestamp,
        rates_half_mbps: decode_rates(
            entry.rate_set.rate_set.as_slice(),
            entry.rate_set.rate_set_length,
        ),
        ie_data_complete: true,
        information_elements: parse_information_elements(ie_bytes),
    }
}

// ---------------------------------------------------------------------------
// Summaries
// ---------------------------------------------------------------------------

/// Compact projection of [`BssEntry`]: the fields an operator reasons about.
///
/// A full entry is mostly the IE name list (which merely restates the ids), the
/// raw rate table and two timestamps.
#[derive(Debug)]
pub struct BssSummary {
    pub ssid: Option<String>,
    pub bssid: String,
    pub band: &'static str,
    pub channel: Option<u16>,
    pub rssi_dbm: i32,
    pub phy_type: String,
    /// "rsn", "wpa" (legacy, pre-RSN) or "open".
    pub security: &'static str,
    /// Compact capability list, e.g. "HT,VHT,HE".
    pub caps: String,
}

/// What a [`BssSummary`] says.
#[verifier::ext_equal]
pub struct SummaryModel {
    pub ssid: Option<Seq<char>>,
    pub bssid: Seq<char>,
    pub band: Seq<char>,
    pub channel: Option<u16>,
    pub rssi_dbm: i32,
    pub phy_type: Seq<char>,
    pub security: Seq<char>,
    pub caps: Seq<char>,
}

impl View for BssSummary {
    type V = SummaryModel;

    open spec fn view(&self) -> SummaryModel {
        SummaryModel {
            ssid: text::opt_text(self.ssid),
            bssid: self.bssid@,
            band: self.band@,
            channel: self.channel,
            rssi_dbm: self.rssi_dbm,
            phy_type: self.phy_type@,
            security: self.security@,
            caps: self.caps@,
        }
    }
}

/// `list` with `label` behind it, after a comma unless it is the first.
pub open spec fn with_label(list: Seq<char>, present: bool, label: Seq<char>) -> Seq<char> {
    if !present {
        list
    } else if list.len() == 0 {
        label
    } else {
        list + ","@ + label
    }
}

/// The capability labels that the flags stand for, separated by commas.
pub open spec fn capability_list(ht: bool, vht: bool, he: bool, eht: bool) -> Seq<char> {
    with_label(
        with_label(with_label(with_label(seq![], ht, "HT"@), vht, "VHT"@), he, "HE"@),
        eht,
        "EHT"@,
    )
}

/// The stronger protection that a beacon advertises.
pub open spec fn security_label(has_rsn: bool, has_wpa: bool) -> Seq<char> {
    if has_rsn {
        "rsn"@
    } else if has_wpa {
        "wpa"@
    } else {
        "open"@
    }
}

/// What remains of an entry in its summary.
pub open spec fn summary_of(entry: BssEntry) -> SummaryModel {
    let ie = entry.information_elements;
    SummaryModel {
        ssid: text::opt_text(entry.ssid),
        bssid: entry.bssid@,
        band: entry.band@,
        channel: entry.channel,
        rssi_dbm: entry.rssi_dbm,
        phy_type: entry.phy_type@,
        security: security_label(ie.has_rsn, ie.has_wpa),
        caps: capability_list(ie.has_ht, ie.has_vht, ie.has_he, ie.has_eht),
    }
}

fn add_label(list: &mut String, present: bool, label: &str)
    ensures
        final(list)@ == with_label(old(list)@, present, label@),
{
    if present {
        if list.as_str().unicode_len() > 0 {
            list.append(",");
        } else {
            proof {
                assert(list@ + label@ =~= label@);
            }
        }
        list.append(label);
    }
}

impl BssSummary {
    /// The summary of `entry`.
    pub fn of(entry: &BssEntry) -> (r: BssSummary)
        ensures
            r@ == summary_of(*entry),
    {
        let ie = &entry.information_elements;
        let mut caps = String::new();
        add_label(&mut caps, ie.has_ht, "HT");
        add_label(&mut caps, ie.has_vht, "VHT");
        add_label(&mut caps, ie.has_he, "HE");
        add_label(&mut caps, ie.has_eht, "EHT");
        BssSummary {
            ssid: copied(&entry.ssid),
            bssid: entry.bssid.clone(),
            band: entry.band,
            channel: entry.channel,
            rssi_dbm: entry.rssi_dbm,
            phy_type: entry.phy_type.clone(),
            security: if ie.has_rsn {
                "rsn"
            } else if ie.has_wpa {
                "wpa"
            } else {
                "open"
            },
            caps,
        }
    }
}

impl From<&BssEntry> for BssSummary {
    fn from(entry: &BssEntry) -> (r: Self)
        ensures
            r@ == summary_of(*entry),
    {
        BssSummary::of(entry)
    }
}

impl vstd::std_specs::convert::FromSpecImpl<&BssEntry> for BssSummary {
    open spec fn obeys_from_spec() -> bool {
        false
    }

    open spec fn from_spec(entry: &BssEntry) -> BssSummary {
        arbitrary()
    }
}

} // verus!

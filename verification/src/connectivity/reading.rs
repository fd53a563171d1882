//! Laws of what is read out of files, tables and responses.

use crate::connectivity::diagnose;
use crate::connectivity::ip;
use crate::connectivity::ip::{linux, macos, windows, LocalAddress};
use crate::connectivity::probe;
use crate::connectivity::probe::Attempt;
use crate::connectivity::{ConfigurationModel, IpAssignment, PacketQuality};
use crate::scan;
use crate::scan::Class;
use crate::text;
use crate::wlan::CurrentConnection;
use vstd::prelude::*;

verus! {

// ---------------------------------------------------------------------------
// Settings
// ---------------------------------------------------------------------------

/// A setting: its name, and its value in quotes, with white space around each.
pub open spec fn setting_line(
    gaps: (Seq<char>, Seq<char>, Seq<char>, Seq<char>),
    name: Seq<char>,
    quotes: Seq<char>,
    value: Seq<char>,
) -> Seq<char> {
    gaps.0 + name + gaps.1 + seq!['='] + (gaps.2 + (quotes + value + quotes) + gaps.3)
}

/// A line gives a name its value, bared of white space and quotes; it gives no
/// value to another name.
pub proof fn lemma_settings_are_bared(
    gaps: (Seq<char>, Seq<char>, Seq<char>, Seq<char>),
    name: Seq<char>,
    quotes: Seq<char>,
    value: Seq<char>,
    other: Seq<char>,
)
    requires
        scan::all_in(gaps.0, Class::Space),
        scan::all_in(gaps.1, Class::Space),
        scan::all_in(gaps.2, Class::Space),
        scan::all_in(gaps.3, Class::Space),
        scan::all_in(quotes, Class::Quote),
        name.len() > 0,
        !name.contains('='),
        !scan::is_space(name[0]),
        !scan::is_space(name.last()),
        value.len() > 0,
        value[0] != '"' && value.last() != '"',
        !scan::is_space(value[0]) && !scan::is_space(value.last()),
        other != name,
    ensures
        linux::setting_in(setting_line(gaps, name, quotes, value), name) == Some(value),
        linux::setting_in(setting_line(gaps, name, quotes, value), other) is None,
{
    let left = gaps.0 + name + gaps.1;
    let inner = quotes + value + quotes;
    let right = gaps.2 + inner + gaps.3;
    assert(setting_line(gaps, name, quotes, value) =~= left + seq!['='] + right);
    assert(!left.contains('=')) by {
        if left.contains('=') {
            let i = left.index_of('=');
            if i < gaps.0.len() {
                assert(gaps.0[i] == '=');
                assert(scan::in_class(gaps.0[i], Class::Space));
            } else if i < gaps.0.len() + name.len() {
                assert(name[i - gaps.0.len()] == '=');
                assert(name.contains(name[i - gaps.0.len()]));
            } else {
                assert(gaps.1[i - gaps.0.len() - name.len()] == '=');
                assert(scan::in_class(gaps.1[i - gaps.0.len() - name.len()], Class::Space));
            }
        }
    }
    scan::lemma_texts_are_cut_at_the_first(left, '=', right);
    scan::lemma_trimming_bares_the_text(gaps.0, name, gaps.1, Class::Space);
    if quotes.len() > 0 {
        assert(scan::in_class(quotes[0], Class::Quote));
        assert(scan::in_class(quotes[quotes.len() - 1], Class::Quote));
        assert(inner[0] == '"');
        assert(inner.last() == '"');
    } else {
        assert(inner =~= value);
    }
    scan::lemma_trimming_bares_the_text(gaps.2, inner, gaps.3, Class::Space);
    scan::lemma_trimming_bares_the_text(quotes, value, quotes, Class::Quote);
}

/// The first line that sets a name decides, whatever the later ones say.
pub proof fn lemma_the_first_setting_counts(
    line: Seq<char>,
    rest: Seq<char>,
    name: Seq<char>,
)
    requires
        !line.contains('\n'),
        line.len() == 0 || line.last() != '\r',
    ensures
        linux::setting_in(line, name) is Some ==> linux::setting(
            line + seq!['\n'] + rest,
            name,
        ) == linux::setting_in(line, name),
        linux::setting_in(line, name) is None ==> linux::setting(
            line + seq!['\n'] + rest,
            name,
        ) == linux::setting(rest, name),
        linux::setting(seq![], name) is None,
{
    let first: Seq<Seq<char>> = seq![line];
    let more = scan::lines(rest);
    scan::lemma_lines_end_at_line_feeds(line, rest);
    let all = first + more;
    assert(all[0] == line);
    lemma_settings_move_on(first, more, name, 1);
    let none: Seq<char> = seq![];
    assert(scan::lines(none).len() == 0);
}

proof fn lemma_settings_move_on(
    first: Seq<Seq<char>>,
    more: Seq<Seq<char>>,
    name: Seq<char>,
    i: int,
)
    requires
        first.len() == 1,
        1 <= i,
    ensures
        linux::setting_from(first + more, name, i) == linux::setting_from(more, name, i - 1),
    decreases more.len() + 1 - i,
{
    if i < (first + more).len() {
        assert((first + more)[i] == more[i - 1]);
        lemma_settings_move_on(first, more, name, i + 1);
    }
}

/// An address of a lease ends where its prefix length begins.
pub proof fn lemma_leases_give_their_address(
    lease: Seq<char>,
    address: Seq<char>,
    length: Seq<char>,
)
    requires
        !address.contains('/'),
    ensures
        linux::setting(lease, "ADDRESS"@) == Some(address + seq!['/'] + length)
            ==> linux::lease_address(lease) == Some(address),
        linux::setting(lease, "ADDRESS"@) == Some(address) ==> linux::lease_address(lease) == Some(
            address,
        ),
        linux::setting(lease, "ADDRESS"@) is None ==> linux::lease_address(lease) is None,
{
    let full = address + seq!['/'] + length;
    scan::lemma_texts_are_cut_at_the_first(address, '/', length);
    scan::lemma_position(full, '/', 0);
    scan::lemma_position(address, '/', 0);
    assert(address.take(address.len() as int) =~= address);
}

/// A profile proves a static address only where it switches DHCP off and has an
/// address.
pub proof fn lemma_static_profiles_switch_dhcp_off(profile: Seq<char>)
    ensures
        linux::setting(profile, "DHCP"@) is None ==> !linux::explicitly_static(profile),
        linux::setting(profile, "DHCP"@) == Some("yes"@) ==> !linux::explicitly_static(profile),
        linux::setting(profile, "DHCP"@) == Some("ipv4"@) ==> !linux::explicitly_static(profile),
        !scan::holds(profile, "Address="@) ==> !linux::explicitly_static(profile),
{
    reveal_strlit("yes");
    reveal_strlit("ipv4");
    reveal_strlit("no");
    reveal_strlit("false");
    reveal_strlit("0");
    let yes = text::lower_text("yes"@);
    let ipv4 = text::lower_text("ipv4"@);
    assert(yes.len() == 3 && ipv4.len() == 4);
    assert("no"@.len() == 2 && "false"@.len() == 5 && "0"@.len() == 1);
    let none: Seq<char> = seq![];
    assert(none.len() == 0);
    if linux::explicitly_static(profile) {
        let lines = scan::lines(profile);
        let i = choose|i: int|
            0 <= i < lines.len() && scan::stands_at(
                scan::trimmed(#[trigger] lines[i], Class::Space),
                "Address="@,
                0,
            );
        lemma_trimmed_text_stands_in_it(lines[i], Class::Space);
        lemma_lines_stand_in_the_text(profile, i);
        let at = lemma_lies_within(lines[i], scan::trimmed(lines[i], Class::Space), "Address="@);
        let there = lemma_lies_within(profile, lines[i], "Address="@);
    }
}

/// Whether `part` stands in `s`, and where.
pub open spec fn lies_at(s: Seq<char>, part: Seq<char>, i: int) -> bool {
    0 <= i && i + part.len() <= s.len() && s.subrange(i, i + part.len()) == part
}

proof fn lemma_lies_within(s: Seq<char>, part: Seq<char>, needle: Seq<char>) -> (i: int)
    requires
        exists|k: int| lies_at(s, part, k),
        scan::holds(part, needle),
    ensures
        scan::stands_at(s, needle, i),
{
    let k = choose|k: int| lies_at(s, part, k);
    let j = choose|j: int| scan::stands_at(part, needle, j);
    assert(s.subrange(k + j, k + j + needle.len()) =~= s.subrange(k, k + part.len()).subrange(
        j,
        j + needle.len(),
    ));
    assert(scan::stands_at(s, needle, k + j));
    k + j
}

proof fn lemma_trimmed_text_stands_in_it(s: Seq<char>, class: Class)
    ensures
        exists|k: int| lies_at(s, scan::trimmed(s, class), k),
{
    let front = scan::trim_front(s, class);
    lemma_front_is_a_suffix(s, class);
    lemma_back_is_a_prefix(front, class);
    let k = s.len() - front.len();
    let bare = scan::trimmed(s, class);
    assert(s.subrange(k, k + bare.len()) =~= bare);
    assert(lies_at(s, bare, k));
}

proof fn lemma_front_is_a_suffix(s: Seq<char>, class: Class)
    ensures
        scan::trim_front(s, class).len() <= s.len(),
        scan::trim_front(s, class) == s.skip(s.len() - scan::trim_front(s, class).len()),
    decreases s.len(),
{
    if s.len() > 0 && scan::in_class(s[0], class) {
        lemma_front_is_a_suffix(s.drop_first(), class);
        let n = scan::trim_front(s, class).len();
        assert(s.skip(s.len() - n) =~= s.drop_first().skip(s.drop_first().len() - n));
    } else {
        assert(s.skip(0) =~= s);
    }
}

proof fn lemma_back_is_a_prefix(s: Seq<char>, class: Class)
    ensures
        scan::trim_back(s, class).len() <= s.len(),
        scan::trim_back(s, class) == s.take(scan::trim_back(s, class).len() as int),
    decreases s.len(),
{
    if s.len() > 0 && scan::in_class(s.last(), class) {
        lemma_back_is_a_prefix(s.drop_last(), class);
        let n = scan::trim_back(s, class).len() as int;
        assert(s.take(n) =~= s.drop_last().take(n));
    } else {
        assert(s.take(s.len() as int) =~= s);
    }
}

proof fn lemma_lines_stand_in_the_text(s: Seq<char>, i: int)
    requires
        0 <= i < scan::lines(s).len(),
    ensures
        exists|k: int| lies_at(s, scan::lines(s)[i], k),
    decreases s.len(),
{
    let p = scan::position(s, '\n', 0);
    scan::lemma_position(s, '\n', 0);
    let line = scan::lines(s)[i];
    if p < s.len() {
        let rest = s.skip(p + 1);
        if i == 0 {
            assert(line == scan::without_return(s.take(p)));
            assert(s.subrange(0, line.len() as int) =~= line);
            assert(lies_at(s, line, 0));
        } else {
            assert(line == scan::lines(rest)[i - 1]);
            lemma_lines_stand_in_the_text(rest, i - 1);
            let k = choose|k: int| lies_at(rest, line, k);
            assert(s.subrange(p + 1 + k, p + 1 + k + line.len()) =~= rest.subrange(
                k,
                k + line.len(),
            ));
            assert(lies_at(s, line, p + 1 + k));
        }
    } else {
        assert(line == s);
        assert(s.subrange(0, s.len() as int) =~= s);
        assert(lies_at(s, line, 0));
    }
}

// ---------------------------------------------------------------------------
// Routes
// ---------------------------------------------------------------------------

/// A number that a routing table writes in hexadecimal is the address whose
/// octets are its bytes, the lowest first.
pub proof fn lemma_octets_come_lowest_first(a: u8, b: u8, c: u8, d: u8)
    ensures
        linux::dotted((a + 256 * b + 65_536 * c + 16_777_216 * d) as nat) == text::decimal(
            a as nat,
        ) + "."@ + text::decimal(b as nat) + "."@ + text::decimal(c as nat) + "."@ + text::decimal(
            d as nat,
        ),
{
    let top = d as int;
    let upper = c + 256 * top;
    let middle = b + 256 * upper;
    let raw = a + 256 * middle;
    assert(raw == a + 256 * b + 65_536 * c + 16_777_216 * d);
    lemma_lowest_byte(a as int, middle);
    lemma_lowest_byte(b as int, upper);
    lemma_lowest_byte(c as int, top);
    lemma_bytes_go_one_by_one(raw);
}

proof fn lemma_lowest_byte(low: int, rest: int)
    requires
        0 <= low < 256,
        0 <= rest,
    ensures
        (low + 256 * rest) % 256 == low,
        (low + 256 * rest) / 256 == rest,
{
    vstd::arithmetic::div_mod::lemma_fundamental_div_mod_converse(
        low + 256 * rest,
        256,
        rest,
        low,
    );
}

proof fn lemma_bytes_go_one_by_one(raw: int)
    requires
        0 <= raw,
    ensures
        raw / 65_536 == raw / 256 / 256,
        raw / 16_777_216 == raw / 256 / 256 / 256,
{
    vstd::arithmetic::div_mod::lemma_div_denominator(raw, 256, 256);
    vstd::arithmetic::div_mod::lemma_div_denominator(raw, 65_536, 256);
}

/// A line of the routing table gives a gateway only where it is the default
/// route of the interface, and that gateway.
pub proof fn lemma_default_routes_give_the_gateway(
    interface: Seq<char>,
    destination: Seq<char>,
    gateway: Seq<char>,
    rest: Seq<char>,
    other: Seq<char>,
)
    requires
        scan::is_word(interface),
        scan::is_word(destination),
        scan::is_word(gateway),
        scan::is_word(rest),
        other != interface,
    ensures
        ({
            let tab = seq!['\t'];
            let line = interface + (tab + destination + (tab + gateway + (tab + rest)));
            let raw = text::parse_unsigned(gateway, 16);
            &&& linux::gateway_in(line, other) is None
            &&& destination != "00000000"@ ==> linux::gateway_in(line, interface) is None
            &&& destination == "00000000"@ ==> match raw {
                Some(n) => if n <= u32::MAX {
                    linux::gateway_in(line, interface) == Some(linux::dotted(n))
                } else {
                    linux::gateway_in(line, interface) is None
                },
                None => linux::gateway_in(line, interface) is None,
            }
        }),
{
    let tab = seq!['\t'];
    let none: Seq<char> = seq![];
    let last = tab + rest;
    let third = tab + gateway + last;
    let second = tab + destination + third;
    let line = interface + second;
    assert(scan::all_in(tab, Class::Space));
    scan::lemma_words_stand_between_spaces(none, interface, second);
    assert(none + interface + second =~= line);
    scan::lemma_words_stand_between_spaces(tab, destination, third);
    scan::lemma_words_stand_between_spaces(tab, gateway, last);
    scan::lemma_words_stand_between_spaces(tab, rest, none);
    assert(tab + rest + none =~= last);
    assert(scan::words(none).len() == 0);
    let fields = scan::words(line);
    assert(fields =~= seq![interface, destination, gateway, rest]);
}

/// The heading of the routing table is no route, and the first line with a
/// gateway decides.
pub proof fn lemma_the_first_gateway_counts(
    table: String,
    interface: Seq<char>,
    i: int,
)
    requires
        1 <= i < scan::lines(table@).len(),
        linux::gateway_in(scan::lines(table@)[i], interface) is Some,
        forall|k: int|
            1 <= k < i ==> linux::gateway_in(#[trigger] scan::lines(table@)[k], interface) is None,
    ensures
        linux::gateway(Some(table), interface) == linux::gateway_in(
            scan::lines(table@)[i],
            interface,
        ),
{
    lemma_gateway_from(scan::lines(table@), interface, 1, i);
}

proof fn lemma_gateway_from(lines: Seq<Seq<char>>, interface: Seq<char>, from: int, i: int)
    requires
        0 <= from <= i < lines.len(),
        linux::gateway_in(lines[i], interface) is Some,
        forall|k: int| from <= k < i ==> linux::gateway_in(#[trigger] lines[k], interface) is None,
    ensures
        linux::gateway_from(lines, interface, from) == linux::gateway_in(lines[i], interface),
    decreases i - from,
{
    if from < i {
        lemma_gateway_from(lines, interface, from + 1, i);
    }
}

/// Without a table, or with one that gives none, there is no gateway.
pub proof fn lemma_gateways_are_not_guessed(table: String, interface: Seq<char>)
    requires
        forall|k: int|
            1 <= k < scan::lines(table@).len() ==> linux::gateway_in(
                #[trigger] scan::lines(table@)[k],
                interface,
            ) is None,
    ensures
        linux::gateway(Some(table), interface) is None,
        linux::gateway(None, interface) is None,
{
    lemma_no_gateway_from(scan::lines(table@), interface, 1);
}

proof fn lemma_no_gateway_from(lines: Seq<Seq<char>>, interface: Seq<char>, from: int)
    requires
        0 <= from,
        forall|k: int|
            from <= k < lines.len() ==> linux::gateway_in(#[trigger] lines[k], interface) is None,
    ensures
        linux::gateway_from(lines, interface, from) is None,
    decreases lines.len() - from,
{
    if from < lines.len() {
        lemma_no_gateway_from(lines, interface, from + 1);
    }
}

/// systemd files an interface by its index, which may be written behind a word.
pub proof fn lemma_interfaces_are_filed_by_index(index: Seq<char>)
    ensures
        linux::file_index("ifindex:"@ + index) == index,
        !scan::stands_at(index, "ifindex:"@, 0) ==> linux::file_index(index) == index,
{
    let prefix = "ifindex:"@;
    let full = prefix + index;
    assert(full.subrange(0, prefix.len() as int) =~= prefix);
    assert(full.skip(prefix.len() as int) =~= index);
}

// ---------------------------------------------------------------------------
// Services and fields
// ---------------------------------------------------------------------------

/// The id of a service is what stands in its key between the path and the
/// protocol.
pub proof fn lemma_services_are_named_by_their_key(id: Seq<char>)
    ensures
        macos::id_of("State:/Network/Service/"@ + id + "/IPv4"@) == id,
{
    let prefix = "State:/Network/Service/"@;
    let suffix = "/IPv4"@;
    let key = prefix + id + suffix;
    let rest = id + suffix;
    assert(key.subrange(0, prefix.len() as int) =~= prefix);
    assert(key.skip(prefix.len() as int) =~= rest);
    assert(rest.subrange(id.len() as int, rest.len() as int) =~= suffix);
    assert(rest.take(id.len() as int) =~= id);
}

/// A field ends at its first zero, whatever follows in it.
pub proof fn lemma_fields_end_at_their_zero(bytes: Seq<u8>, rest: Seq<u8>)
    requires
        !bytes.contains(0),
    ensures
        windows::before_zero(bytes + seq![0u8] + rest) == bytes,
        windows::before_zero(bytes) == bytes,
    decreases bytes.len(),
{
    let all = bytes + seq![0u8] + rest;
    if bytes.len() == 0 {
        assert(all[0] == 0);
    } else {
        let shorter = bytes.drop_first();
        assert(bytes.contains(bytes[0]));
        if shorter.contains(0) {
            let i = shorter.index_of(0);
            assert(bytes[i + 1] == 0);
            assert(bytes.contains(bytes[i + 1]));
        }
        lemma_fields_end_at_their_zero(shorter, rest);
        assert(all.drop_first() =~= shorter + seq![0u8] + rest);
        assert(all[0] == bytes[0]);
        assert(seq![bytes[0]] + shorter =~= bytes);
    }
}

// ---------------------------------------------------------------------------
// Responses and attempts
// ---------------------------------------------------------------------------

/// The status of a response is the number behind the version in its first line.
pub proof fn lemma_responses_say_their_status(
    version: Seq<char>,
    status: u16,
    reason: Seq<char>,
    rest: Seq<char>,
)
    requires
        scan::is_word(version),
        !version.contains('\n'),
        !reason.contains('\n'),
    ensures
        probe::http_status(
            version + seq![' '] + text::decimal(status as nat) + (seq![' '] + reason) + seq![
                '\r',
                '\n',
            ] + rest,
        ) == Some(status as nat),
{
    let space = seq![' '];
    let written = text::decimal(status as nat);
    let tail = space + reason;
    let line = version + space + written + tail;
    text::lemma_decimal_reads_back(status as nat);
    assert(!line.contains('\n')) by {
        if line.contains('\n') {
            let i = line.index_of('\n');
            let n = version.len() as int;
            if i < n {
                assert(version.contains(version[i]));
            } else if n < i <= n + written.len() {
                assert(line[i] == written[i - n - 1]);
            } else if i > n + 1 + written.len() {
                assert(line[i] == reason[i - n - 2 - written.len()]);
                assert(reason.contains(reason[i - n - 2 - written.len()]));
            }
        }
    }
    scan::lemma_lines_end_at_line_feeds(line, rest);
    let none: Seq<char> = seq![];
    assert(scan::all_in(space, Class::Space));
    assert(scan::is_word(written)) by {
        assert forall|i: int| 0 <= i < written.len() implies !scan::is_space(
            #[trigger] written[i],
        ) by {
            assert('0' <= written[i] <= '9');
        }
    }
    scan::lemma_words_stand_between_spaces(none, version, space + written + tail);
    assert(none + version + (space + written + tail) =~= line);
    scan::lemma_words_stand_between_spaces(space, written, tail);
    let words = scan::words(line);
    assert(words[0] == version);
    assert(words[1] == written);
    assert('0' <= written[0] <= '9');
}

/// An empty response, or one whose first line has no second word, says no
/// status.
pub proof fn lemma_malformed_responses_say_none(word: Seq<char>)
    requires
        scan::is_word(word),
        !word.contains('\n'),
    ensures
        probe::http_status(word) is None,
        probe::http_status(seq![]) is None,
{
    let none: Seq<char> = seq![];
    scan::lemma_words_stand_between_spaces(none, word, none);
    assert(none + word + none =~= word);
    scan::lemma_lines_end_at_line_feeds(word, none);
    assert(scan::lines(none).len() == 0);
    assert(scan::words(none).len() == 0);
}

/// Addresses are tried until one of them answers, and no longer.
pub proof fn lemma_addresses_are_tried_until_one_answers(attempts: Vec<Attempt>, more: bool)
    requires
        call_ensures(probe::keep_trying, (&attempts,), more),
    ensures
        attempts@.len() == 0 ==> more,
        attempts@.len() > 0 ==> (more <==> attempts@.last().error is Some),
{
}

/// A quality probe makes as many attempts as were asked for, at least one and at
/// most twenty, and counts one success for each latency.
pub proof fn lemma_quality_probes_are_bounded(
    asked: u8,
    attempts: u8,
    latencies: Vec<u64>,
    quality: PacketQuality,
)
    requires
        call_ensures(probe::quality_attempts, (asked,), attempts),
        call_ensures(probe::measured, (attempts, latencies), quality),
    ensures
        1 <= attempts <= 20,
        1 <= asked <= 20 ==> attempts == asked,
        asked > 20 ==> attempts == 20,
        quality.attempts == attempts,
        quality.successes == latencies@.len(),
        quality.latencies_ns@ == latencies@,
{
}

/// Assignments are told apart by their names in evidence.
pub proof fn lemma_assignments_are_told_apart(a: IpAssignment, b: IpAssignment)
    ensures
        diagnose::assignment_name(a) == diagnose::assignment_name(b) <==> a == b,
        diagnose::assignment_name(a) == "Dhcp"@ <==> a == IpAssignment::Dhcp,
        diagnose::assignment_name(a) == "Static"@ <==> a == IpAssignment::Static,
        diagnose::assignment_name(a) == "LinkLocal"@ <==> a == IpAssignment::LinkLocal,
        diagnose::assignment_name(a) == "Unknown"@ <==> a == IpAssignment::Unknown,
{
    reveal_strlit("Dhcp");
    reveal_strlit("Static");
    reveal_strlit("LinkLocal");
    reveal_strlit("Unknown");
    assert("Dhcp"@.len() == 4);
    assert("Static"@.len() == 6);
    assert("LinkLocal"@.len() == 9);
    assert("Unknown"@.len() == 7);
}

/// A service got its address from a server where the store has what the server
/// said, or where it is set up to ask one; only one that is set up by hand is
/// static.
pub proof fn lemma_services_say_where_the_address_is_from(method: Option<Seq<char>>, info: bool)
    ensures
        info ==> macos::service_assignment(info, method) == IpAssignment::Dhcp,
        method == Some("DHCP"@) || method == Some("BOOTP"@) || method == Some("INFORM"@)
            ==> macos::service_assignment(info, method) == IpAssignment::Dhcp,
        macos::service_assignment(info, method) == IpAssignment::Static <==> !info && method == Some(
            "Manual"@,
        ),
        method is None && !info ==> macos::service_assignment(info, method)
            == IpAssignment::Unknown,
{
    reveal_strlit("DHCP");
    reveal_strlit("BOOTP");
    reveal_strlit("INFORM");
    reveal_strlit("Manual");
    assert("DHCP"@.len() == 4);
    assert("BOOTP"@.len() == 5);
    assert("INFORM"@.len() == 6 && "INFORM"@[0] == 'I');
    assert("Manual"@.len() == 6 && "Manual"@[0] == 'M');
}

/// On Linux the gateway is the one that the lease names, and otherwise that of
/// the routing table; the address of a lease is among those of the interface,
/// and a profile that is static counts where there is no lease.
pub proof fn lemma_linux_tells_the_gateway(
    interface_id: Seq<char>,
    interface: Seq<char>,
    selected: Option<LocalAddress>,
    files: linux::LinuxFiles,
)
    ensures
        ({
            let found = linux::configuration(interface_id, interface, selected, files);
            let known = linux::gateway(files.routes, interface);
            let lease = files.lease->0@;
            &&& files.lease is None ==> found.gateway == known
            &&& files.lease is Some && linux::setting(lease, "ROUTER"@) is None ==> found.gateway
                == known
            &&& files.lease is Some && linux::setting(lease, "ROUTER"@) is Some ==> found.gateway
                == linux::setting(lease, "ROUTER"@)
            &&& files.lease is Some && linux::lease_address(lease) is Some
                ==> found.addresses.contains(linux::lease_address(lease)->0)
            &&& files.lease is None && !linux::lease_matches(
                files.other_leases@,
                interface,
                selected,
            ) && files.profile is Some ==> (found.assignment == IpAssignment::Static
                <==> linux::explicitly_static(files.profile->0.contents@))
        }),
{
    let found = linux::configuration(interface_id, interface, selected, files);
    if files.lease is Some {
        let lease = files.lease->0@;
        if let Some(address) = linux::lease_address(lease) {
            let known = ip::selected_text(selected);
            if !known.contains(address) {
                assert(found.addresses[known.len() as int] == address);
            }
        }
    }
}

/// The gateway of an adapter is the first of its list that is an address.
pub proof fn lemma_the_first_listed_gateway_counts(
    adapter: windows::Adapter,
    selected: Option<LocalAddress>,
    i: int,
)
    ensures
        ({
            let listed = text::texts(adapter.gateways@);
            let found = windows::adapter_configuration(adapter, selected).gateway;
            &&& (0 <= i < listed.len() && windows::is_address(listed[i]) && forall|k: int|
                0 <= k < i ==> !windows::is_address(#[trigger] listed[k])) ==> found == Some(
                listed[i],
            )
            &&& (forall|k: int| 0 <= k < listed.len() ==> !windows::is_address(
                #[trigger] listed[k],
            )) ==> found is None
        }),
{
    let listed = text::texts(adapter.gateways@);
    lemma_first_address(listed, i);
}

proof fn lemma_first_address(list: Seq<Seq<char>>, i: int)
    ensures
        (0 <= i < list.len() && windows::is_address(list[i]) && forall|k: int|
            0 <= k < i ==> !windows::is_address(#[trigger] list[k])) ==> {
            &&& windows::addresses_in(list).len() > 0
            &&& windows::addresses_in(list)[0] == list[i]
        },
        (forall|k: int| 0 <= k < list.len() ==> !windows::is_address(#[trigger] list[k]))
            ==> windows::addresses_in(list).len() == 0,
    decreases list.len(),
{
    if list.len() > 0 {
        let shorter = list.drop_last();
        lemma_first_address(shorter, i);
        let last = list.len() - 1;
        assert(list[last] == list.last());
        assert forall|k: int| 0 <= k < last implies #[trigger] shorter[k] == list[k] by {}
        if i == last && (forall|k: int| 0 <= k < i ==> !windows::is_address(#[trigger] list[k])) {
            assert forall|k: int| 0 <= k < shorter.len() implies !windows::is_address(
                #[trigger] shorter[k],
            ) by {
                assert(shorter[k] == list[k]);
            }
        }
        if 0 <= i < last && (forall|k: int|
            0 <= k < i ==> !windows::is_address(#[trigger] list[k])) {
            assert forall|k: int| 0 <= k < i implies !windows::is_address(
                #[trigger] shorter[k],
            ) by {
                assert(shorter[k] == list[k]);
            }
        }
    }
}

// ---------------------------------------------------------------------------
// Evidence
// ---------------------------------------------------------------------------

proof fn lemma_part_is_held(before: Seq<char>, part: Seq<char>, after: Seq<char>)
    ensures
        scan::holds(before + part + after, part),
        scan::holds(before + part, part),
{
    let n = before.len() as int;
    assert((before + part + after).subrange(n, n + part.len()) =~= part);
    assert((before + part).subrange(n, n + part.len()) =~= part);
    assert(scan::stands_at(before + part + after, part, n));
    assert(scan::stands_at(before + part, part, n));
}

/// The evidence of a lookup names what was looked up, and why it failed where it
/// did.
pub proof fn lemma_lookups_name_what_was_asked(
    name: Seq<char>,
    found: Result<bool, String>,
    latency_ms: u64,
)
    ensures
        ({
            let stage = probe::lookup_model(name, found, latency_ms);
            &&& scan::holds(stage.evidence, name)
            &&& found matches Err(error) ==> scan::holds(stage.evidence, error@)
            &&& stage.latency_ms == Some(latency_ms)
        }),
{
    let none: Seq<char> = seq![];
    match found {
        Ok(true) => {
            lemma_part_is_held("resolved "@, name, none);
        },
        Ok(false) => {
            lemma_part_is_held("resolver returned no address for "@, name, none);
        },
        Err(error) => {
            let lead = "DNS lookup failed for "@;
            let rest = ": "@ + error@;
            lemma_part_is_held(lead, name, rest);
            assert(lead + name + ": "@ + error@ =~= lead + name + rest);
            lemma_part_is_held(lead + name + ": "@, error@, none);
        },
    }
}

/// The evidence of an attempt to connect names the target, and the address that
/// answered or why the last one did not.
pub proof fn lemma_connections_name_the_target(
    target: Seq<char>,
    attempts: Result<Vec<Attempt>, String>,
    latency_ms: u64,
)
    ensures
        ({
            let stage = probe::connect_model(target, attempts, latency_ms);
            &&& attempts matches Ok(list) ==> {
                &&& scan::holds(stage.evidence, target)
                &&& list@.len() > 0 && list@.last().error is None ==> scan::holds(
                    stage.evidence,
                    list@.last().address@,
                )
                &&& list@.len() > 0 && list@.last().error is Some ==> scan::holds(
                    stage.evidence,
                    (list@.last().error->0)@,
                )
            }
            &&& attempts matches Err(error) ==> stage.evidence == error@
            &&& stage.latency_ms == Some(latency_ms)
        }),
{
    let none: Seq<char> = seq![];
    if let Ok(list) = attempts {
        if list@.len() == 0 {
            let lead = "could not connect to "@;
            let rest = ": "@ + "no address"@;
            lemma_part_is_held(lead, target, rest);
            assert(lead + target + ": "@ + "no address"@ =~= lead + target + rest);
        } else {
            match list@.last().error {
                None => {
                    let lead = "connected to "@;
                    let address = list@.last().address@;
                    let rest = " via "@ + address;
                    lemma_part_is_held(lead, target, rest);
                    assert(lead + target + " via "@ + address =~= lead + target + rest);
                    lemma_part_is_held(lead + target + " via "@, address, none);
                },
                Some(error) => {
                    let lead = "could not connect to "@;
                    let rest = ": "@ + error@;
                    lemma_part_is_held(lead, target, rest);
                    assert(lead + target + ": "@ + error@ =~= lead + target + rest);
                    lemma_part_is_held(lead + target + ": "@, error@, none);
                },
            }
        }
    }
}

/// The evidence of a route names the local address, or why there is none.
pub proof fn lemma_routes_name_the_address(outcome: probe::RouteOutcome)
    ensures
        outcome matches probe::RouteOutcome::Local(local) ==> scan::holds(
            probe::route_model(outcome).evidence,
            local.text@,
        ),
        outcome matches probe::RouteOutcome::Failed(error) ==> scan::holds(
            probe::route_model(outcome).evidence,
            error@,
        ),
        probe::route_model(outcome).latency_ms is None,
{
    let none: Seq<char> = seq![];
    match outcome {
        probe::RouteOutcome::Unresolved => {},
        probe::RouteOutcome::Local(local) => {
            lemma_part_is_held(
                "usable local address "@,
                local.text@,
                " (assignment source unavailable)"@,
            );
            lemma_part_is_held("route selected unusable local address "@, local.text@, none);
        },
        probe::RouteOutcome::Failed(error) => {
            lemma_part_is_held("no usable IP route: "@, error@, none);
        },
    }
}

/// What is said of a portal that could not be asked names the reason.
pub proof fn lemma_portal_failures_name_the_reason(error: String)
    ensures
        scan::holds(
            probe::portal_failure_text(probe::PortalFailure::Unresolved(error)),
            error@,
        ),
        scan::holds(
            probe::portal_failure_text(probe::PortalFailure::Unreachable(error)),
            error@,
        ),
        scan::holds(probe::portal_failure_text(probe::PortalFailure::Request(error)), error@),
        scan::holds(probe::portal_failure_text(probe::PortalFailure::Response(error)), error@),
        probe::portal_failure_text(probe::PortalFailure::NoAddress)
            == "portal host has no address"@,
{
    let none: Seq<char> = seq![];
    lemma_part_is_held(none, error@, none);
    assert(none + error@ =~= error@);
    lemma_part_is_held("portal endpoint is unreachable: "@, error@, none);
    lemma_part_is_held("portal request failed: "@, error@, none);
    lemma_part_is_held("portal response failed: "@, error@, none);
}

/// What is said of a portal's answer gives the status, and the expected one
/// where it is neither that nor a redirect.
pub proof fn lemma_portal_verdicts_give_the_status(status: u16, expected: u16)
    ensures
        scan::holds(
            probe::portal_verdict(Some(status), expected).1,
            text::decimal(status as nat),
        ),
        status != expected && !(300 <= status <= 399) ==> scan::holds(
            probe::portal_verdict(Some(status), expected).1,
            text::decimal(expected as nat),
        ),
{
    let none: Seq<char> = seq![];
    let actual = text::decimal(status as nat);
    let wanted = text::decimal(expected as nat);
    lemma_part_is_held("portal sentinel returned expected HTTP "@, actual, none);
    lemma_part_is_held("captive portal suspected: sentinel redirected with HTTP "@, actual, none);
    let lead = "captive portal or interception suspected: expected HTTP "@;
    lemma_part_is_held(lead, wanted, ", got "@ + actual);
    lemma_part_is_held(lead + wanted + ", got "@, actual, none);
    assert(lead + wanted + (", got "@ + actual) =~= lead + wanted + ", got "@ + actual);
}

/// The evidence of an association names the network, that of the radio says how
/// many interfaces there are, and that of the gateway names it.
pub proof fn lemma_stages_name_what_they_found(
    connection: CurrentConnection,
    interfaces: nat,
    plan: diagnose::PlanModel,
    known: ConfigurationModel,
)
    ensures
        connection.ssid matches Some(ssid) ==> scan::holds(
            diagnose::authentication_for(Some(connection), interfaces).evidence,
            ssid@,
        ),
        connection.ssid is None ==> scan::holds(
            diagnose::authentication_for(Some(connection), interfaces).evidence,
            "hidden SSID"@,
        ),
        interfaces > 0 ==> scan::holds(
            diagnose::radio_for(interfaces).evidence,
            text::decimal(interfaces),
        ),
        plan.associated is Some && known.gateway is Some ==> scan::holds(
            diagnose::gateway_stage(plan, Some(known)).evidence,
            known.gateway->0,
        ),
{
    let none: Seq<char> = seq![];
    if let Some(ssid) = connection.ssid {
        lemma_part_is_held("associated with "@, ssid@, none);
    }
    lemma_part_is_held("associated with "@, "hidden SSID"@, none);
    let count = text::decimal(interfaces);
    lemma_part_is_held(none, count, " Wi-Fi interface(s) reported"@);
    assert(none + count + " Wi-Fi interface(s) reported"@ =~= count
        + " Wi-Fi interface(s) reported"@);
    if let Some(address) = known.gateway {
        lemma_part_is_held("default gateway is "@, address, none);
    }
}

/// The lease and the state of an interface lie under its index, and the key of a
/// service's setup is that of its state with another root.
pub proof fn lemma_paths_name_the_interface(
    index: &str,
    lease: String,
    link: String,
    id: &str,
    key: String,
)
    requires
        call_ensures(linux::lease_path, (index,), lease),
        call_ensures(linux::link_path, (index,), link),
        call_ensures(macos::setup_key, (id,), key),
        !scan::stands_at(index@, "ifindex:"@, 0),
    ensures
        lease@ == "/run/systemd/netif/leases/"@ + index@,
        link@ == "/run/systemd/netif/links/"@ + index@,
        key@ == "Setup:/Network/Service/"@ + id@ + "/IPv4"@,
{
    lemma_interfaces_are_filed_by_index(index@);
}

/// What a quality probe says begins with how many attempts succeeded out of how
/// many, and ends with the share that was lost.
pub proof fn lemma_quality_texts_give_the_counts(attempts: int, successes: int)
    requires
        0 <= successes <= attempts,
        attempts > 0,
    ensures
        ({
            let said = probe::quality_text(attempts, successes);
            let lead = text::decimal(successes as nat) + " of "@ + text::decimal(attempts as nat)
                + " TCP probes succeeded"@;
            let tenths = probe::loss_tenths(attempts, successes);
            let tail = " ("@ + text::decimal((tenths / 10) as nat) + "."@ + text::decimal(
                (tenths % 10) as nat,
            ) + "% loss)"@;
            said == lead + tail
        }),
{
    reveal_strlit(" TCP probes succeeded (");
    reveal_strlit(" TCP probes succeeded");
    reveal_strlit(" (");
    assert(" TCP probes succeeded ("@ =~= " TCP probes succeeded"@ + " ("@);
    let said = probe::quality_text(attempts, successes);
    let lead = text::decimal(successes as nat) + " of "@ + text::decimal(attempts as nat)
        + " TCP probes succeeded"@;
    let tenths = probe::loss_tenths(attempts, successes);
    let tail = " ("@ + text::decimal((tenths / 10) as nat) + "."@ + text::decimal(
        (tenths % 10) as nat,
    ) + "% loss)"@;
    assert(said =~= lead + tail);
}

/// The evidence of an adapter gives its flag, that of a service its id and its
/// method, and that of the radio the failure of its collector.
pub proof fn lemma_evidence_gives_its_source(
    adapter: windows::Adapter,
    service: macos::ServiceState,
    selected: Option<LocalAddress>,
    epoch: i64,
    message: Seq<char>,
)
    ensures
        scan::holds(
            windows::adapter_configuration(adapter, selected).evidence,
            text::decimal(adapter.dhcp_enabled as nat),
        ),
        scan::holds(
            macos::service_configuration(service, selected).evidence,
            macos::id_of(service.key@),
        ),
        service.method matches Some(method) ==> scan::holds(
            macos::service_configuration(service, selected).evidence,
            method@,
        ),
        scan::holds(probe::unavailable(epoch, message).radio.evidence, message),
        probe::unavailable(epoch, message).observed_at_epoch_seconds == epoch,
{
    let none: Seq<char> = seq![];
    lemma_part_is_held(
        "Windows IP Helper reports DhcpEnabled="@,
        text::decimal(adapter.dhcp_enabled as nat),
        none,
    );
    lemma_part_is_held("radio collector failed: "@, message, none);
    let id = macos::id_of(service.key@);
    let lead = "SystemConfiguration service "@;
    let method = match text::opt_text(service.method) {
        Some(name) => name,
        None => "unknown"@,
    };
    let rest = ", ConfigMethod="@ + method;
    lemma_part_is_held(lead, id, rest);
    assert(lead + id + ", ConfigMethod="@ + method =~= lead + id + rest);
    lemma_part_is_held(lead + id + ", ConfigMethod="@, method, none);
}

/// The evidence of a lease gives its path, and that of a static profile the
/// profile's.
pub proof fn lemma_files_are_given_as_evidence(
    interface_id: Seq<char>,
    interface: Seq<char>,
    selected: Option<LocalAddress>,
    files: linux::LinuxFiles,
)
    ensures
        ({
            let found = linux::configuration(interface_id, interface, selected, files);
            &&& files.lease is Some ==> scan::holds(
                found.evidence,
                "/run/systemd/netif/leases/"@ + linux::file_index(interface_id),
            )
            &&& found.assignment == IpAssignment::Static ==> scan::holds(
                found.evidence,
                files.profile->0.path@,
            )
        }),
{
    let none: Seq<char> = seq![];
    lemma_part_is_held(
        "active systemd-networkd lease "@,
        "/run/systemd/netif/leases/"@ + linux::file_index(interface_id),
        none,
    );
    if files.profile is Some {
        lemma_part_is_held(
            "active systemd-networkd profile "@,
            files.profile->0.path@,
            " explicitly disables DHCP and defines Address"@,
        );
    }
}

} // verus!

//! Turn a history of WLAN events into a verdict.
//!
//! The hard part is not to find disconnects but to leave out the normal ones. A
//! security teardown is by far the most frequent event and mostly benign: a
//! roam within a network, a rekey and a resume from sleep all cause it. What
//! tells them apart is the session: a roam keeps it, a reconnect gets a new
//! one.
//!
//! The numeric reasons are observations, not published constants, so an unknown
//! one is reported as it is, and a missing field weakens a rule and fails none.

use crate::counting;
use crate::events;
use crate::events::{EventModel, WlanEvent};
use crate::json;
use crate::json::Json;
use crate::ordered;
use crate::ordered::{place, Place};
use crate::sorting;
use crate::text;
use crate::text::{append_decimal, same_opt, same_text};
use serde_json::Value;
use vstd::prelude::*;

verus! {

/// How far back the rule on reconnects looks, in seconds.
pub const LOOP_WINDOW_S: i64 = 120;

/// How close together failures have to be to blame one access point.
pub const BAD_AP_WINDOW_S: i64 = 300;

/// The user asked for the disconnect.
pub const DISCONNECT_USER_REQUESTED: u64 = 3;

/// A policy asked for the disconnect.
pub const DISCONNECT_POLICY: u64 = 5;

/// A teardown's hint that the key looks wrong.
pub const HINT_PSK_MISMATCH: u64 = 294_932;

/// What a history says.
#[derive(Debug)]
pub struct Verdict {
    pub events_considered: usize,
    pub window_seconds: i64,
    pub findings: Vec<HistoryFinding>,
}

/// One thing that a history says.
#[derive(Debug)]
pub struct HistoryFinding {
    pub id: &'static str,
    pub severity: &'static str,
    pub title: String,
    pub detail: Value,
    pub caveat: &'static str,
}

/// What a [`HistoryFinding`] says.
#[verifier::ext_equal]
pub struct FindingModel {
    pub id: Seq<char>,
    pub severity: Seq<char>,
    pub title: Seq<char>,
    pub detail: Json,
    pub caveat: Seq<char>,
}

/// What a [`Verdict`] says.
#[verifier::ext_equal]
pub struct VerdictModel {
    pub events_considered: nat,
    pub window_seconds: int,
    pub findings: Seq<FindingModel>,
}

impl View for HistoryFinding {
    type V = FindingModel;

    open spec fn view(&self) -> FindingModel {
        FindingModel {
            id: self.id@,
            severity: self.severity@,
            title: self.title@,
            detail: json::content(self.detail),
            caveat: self.caveat@,
        }
    }
}

/// The models of findings.
pub open spec fn finding_models(findings: Seq<HistoryFinding>) -> Seq<FindingModel> {
    findings.map_values(|finding: HistoryFinding| finding@)
}

impl View for Verdict {
    type V = VerdictModel;

    open spec fn view(&self) -> VerdictModel {
        VerdictModel {
            events_considered: self.events_considered as nat,
            window_seconds: self.window_seconds as int,
            findings: finding_models(self.findings@),
        }
    }
}

/// The models of events that are borrowed.
pub open spec fn seen(events: Seq<&WlanEvent>) -> Seq<EventModel> {
    events.map_values(|event: &WlanEvent| event@)
}

// ---------------------------------------------------------------------------
// Picking events
// ---------------------------------------------------------------------------

/// A kind of event that a rule looks for.
#[derive(Debug, Clone, Copy)]
pub enum Rule {
    /// A teardown with the hint that the key is wrong.
    Hint,
    /// A failed key exchange.
    KeyFailure,
    /// The start of a connection attempt.
    Attempt,
    /// A failed connection, or a disconnect that nobody asked for. One without
    /// a readable reason counts.
    Failure,
    /// A failed connection.
    Refused,
    /// A connection.
    Success,
    /// An event with data that has no name.
    Unnamed,
    /// One within the window of reconnects before a time.
    Recent(i64),
}

/// Whether an event is of a kind.
pub open spec fn fits(rule: Rule, event: EventModel) -> bool {
    match rule {
        Rule::Hint => event.event_id == 11004 && event.numeric("SecurityHintCode"@) == Some(
            HINT_PSK_MISMATCH as nat,
        ),
        Rule::KeyFailure => event.event_id == 11006,
        Rule::Attempt => event.event_id == 8000,
        Rule::Failure => event.event_id == 8002 || (event.event_id == 8003 && match event.numeric(
            "ReasonCode"@,
        ) {
            Some(reason) => reason != DISCONNECT_USER_REQUESTED && reason != DISCONNECT_POLICY,
            None => true,
        }),
        Rule::Refused => event.event_id == 8002,
        Rule::Success => event.event_id == 8001,
        Rule::Unnamed => !event.named_fields,
        Rule::Recent(last) => event.epoch_seconds >= last - LOOP_WINDOW_S,
    }
}

/// What tells whether an event is of a kind.
pub open spec fn of_kind(rule: Rule) -> spec_fn(EventModel) -> bool {
    |event: EventModel| fits(rule, event)
}

/// What tells whether an event names an access point.
pub open spec fn names_peer(peer: Seq<char>) -> spec_fn(EventModel) -> bool {
    |event: EventModel| event.field("PeerMac"@) == Some(peer)
}

fn is_of_kind(rule: Rule, event: &WlanEvent) -> (r: bool)
    ensures
        r == fits(rule, event@),
{
    match rule {
        Rule::Hint => event.event_id == 11004 && match event.numeric_field("SecurityHintCode") {
            Some(code) => code == HINT_PSK_MISMATCH,
            None => false,
        },
        Rule::KeyFailure => event.event_id == 11006,
        Rule::Attempt => event.event_id == 8000,
        Rule::Failure => event.event_id == 8002 || (event.event_id == 8003
            && match event.numeric_field("ReasonCode") {
            Some(reason) => reason != DISCONNECT_USER_REQUESTED && reason != DISCONNECT_POLICY,
            None => true,
        }),
        Rule::Refused => event.event_id == 8002,
        Rule::Success => event.event_id == 8001,
        Rule::Unnamed => !event.named_fields,
        Rule::Recent(last) => event.epoch_seconds as i128 >= last as i128 - 120,
    }
}

fn select<'a>(events: &Vec<&'a WlanEvent>, rule: Rule) -> (r: Vec<&'a WlanEvent>)
    ensures
        seen(r@) == seen(events@).filter(of_kind(rule)),
        r@.len() <= events@.len(),
{
    let mut out: Vec<&'a WlanEvent> = Vec::new();
    let mut i: usize = 0;
    proof {
        reveal(Seq::filter);
        assert(seen(events@).take(0) =~= seq![]);
        assert(seen(out@) =~= seq![]);
    }
    while i < events.len()
        invariant
            i <= events@.len(),
            out@.len() <= i,
            seen(out@) == seen(events@).take(i as int).filter(of_kind(rule)),
        decreases events@.len() - i,
    {
        let ghost before = out@;
        proof {
            reveal(Seq::filter);
            assert(seen(events@).take(i + 1).drop_last() =~= seen(events@).take(i as int));
        }
        if is_of_kind(rule, events[i]) {
            out.push(events[i]);
            proof {
                assert(seen(out@) =~= seen(before).push(events@[i as int]@));
            }
        }
        i = i + 1;
    }
    proof {
        assert(seen(events@).take(i as int) =~= seen(events@));
    }
    out
}

fn select_peer<'a>(events: &Vec<&'a WlanEvent>, peer: &str) -> (r: Vec<&'a WlanEvent>)
    ensures
        seen(r@) == seen(events@).filter(names_peer(peer@)),
        r@.len() <= events@.len(),
{
    let mut out: Vec<&'a WlanEvent> = Vec::new();
    let mut i: usize = 0;
    proof {
        reveal(Seq::filter);
        assert(seen(events@).take(0) =~= seq![]);
        assert(seen(out@) =~= seq![]);
    }
    while i < events.len()
        invariant
            i <= events@.len(),
            out@.len() <= i,
            seen(out@) == seen(events@).take(i as int).filter(names_peer(peer@)),
        decreases events@.len() - i,
    {
        let ghost before = out@;
        proof {
            reveal(Seq::filter);
            assert(seen(events@).take(i + 1).drop_last() =~= seen(events@).take(i as int));
        }
        if same_opt(events[i].field("PeerMac"), Some(peer)) {
            out.push(events[i]);
            proof {
                assert(seen(out@) =~= seen(before).push(events@[i as int]@));
            }
        }
        i = i + 1;
    }
    proof {
        assert(seen(events@).take(i as int) =~= seen(events@));
    }
    out
}

/// The readable reasons that events give, in their order.
pub open spec fn reason_codes(events: Seq<EventModel>) -> Seq<Json>
    decreases events.len(),
{
    if events.len() == 0 {
        seq![]
    } else {
        match events.last().numeric("ReasonCode"@) {
            Some(code) => reason_codes(events.drop_last()).push(json::number(code)),
            None => reason_codes(events.drop_last()),
        }
    }
}

fn list_reason_codes(events: &Vec<&WlanEvent>) -> (r: Value)
    ensures
        json::content(r) == Json::List(reason_codes(seen(events@))),
{
    let mut codes: Vec<Value> = Vec::new();
    let mut i: usize = 0;
    proof {
        assert(seen(events@).take(0) =~= seq![]);
        assert(json::contents(codes@) =~= seq![]);
    }
    while i < events.len()
        invariant
            i <= events@.len(),
            json::contents(codes@) == reason_codes(seen(events@).take(i as int)),
        decreases events@.len() - i,
    {
        let ghost before = codes@;
        proof {
            assert(seen(events@).take(i + 1).drop_last() =~= seen(events@).take(i as int));
            assert(seen(events@).take(i + 1).last() == events@[i as int]@);
        }
        match events[i].numeric_field("ReasonCode") {
            Some(code) => {
                codes.push(json::of_u64(code));
                proof {
                    assert(json::contents(codes@) =~= json::contents(before).push(
                        json::number(code as nat),
                    ));
                }
            },
            None => {},
        }
        i = i + 1;
    }
    proof {
        assert(seen(events@).take(i as int) =~= seen(events@));
    }
    json::of_list(codes)
}

// ---------------------------------------------------------------------------
// A key that looks wrong
// ---------------------------------------------------------------------------

/// What to bear in mind about a key that looks wrong.
pub const CREDENTIAL_CAVEAT: &'static str =
    "The hint code is a single-machine observation, not a documented constant, and Windows raises \
     it heuristically. One occurrence stays a warning because it can appear during a normal rekey; \
     verify the saved profile before acting.";

/// Whether the hint at `i` and the one after it bear each other out: they come
/// close together and name the same network.
pub open spec fn corroborated_at(hits: Seq<EventModel>, i: int) -> bool {
    &&& 0 <= i < hits.len() - 1
    &&& hits[i].field("SSID"@) is Some
    &&& hits[i].field("SSID"@) == hits[i + 1].field("SSID"@)
    &&& hits[i + 1].epoch_seconds - hits[i].epoch_seconds <= LOOP_WINDOW_S
}

/// Whether two hints in a row bear each other out.
pub open spec fn corroborated(hits: Seq<EventModel>) -> bool {
    exists|i: int| corroborated_at(hits, i)
}

/// What hints at a wrong key give: nothing without one; a warning for hints
/// that stand alone, since a normal rekey can cause one.
pub open spec fn credential_mismatch(events: Seq<EventModel>) -> Seq<FindingModel> {
    let hits = events.filter(of_kind(Rule::Hint));
    if hits.len() == 0 {
        seq![]
    } else {
        seq![
            FindingModel {
                id: "credential_mismatch"@,
                severity: if corroborated(hits) {
                    "critical"@
                } else {
                    "warning"@
                },
                title: text::decimal(hits.len())
                    + " security teardowns report a suspected PSK mismatch"@,
                detail: Json::Object(
                    Map::empty().insert("occurrences"@, json::number(hits.len())).insert(
                        "ssid"@,
                        json::text_or_null(hits[0].field("SSID"@)),
                    ).insert("first_seen"@, Json::Text(hits[0].time_created)),
                ),
                caveat: CREDENTIAL_CAVEAT@,
            },
        ]
    }
}

fn is_corroborated(hits: &Vec<&WlanEvent>) -> (r: bool)
    ensures
        r == corroborated(seen(hits@)),
{
    let mut i: usize = 1;
    while i < hits.len()
        invariant
            1 <= i,
            forall|j: int| 0 <= j < i - 1 ==> !corroborated_at(seen(hits@), j),
        decreases hits@.len() - i,
    {
        let left = hits[i - 1];
        let right = hits[i];
        let named = match left.field("SSID") {
            Some(_) => same_opt(left.field("SSID"), right.field("SSID")),
            None => false,
        };
        let close = right.epoch_seconds as i128 - left.epoch_seconds as i128 <= 120;
        proof {
            assert(seen(hits@)[i - 1] == left@);
            assert(seen(hits@)[i as int] == right@);
        }
        if named && close {
            proof {
                assert(corroborated_at(seen(hits@), i - 1));
            }
            return true;
        }
        i = i + 1;
    }
    false
}

/// A wrong key is a cause, and the reconnects that follow from it are not.
fn push_credential_mismatch(findings: &mut Vec<HistoryFinding>, events: &Vec<&WlanEvent>)
    ensures
        finding_models(final(findings)@) == finding_models(old(findings)@) + credential_mismatch(
            seen(events@),
        ),
{
    let hits = select(events, Rule::Hint);
    if hits.len() == 0 {
        proof {
            assert(seen(hits@).len() == 0);
            assert(finding_models(findings@) =~= finding_models(old(findings)@)
                + credential_mismatch(seen(events@)));
        }
        return;
    }
    proof {
        assert(seen(hits@)[0] == hits@[0]@);
    }
    let mut title = String::new();
    append_decimal(&mut title, hits.len() as u64);
    title.append(" security teardowns report a suspected PSK mismatch");
    let mut detail = json::object();
    json::put(&mut detail, "occurrences", json::of_u64(hits.len() as u64));
    json::put(&mut detail, "ssid", json::of_opt_str(hits[0].field("SSID")));
    json::put(&mut detail, "first_seen", json::of_str(hits[0].time_created.as_str()));
    let severity = if is_corroborated(&hits) {
        "critical"
    } else {
        "warning"
    };
    let finding = HistoryFinding {
        id: "credential_mismatch",
        severity,
        title,
        detail,
        caveat: CREDENTIAL_CAVEAT,
    };
    proof {
        assert(finding.title@ =~= text::decimal(hits@.len())
            + " security teardowns report a suspected PSK mismatch"@);
        assert(seq![finding@] =~= credential_mismatch(seen(events@)));
    }
    findings.push(finding);
    proof {
        assert(finding_models(findings@) =~= finding_models(old(findings)@) + seq![finding@]);
    }
}

// ---------------------------------------------------------------------------
// An access point that fails
// ---------------------------------------------------------------------------

/// What to bear in mind about an access point that is blamed.
pub const ACCESS_POINT_CAVEAT: &'static str =
    "Blames one radio, which is usually right, but a client-side certificate or supplicant fault \
     can produce the same pattern if the client only ever reaches that AP. The remediation differs \
     entirely from a client-side loop, so confirm against a second AP before replacing hardware.";

/// Where a name goes among names in order.
pub open spec fn name_slot(names: Seq<Seq<char>>, name: Seq<char>) -> int
    decreases names.len(),
{
    if names.len() == 0 || ordered::text_less(names.last(), name) {
        names.len() as int
    } else {
        name_slot(names.drop_last(), name)
    }
}

/// The access points that events name, each once and in order.
pub open spec fn peers(events: Seq<EventModel>) -> Seq<Seq<char>>
    decreases events.len(),
{
    if events.len() == 0 {
        seq![]
    } else {
        let before = peers(events.drop_last());
        match events.last().field("PeerMac"@) {
            Some(peer) => if before.contains(peer) {
                before
            } else {
                before.insert(name_slot(before, peer), peer)
            },
            None => before,
        }
    }
}

/// The key by which times are sorted: themselves.
pub open spec fn by_value() -> spec_fn(i64) -> int {
    |time: i64| time as int
}

/// When events happened, in their order.
pub open spec fn times(events: Seq<EventModel>) -> Seq<i64> {
    events.map_values(|event: EventModel| event.epoch_seconds)
}

/// When events happened, the earliest first.
pub open spec fn ascending_times(events: Seq<EventModel>) -> Seq<i64> {
    sorting::arranged(times(events), by_value())
}

/// Whether the time at `i` and the two after it are close together.
pub open spec fn clustered_at(times: Seq<i64>, i: int) -> bool {
    0 <= i < times.len() - 2 && times[i + 2] - times[i] <= BAD_AP_WINDOW_S
}

/// Whether three failures come close together, in whatever order they stand.
pub open spec fn clustered(failures: Seq<EventModel>) -> bool {
    exists|i: int| clustered_at(ascending_times(failures), i)
}

/// What is said of an access point with these failures.
pub open spec fn access_point_finding(failures: Seq<EventModel>, peer: Seq<char>) -> FindingModel {
    FindingModel {
        id: "access_point_key_exchange_failing"@,
        severity: "critical"@,
        title: text::decimal(failures.len()) + " key-exchange failures against a single AP ("@
            + peer + ")"@,
        detail: Json::Object(
            Map::empty().insert("peer_mac"@, Json::Text(peer)).insert(
                "failures"@,
                json::number(failures.len()),
            ).insert("reason_codes"@, Json::List(reason_codes(failures))),
        ),
        caveat: ACCESS_POINT_CAVEAT@,
    }
}

/// What is said of access points with these failures, one after the other.
pub open spec fn access_point_findings(
    failures: Seq<EventModel>,
    names: Seq<Seq<char>>,
) -> Seq<FindingModel>
    decreases names.len(),
{
    if names.len() == 0 {
        seq![]
    } else {
        let before = access_point_findings(failures, names.drop_last());
        let own = failures.filter(names_peer(names.last()));
        if clustered(own) {
            before.push(access_point_finding(own, names.last()))
        } else {
            before
        }
    }
}

/// What failed key exchanges give: a finding for each access point against
/// which three of them come close together.
pub open spec fn bad_access_point(events: Seq<EventModel>) -> Seq<FindingModel> {
    let failures = events.filter(of_kind(Rule::KeyFailure));
    access_point_findings(failures, peers(failures))
}

fn sort_times(failures: &Vec<&WlanEvent>) -> (r: Vec<i64>)
    ensures
        r@ == ascending_times(seen(failures@)),
{
    let ghost all = times(seen(failures@));
    let ghost key = by_value();
    let mut out: Vec<i64> = Vec::new();
    let mut i: usize = 0;
    proof {
        assert(all.take(0) =~= seq![]);
    }
    while i < failures.len()
        invariant
            i <= failures@.len(),
            all == times(seen(failures@)),
            key == by_value(),
            out@ == sorting::arranged(all.take(i as int), key),
        decreases failures@.len() - i,
    {
        let time: i64 = failures[i].epoch_seconds;
        let ghost before = out@;
        let ghost upto = all.take(i + 1);
        proof {
            assert(upto.drop_last() =~= all.take(i as int));
            assert(seen(failures@)[i as int] == failures@[i as int]@);
            assert(upto.last() == time);
            assert(before.take(out@.len() as int) =~= before);
        }
        let mut p: usize = out.len();
        while p > 0 && out[p - 1] > time
            invariant
                p <= out@.len(),
                key == by_value(),
                before == out@,
                sorting::slot(before, key, time as int) == sorting::slot(
                    before.take(p as int),
                    key,
                    time as int,
                ),
            decreases p,
        {
            proof {
                assert(before.take(p as int).drop_last() =~= before.take(p - 1));
            }
            p = p - 1;
        }
        out.insert(p, time);
        i = i + 1;
    }
    proof {
        assert(all.take(i as int) =~= all);
    }
    out
}

fn is_clustered(failures: &Vec<&WlanEvent>) -> (r: bool)
    ensures
        r == clustered(seen(failures@)),
{
    let times = sort_times(failures);
    let mut i: usize = 2;
    while i < times.len()
        invariant
            2 <= i,
            times@ == ascending_times(seen(failures@)),
            forall|j: int| 0 <= j < i - 2 ==> !clustered_at(times@, j),
        decreases times@.len() - i,
    {
        if times[i] as i128 - times[i - 2] as i128 <= 300 {
            proof {
                assert(clustered_at(times@, i - 2));
            }
            return true;
        }
        i = i + 1;
    }
    false
}

/// The text that borrowed names hold.
pub open spec fn name_texts(names: Seq<&str>) -> Seq<Seq<char>> {
    names.map_values(|name: &str| name@)
}

fn has_name(names: &Vec<&str>, name: &str) -> (r: bool)
    ensures
        r == name_texts(names@).contains(name@),
{
    let mut i: usize = 0;
    while i < names.len()
        invariant
            i <= names@.len(),
            forall|j: int| 0 <= j < i ==> #[trigger] name_texts(names@)[j] != name@,
        decreases names@.len() - i,
    {
        proof {
            assert(name_texts(names@)[i as int] == names@[i as int]@);
        }
        if same_text(names[i], name) {
            return true;
        }
        i = i + 1;
    }
    false
}

fn find_slot(names: &Vec<&str>, name: &str) -> (r: usize)
    ensures
        r == name_slot(name_texts(names@), name@),
        r <= names@.len(),
{
    let mut p: usize = names.len();
    proof {
        assert(name_texts(names@).take(p as int) =~= name_texts(names@));
    }
    while p > 0
        invariant
            p <= names@.len(),
            name_slot(name_texts(names@), name@) == name_slot(
                name_texts(names@).take(p as int),
                name@,
            ),
        decreases p,
    {
        proof {
            assert(name_texts(names@).take(p as int).last() == names@[p - 1]@);
            assert(name_texts(names@).take(p as int).drop_last() =~= name_texts(names@).take(
                p - 1,
            ));
        }
        match place(names[p - 1], name) {
            Place::Before => {
                return p;
            },
            Place::Same => {
                proof {
                    ordered::lemma_less_irreflexive(name@);
                }
            },
            Place::After => {
                proof {
                    if ordered::text_less(names@[p - 1]@, name@) {
                        ordered::lemma_less_transitive(names@[p - 1]@, name@, names@[p - 1]@);
                        ordered::lemma_less_irreflexive(names@[p - 1]@);
                    }
                }
            },
        }
        p = p - 1;
    }
    0
}

fn list_peers<'a>(events: &Vec<&'a WlanEvent>) -> (r: Vec<&'a str>)
    ensures
        name_texts(r@) == peers(seen(events@)),
{
    let mut names: Vec<&'a str> = Vec::new();
    let mut i: usize = 0;
    proof {
        assert(seen(events@).take(0) =~= seq![]);
        assert(name_texts(names@) =~= seq![]);
    }
    while i < events.len()
        invariant
            i <= events@.len(),
            name_texts(names@) == peers(seen(events@).take(i as int)),
        decreases events@.len() - i,
    {
        let ghost before = names@;
        proof {
            assert(seen(events@).take(i + 1).drop_last() =~= seen(events@).take(i as int));
            assert(seen(events@).take(i + 1).last() == events@[i as int]@);
        }
        let event: &'a WlanEvent = events[i];
        match event.field("PeerMac") {
            Some(peer) => if !has_name(&names, peer) {
                let p: usize = find_slot(&names, peer);
                names.insert(p, peer);
                proof {
                    assert(name_texts(names@) =~= name_texts(before).insert(p as int, peer@));
                }
            },
            None => {},
        }
        i = i + 1;
    }
    proof {
        assert(seen(events@).take(i as int) =~= seen(events@));
    }
    names
}

fn blame(own: &Vec<&WlanEvent>, peer: &str) -> (r: HistoryFinding)
    ensures
        r@ == access_point_finding(seen(own@), peer@),
{
    let mut title = String::new();
    append_decimal(&mut title, own.len() as u64);
    title.append(" key-exchange failures against a single AP (");
    title.append(peer);
    title.append(")");
    let mut detail = json::object();
    json::put(&mut detail, "peer_mac", json::of_str(peer));
    json::put(&mut detail, "failures", json::of_u64(own.len() as u64));
    json::put(&mut detail, "reason_codes", list_reason_codes(own));
    proof {
        assert(title@ =~= text::decimal(own@.len())
            + " key-exchange failures against a single AP ("@ + peer@ + ")"@);
    }
    HistoryFinding {
        id: "access_point_key_exchange_failing",
        severity: "critical",
        title,
        detail,
        caveat: ACCESS_POINT_CAVEAT,
    }
}

/// A failed key exchange is the only event that names an access point, so this
/// is the one rule that can name the radio.
fn push_bad_access_point(findings: &mut Vec<HistoryFinding>, events: &Vec<&WlanEvent>)
    ensures
        finding_models(final(findings)@) == finding_models(old(findings)@) + bad_access_point(
            seen(events@),
        ),
{
    let failures = select(events, Rule::KeyFailure);
    let names = list_peers(&failures);
    let mut i: usize = 0;
    proof {
        assert(name_texts(names@).take(0) =~= seq![]);
        assert(finding_models(findings@) =~= finding_models(old(findings)@)
            + access_point_findings(seen(failures@), name_texts(names@).take(0)));
    }
    while i < names.len()
        invariant
            i <= names@.len(),
            finding_models(findings@) == finding_models(old(findings)@) + access_point_findings(
                seen(failures@),
                name_texts(names@).take(i as int),
            ),
        decreases names@.len() - i,
    {
        let ghost before = findings@;
        let ghost upto = name_texts(names@).take(i + 1);
        let own = select_peer(&failures, names[i]);
        proof {
            assert(upto.drop_last() =~= name_texts(names@).take(i as int));
            assert(upto.last() == names@[i as int]@);
        }
        if is_clustered(&own) {
            let finding = blame(&own, names[i]);
            findings.push(finding);
            proof {
                assert(finding_models(findings@) =~= finding_models(before).push(finding@));
                assert(finding_models(findings@) =~= finding_models(old(findings)@)
                    + access_point_findings(seen(failures@), upto));
            }
        }
        i = i + 1;
    }
    proof {
        assert(name_texts(names@).take(i as int) =~= name_texts(names@));
    }
}

// ---------------------------------------------------------------------------
// Reconnects in a loop
// ---------------------------------------------------------------------------

/// What to bear in mind about a loop of reconnects.
pub const LOOP_CAVEAT: &'static str =
    "Roams and rekeys are excluded by requiring distinct ConnectionIds and real failures, but an \
     8003 without a readable ReasonCode is counted as unplanned, which can over-report. Reason \
     codes are undocumented observations; treat an unfamiliar one as unknown rather than \
     meaningful.";

/// The sessions that events belong to.
pub open spec fn sessions(events: Seq<EventModel>) -> Set<nat>
    decreases events.len(),
{
    if events.len() == 0 {
        Set::empty()
    } else {
        match events.last().session() {
            Some(id) => sessions(events.drop_last()).insert(id),
            None => sessions(events.drop_last()),
        }
    }
}

/// The events within the window of reconnects before the last one.
pub open spec fn loop_window(events: Seq<EventModel>) -> Seq<EventModel> {
    events.filter(of_kind(Rule::Recent(events.last().epoch_seconds)))
}

/// How many sessions were opened within a window.
pub open spec fn attempts(window: Seq<EventModel>) -> nat {
    sessions(window.filter(of_kind(Rule::Attempt))).len()
}

/// How many failures a window has.
pub open spec fn failures(window: Seq<EventModel>) -> nat {
    window.filter(of_kind(Rule::Failure)).len()
}

/// How many connections a window has.
pub open spec fn successes(window: Seq<EventModel>) -> nat {
    window.filter(of_kind(Rule::Success)).len()
}

/// Whether a window shows a loop: sessions are opened again and again and fail.
/// Attempts alone do not, so that a walk through a building is none.
pub open spec fn loops(window: Seq<EventModel>) -> bool {
    attempts(window) >= 3 && failures(window) >= 3 && successes(window) <= 1
}

/// What is said of a window that shows a loop.
pub open spec fn loop_finding(window: Seq<EventModel>) -> FindingModel {
    FindingModel {
        id: "reconnect_loop"@,
        severity: if attempts(window) >= 5 {
            "critical"@
        } else {
            "warning"@
        },
        title: text::decimal(attempts(window)) + " connection attempts and "@ + text::decimal(
            failures(window),
        ) + " failures in "@ + text::decimal(120) + "s"@,
        detail: Json::Object(
            Map::empty().insert("attempts"@, json::number(attempts(window))).insert(
                "failures"@,
                json::number(failures(window)),
            ).insert("successes"@, json::number(successes(window))).insert(
                "window_seconds"@,
                json::number(120),
            ).insert(
                "reason_codes"@,
                Json::List(reason_codes(window.filter(of_kind(Rule::Refused)))),
            ),
        ),
        caveat: LOOP_CAVEAT@,
    }
}

/// What the last events give on reconnects.
pub open spec fn reconnect_loop(events: Seq<EventModel>) -> Seq<FindingModel> {
    if events.len() > 0 && loops(loop_window(events)) {
        seq![loop_finding(loop_window(events))]
    } else {
        seq![]
    }
}

proof fn lemma_distinct_count(ids: Seq<u64>, of: Set<nat>)
    requires
        ids.no_duplicates(),
        forall|id: nat| #[trigger] of.contains(id) <==> ids_hold(ids, id),
    ensures
        of.len() == ids.len(),
{
    let wide = ids.map_values(|id: u64| id as nat);
    assert(wide.no_duplicates());
    wide.unique_seq_to_set();
    assert forall|id: nat| #[trigger] of.contains(id) <==> wide.to_set().contains(id) by {
        if of.contains(id) {
            let i = choose|i: int| 0 <= i < ids.len() && ids[i] == id;
            assert(wide[i] == id);
        }
        if wide.contains(id) {
            let i = choose|i: int| 0 <= i < wide.len() && wide[i] == id;
            assert(ids[i] == id);
        }
    }
    assert(of =~= wide.to_set());
}

/// Whether a number is among others.
pub open spec fn ids_hold(ids: Seq<u64>, id: nat) -> bool {
    exists|i: int| 0 <= i < ids.len() && ids[i] == id
}

fn count_sessions(events: &Vec<&WlanEvent>) -> (r: usize)
    ensures
        r == sessions(seen(events@)).len(),
{
    let mut ids: Vec<u64> = Vec::new();
    let mut i: usize = 0;
    proof {
        assert(seen(events@).take(0) =~= seq![]);
    }
    while i < events.len()
        invariant
            i <= events@.len(),
            ids@.no_duplicates(),
            forall|id: nat| #[trigger]
                sessions(seen(events@).take(i as int)).contains(id) <==> ids_hold(ids@, id),
        decreases events@.len() - i,
    {
        let ghost before = ids@;
        proof {
            assert(seen(events@).take(i + 1).drop_last() =~= seen(events@).take(i as int));
            assert(seen(events@).take(i + 1).last() == events@[i as int]@);
        }
        match events[i].connection_id() {
            Some(found) => {
                let known = has_id(&ids, found);
                if !known {
                    ids.push(found);
                }
                proof {
                    assert forall|id: nat| #[trigger]
                        sessions(seen(events@).take(i + 1)).contains(id) <==> ids_hold(
                            ids@,
                            id,
                        ) by {
                        assert(sessions(seen(events@).take(i as int)).contains(id) <==> ids_hold(
                            before,
                            id,
                        ));
                        if ids_hold(before, id) {
                            let j = choose|j: int| 0 <= j < before.len() && before[j] == id;
                            assert(ids@[j] == id);
                        }
                        if !known {
                            assert(ids@[before.len() as int] == found);
                        }
                        if ids_hold(ids@, id) {
                            let j = choose|j: int| 0 <= j < ids@.len() && ids@[j] == id;
                            if j < before.len() {
                                assert(before[j] == id);
                            }
                        }
                    }
                }
            },
            None => {
                proof {
                    assert(sessions(seen(events@).take(i + 1)) == sessions(
                        seen(events@).take(i as int),
                    ));
                }
            },
        }
        i = i + 1;
    }
    proof {
        assert(seen(events@).take(i as int) =~= seen(events@));
        lemma_distinct_count(ids@, sessions(seen(events@)));
    }
    ids.len()
}

fn has_id(ids: &Vec<u64>, id: u64) -> (r: bool)
    ensures
        r == ids_hold(ids@, id as nat),
{
    let mut i: usize = 0;
    while i < ids.len()
        invariant
            i <= ids@.len(),
            forall|j: int| 0 <= j < i ==> ids@[j] != id,
        decreases ids@.len() - i,
    {
        if ids[i] == id {
            return true;
        }
        i = i + 1;
    }
    false
}

/// The loop of reconnects itself.
fn push_reconnect_loop(findings: &mut Vec<HistoryFinding>, events: &Vec<&WlanEvent>)
    ensures
        finding_models(final(findings)@) == finding_models(old(findings)@) + reconnect_loop(
            seen(events@),
        ),
{
    if events.len() == 0 {
        proof {
            assert(finding_models(findings@) =~= finding_models(old(findings)@) + reconnect_loop(
                seen(events@),
            ));
        }
        return;
    }
    let last: i64 = events[events.len() - 1].epoch_seconds;
    proof {
        assert(seen(events@).last() == events@[events@.len() - 1]@);
    }
    let window = select(events, Rule::Recent(last));
    let opened = select(&window, Rule::Attempt);
    let attempts: usize = count_sessions(&opened);
    let failed = select(&window, Rule::Failure);
    let connected = select(&window, Rule::Success);
    proof {
        assert(seen(failed@).len() == failed@.len());
        assert(seen(connected@).len() == connected@.len());
    }
    if attempts < 3 || failed.len() < 3 || connected.len() > 1 {
        proof {
            assert(finding_models(findings@) =~= finding_models(old(findings)@) + reconnect_loop(
                seen(events@),
            ));
        }
        return;
    }
    let refused = select(&window, Rule::Refused);
    let mut title = String::new();
    append_decimal(&mut title, attempts as u64);
    title.append(" connection attempts and ");
    append_decimal(&mut title, failed.len() as u64);
    title.append(" failures in ");
    append_decimal(&mut title, 120);
    title.append("s");
    let mut detail = json::object();
    json::put(&mut detail, "attempts", json::of_u64(attempts as u64));
    json::put(&mut detail, "failures", json::of_u64(failed.len() as u64));
    json::put(&mut detail, "successes", json::of_u64(connected.len() as u64));
    json::put(&mut detail, "window_seconds", json::of_u64(120));
    json::put(&mut detail, "reason_codes", list_reason_codes(&refused));
    let severity = if attempts >= 5 {
        "critical"
    } else {
        "warning"
    };
    let finding = HistoryFinding {
        id: "reconnect_loop",
        severity,
        title,
        detail,
        caveat: LOOP_CAVEAT,
    };
    proof {
        let w = seen(window@);
        assert(finding.title@ =~= text::decimal(attempts as nat) + " connection attempts and "@
            + text::decimal(failed@.len()) + " failures in "@ + text::decimal(120) + "s"@);
        assert(finding@ == loop_finding(w));
    }
    findings.push(finding);
    proof {
        assert(finding_models(findings@) =~= finding_models(old(findings)@) + reconnect_loop(
            seen(events@),
        ));
    }
}

// ---------------------------------------------------------------------------
// Data without names
// ---------------------------------------------------------------------------

/// What to bear in mind about data without names.
pub const UNNAMED_CAVEAT: &'static str =
    "Field names come from the publisher's registered manifest, not the event record. Without them \
     every rule that keys on ReasonCode, ConnectionId or PeerMac is inert for those events, so an \
     absence of findings here does not mean an absence of faults.";

/// What is said of events whose data has no names.
pub open spec fn unnamed_fields(events: Seq<EventModel>) -> Seq<FindingModel> {
    let unnamed = events.filter(of_kind(Rule::Unnamed)).len();
    if unnamed == 0 {
        seq![]
    } else {
        seq![
            FindingModel {
                id: "event_fields_unnamed"@,
                severity: "warning"@,
                title: text::decimal(unnamed) + " events rendered without named fields"@,
                detail: Json::Object(
                    Map::empty().insert("unnamed"@, json::number(unnamed)).insert(
                        "total"@,
                        json::number(events.len()),
                    ),
                ),
                caveat: UNNAMED_CAVEAT@,
            },
        ]
    }
}

/// Without names the rules above see nothing. That is said, so that it does not
/// read as a history without faults.
fn push_unnamed_fields(findings: &mut Vec<HistoryFinding>, events: &Vec<&WlanEvent>)
    ensures
        finding_models(final(findings)@) == finding_models(old(findings)@) + unnamed_fields(
            seen(events@),
        ),
{
    let unnamed = select(events, Rule::Unnamed);
    proof {
        assert(seen(unnamed@).len() == unnamed@.len());
    }
    if unnamed.len() == 0 {
        proof {
            assert(finding_models(findings@) =~= finding_models(old(findings)@) + unnamed_fields(
                seen(events@),
            ));
        }
        return;
    }
    let mut title = String::new();
    append_decimal(&mut title, unnamed.len() as u64);
    title.append(" events rendered without named fields");
    let mut detail = json::object();
    json::put(&mut detail, "unnamed", json::of_u64(unnamed.len() as u64));
    json::put(&mut detail, "total", json::of_u64(events.len() as u64));
    let finding = HistoryFinding {
        id: "event_fields_unnamed",
        severity: "warning",
        title,
        detail,
        caveat: UNNAMED_CAVEAT,
    };
    proof {
        assert(finding.title@ =~= text::decimal(unnamed@.len())
            + " events rendered without named fields"@);
        assert(seq![finding@] =~= unnamed_fields(seen(events@)));
    }
    findings.push(finding);
    proof {
        assert(finding_models(findings@) =~= finding_models(old(findings)@) + seq![finding@]);
    }
}

// ---------------------------------------------------------------------------
// The verdict
// ---------------------------------------------------------------------------

/// What events are sorted by.
pub open spec fn by_time() -> spec_fn(EventModel) -> int {
    |event: EventModel| event.epoch_seconds as int
}

/// How pressing a severity is; the most pressing comes first.
pub open spec fn rank(severity: Seq<char>) -> int {
    if severity == "critical"@ {
        0
    } else if severity == "warning"@ {
        1
    } else {
        2
    }
}

/// What findings are sorted by.
pub open spec fn by_severity() -> spec_fn(FindingModel) -> int {
    |finding: FindingModel| rank(finding.severity)
}

/// The findings of events that are in order: causes before symptoms.
pub open spec fn found(events: Seq<EventModel>) -> Seq<FindingModel> {
    credential_mismatch(events) + bad_access_point(events) + reconnect_loop(events)
        + unnamed_fields(events)
}

/// What a history says: the findings of its events in the order of time, the
/// most pressing first.
pub open spec fn judged(events: Seq<EventModel>) -> VerdictModel {
    VerdictModel {
        events_considered: events.len(),
        window_seconds: LOOP_WINDOW_S as int,
        findings: sorting::arranged(found(sorting::arranged(events, by_time())), by_severity()),
    }
}

fn sort_events<'a>(events: &'a [WlanEvent]) -> (r: Vec<&'a WlanEvent>)
    ensures
        seen(r@) == sorting::arranged(events::models(events@), by_time()),
{
    let mut out: Vec<&'a WlanEvent> = Vec::new();
    let mut i: usize = 0;
    proof {
        assert(events::models(events@).take(0) =~= seq![]);
        assert(seen(out@) =~= seq![]);
    }
    while i < events.len()
        invariant
            i <= events@.len(),
            seen(out@) == sorting::arranged(events::models(events@).take(i as int), by_time()),
        decreases events@.len() - i,
    {
        let event: &'a WlanEvent = &events[i];
        let ghost before = seen(out@);
        let ghost upto = events::models(events@).take(i + 1);
        let ghost key = by_time();
        proof {
            assert(upto.drop_last() =~= events::models(events@).take(i as int));
            assert(upto.last() == event@);
            assert(before.take(out@.len() as int) =~= before);
        }
        let mut p: usize = out.len();
        while p > 0 && out[p - 1].epoch_seconds > event.epoch_seconds
            invariant
                p <= out@.len(),
                key == by_time(),
                before == seen(out@),
                sorting::slot(before, key, event.epoch_seconds as int) == sorting::slot(
                    before.take(p as int),
                    key,
                    event.epoch_seconds as int,
                ),
            decreases p,
        {
            proof {
                assert(before.take(p as int).last() == out@[p - 1]@);
                assert(before.take(p as int).drop_last() =~= before.take(p - 1));
            }
            p = p - 1;
        }
        proof {
            if p > 0 {
                assert(before.take(p as int).last() == out@[p - 1]@);
            }
        }
        let ghost held = out@;
        out.insert(p, event);
        proof {
            assert(seen(out@) =~= seen(held).insert(p as int, event@));
        }
        i = i + 1;
    }
    proof {
        assert(events::models(events@).take(i as int) =~= events::models(events@));
    }
    out
}

fn rank_of(severity: &str) -> (r: u8)
    ensures
        r == rank(severity@),
{
    if same_text(severity, "critical") {
        0
    } else if same_text(severity, "warning") {
        1
    } else {
        2
    }
}

fn sort_findings(findings: Vec<HistoryFinding>) -> (r: Vec<HistoryFinding>)
    ensures
        finding_models(r@) == sorting::arranged(finding_models(findings@), by_severity()),
{
    let ghost all = finding_models(findings@);
    let mut left = findings;
    let mut out: Vec<HistoryFinding> = Vec::new();
    let ghost mut i: int = 0;
    proof {
        assert(all.take(0) =~= seq![]);
        assert(all.skip(0) =~= all);
        assert(finding_models(out@) =~= seq![]);
    }
    while left.len() > 0
        invariant
            0 <= i <= all.len(),
            finding_models(left@) == all.skip(i),
            finding_models(out@) == sorting::arranged(all.take(i), by_severity()),
        decreases left@.len(),
    {
        let ghost rest = left@;
        let finding = left.remove(0);
        let ghost before = finding_models(out@);
        let ghost upto = all.take(i + 1);
        let ghost key = by_severity();
        proof {
            assert(finding_models(rest).len() == rest.len());
            assert(all.skip(i).len() == all.len() - i);
            assert(all.skip(i)[0] == finding_models(rest)[0]);
            assert(upto.drop_last() =~= all.take(i));
            assert(upto.last() == finding@);
            assert(before.take(out@.len() as int) =~= before);
        }
        let own: u8 = rank_of(finding.severity);
        let mut p: usize = out.len();
        while p > 0 && rank_of(out[p - 1].severity) > own
            invariant
                p <= out@.len(),
                key == by_severity(),
                before == finding_models(out@),
                sorting::slot(before, key, own as int) == sorting::slot(
                    before.take(p as int),
                    key,
                    own as int,
                ),
            decreases p,
        {
            proof {
                assert(before.take(p as int).last() == out@[p - 1]@);
                assert(before.take(p as int).drop_last() =~= before.take(p - 1));
            }
            p = p - 1;
        }
        proof {
            if p > 0 {
                assert(before.take(p as int).last() == out@[p - 1]@);
            }
        }
        let ghost held = out@;
        out.insert(p, finding);
        proof {
            assert(finding_models(out@) =~= finding_models(held).insert(p as int, finding@));
            assert(finding_models(left@) =~= all.skip(i + 1)) by {
                assert forall|j: int| 0 <= j < left@.len() implies #[trigger] finding_models(
                    left@,
                )[j] == all.skip(i + 1)[j] by {
                    assert(finding_models(rest)[j + 1] == all.skip(i)[j + 1]);
                }
            }
            i = i + 1;
        }
    }
    proof {
        assert(all.take(i) =~= all) by {
            assert(all.skip(i).len() == 0);
        }
    }
    out
}

/// Judge events, in whatever order they come.
pub fn detect(events: &[WlanEvent]) -> (r: Verdict)
    ensures
        r@ == judged(events::models(events@)),
{
    let sorted = sort_events(events);
    let mut findings: Vec<HistoryFinding> = Vec::new();
    push_credential_mismatch(&mut findings, &sorted);
    push_bad_access_point(&mut findings, &sorted);
    push_reconnect_loop(&mut findings, &sorted);
    push_unnamed_fields(&mut findings, &sorted);
    proof {
        assert(finding_models(findings@) =~= found(seen(sorted@)));
    }
    Verdict {
        events_considered: events.len(),
        window_seconds: LOOP_WINDOW_S,
        findings: sort_findings(findings),
    }
}

// ---------------------------------------------------------------------------
// Laws
// ---------------------------------------------------------------------------

/// The order in which events are handed over does not matter, as long as those
/// of one second keep theirs.
pub proof fn lemma_order_does_not_matter(a: Seq<EventModel>, b: Seq<EventModel>)
    requires
        forall|at: int| #[trigger]
            sorting::with_key(a, by_time(), at) == sorting::with_key(b, by_time(), at),
    ensures
        judged(a) == judged(b),
{
    sorting::lemma_arranged_agrees(a, b, by_time());
    sorting::lemma_arranged_ascends(a, by_time());
    sorting::lemma_arranged_ascends(b, by_time());
}

/// The most pressing findings come first.
pub proof fn lemma_findings_by_severity(events: Seq<EventModel>, i: int, j: int)
    requires
        0 <= i < j < judged(events).findings.len(),
    ensures
        rank(judged(events).findings[i].severity) <= rank(judged(events).findings[j].severity),
{
    sorting::lemma_arranged_ascends(found(sorting::arranged(events, by_time())), by_severity());
    let findings = judged(events).findings;
    assert(by_severity()(findings[i]) <= by_severity()(findings[j]));
}

/// Whether a finding with an id is among findings.
pub open spec fn reports(findings: Seq<FindingModel>, id: Seq<char>) -> bool {
    exists|i: int| 0 <= i < findings.len() && (#[trigger] findings[i]).id == id
}

proof fn lemma_same_elements<A>(s: Seq<A>, key: spec_fn(A) -> int, x: A)
    ensures
        sorting::arranged(s, key).contains(x) <==> s.contains(x),
{
    counting::lemma_sorting_keeps_elements(s, key, x);
}

/// Sorting the findings neither adds nor takes away.
pub(crate) proof fn lemma_reports(events: Seq<EventModel>, id: Seq<char>)
    ensures
        reports(judged(events).findings, id) <==> reports(
            found(sorting::arranged(events, by_time())),
            id,
        ),
{
    let all = found(sorting::arranged(events, by_time()));
    let findings = judged(events).findings;
    if reports(findings, id) {
        let i = choose|i: int| 0 <= i < findings.len() && (#[trigger] findings[i]).id == id;
        lemma_same_elements(all, by_severity(), findings[i]);
        assert(findings.contains(findings[i]));
        let j = choose|j: int| 0 <= j < all.len() && all[j] == findings[i];
        assert(all[j].id == id);
    }
    if reports(all, id) {
        let i = choose|i: int| 0 <= i < all.len() && (#[trigger] all[i]).id == id;
        lemma_same_elements(all, by_severity(), all[i]);
        assert(all.contains(all[i]));
        let j = choose|j: int| 0 <= j < findings.len() && findings[j] == all[i];
        assert(findings[j].id == id);
    }
}

pub(crate) proof fn lemma_ids_differ()
    ensures
        "credential_mismatch"@ != "access_point_key_exchange_failing"@,
        "credential_mismatch"@ != "reconnect_loop"@,
        "credential_mismatch"@ != "event_fields_unnamed"@,
        "access_point_key_exchange_failing"@ != "reconnect_loop"@,
        "access_point_key_exchange_failing"@ != "event_fields_unnamed"@,
        "reconnect_loop"@ != "event_fields_unnamed"@,
{
    reveal_strlit("credential_mismatch");
    reveal_strlit("access_point_key_exchange_failing");
    reveal_strlit("reconnect_loop");
    reveal_strlit("event_fields_unnamed");
    assert("credential_mismatch"@.len() == 19);
    assert("access_point_key_exchange_failing"@.len() == 33);
    assert("reconnect_loop"@.len() == 14);
    assert("event_fields_unnamed"@.len() == 20);
}

pub(crate) proof fn lemma_access_point_ids(failures: Seq<EventModel>, names: Seq<Seq<char>>, i: int)
    requires
        0 <= i < access_point_findings(failures, names).len(),
    ensures
        access_point_findings(failures, names)[i].id == "access_point_key_exchange_failing"@,
    decreases names.len(),
{
    let before = access_point_findings(failures, names.drop_last());
    if i < before.len() {
        lemma_access_point_ids(failures, names.drop_last(), i);
    }
}

/// Each finding comes from the rule that its id names.
pub(crate) proof fn lemma_rule_of(events: Seq<EventModel>, i: int)
    requires
        0 <= i < found(events).len(),
    ensures
        found(events)[i].id == "credential_mismatch"@ ==> credential_mismatch(events).len() > 0
            && found(events)[i] == credential_mismatch(events)[0],
        found(events)[i].id == "access_point_key_exchange_failing"@ ==> bad_access_point(
            events,
        ).contains(found(events)[i]),
        found(events)[i].id == "reconnect_loop"@ ==> reconnect_loop(events).len() > 0
            && found(events)[i] == reconnect_loop(events)[0],
        found(events)[i].id == "event_fields_unnamed"@ ==> unnamed_fields(events).len() > 0
            && found(events)[i] == unnamed_fields(events)[0],
        found(events)[i].id == "credential_mismatch"@ || found(events)[i].id
            == "access_point_key_exchange_failing"@ || found(events)[i].id == "reconnect_loop"@
            || found(events)[i].id == "event_fields_unnamed"@,
{
    lemma_ids_differ();
    let failures = events.filter(of_kind(Rule::KeyFailure));
    let first = credential_mismatch(events);
    let second = bad_access_point(events);
    let third = reconnect_loop(events);
    if first.len() <= i < first.len() + second.len() {
        lemma_access_point_ids(failures, peers(failures), i - first.len());
        assert(found(events)[i] == second[i - first.len()]);
    } else if first.len() + second.len() <= i < first.len() + second.len() + third.len() {
        assert(found(events)[i] == third[i - first.len() - second.len()]);
    } else if i >= first.len() + second.len() + third.len() {
        assert(found(events)[i] == unnamed_fields(
            events,
        )[i - first.len() - second.len() - third.len()]);
    }
}

/// Where nothing failed, no loop is reported: neither roams and rekeys nor
/// disconnects that the user or a policy asked for make one.
pub proof fn lemma_no_failure_is_no_loop(events: Seq<EventModel>)
    requires
        forall|i: int| 0 <= i < events.len() ==> !fits(Rule::Failure, #[trigger] events[i]),
    ensures
        !reports(judged(events).findings, "reconnect_loop"@),
{
    let sorted = sorting::arranged(events, by_time());
    lemma_reports(events, "reconnect_loop"@);
    if reports(found(sorted), "reconnect_loop"@) {
        let all = found(sorted);
        let i = choose|i: int|
            0 <= i < all.len() && (#[trigger] all[i]).id == "reconnect_loop"@;
        lemma_rule_of(sorted, i);
        let window = loop_window(sorted);
        let recent = of_kind(Rule::Recent(sorted.last().epoch_seconds));
        assert forall|j: int| 0 <= j < window.len() implies !of_kind(Rule::Failure)(
            #[trigger] window[j],
        ) by {
            assert(sorted.filter(recent).contains(window[j]));
            sorted.lemma_filter_contains_rev(recent, window[j]);
            lemma_same_elements(events, by_time(), window[j]);
            let e = events.index_of(window[j]);
            assert(!fits(Rule::Failure, events[e]));
        }
        window.lemma_all_neg_filter_empty(of_kind(Rule::Failure));
    }
}

/// Where connections succeed again and again, no loop is reported.
pub proof fn lemma_successes_are_no_loop(events: Seq<EventModel>)
    requires
        successes(loop_window(sorting::arranged(events, by_time()))) > 1,
    ensures
        !reports(judged(events).findings, "reconnect_loop"@),
{
    let sorted = sorting::arranged(events, by_time());
    lemma_reports(events, "reconnect_loop"@);
    if reports(found(sorted), "reconnect_loop"@) {
        let all = found(sorted);
        let i = choose|i: int|
            0 <= i < all.len() && (#[trigger] all[i]).id == "reconnect_loop"@;
        lemma_rule_of(sorted, i);
    }
}

/// A key is called wrong beyond doubt only where two hints name the same
/// network: hints without a network stay a warning.
pub proof fn lemma_hints_without_a_network_stay_a_warning(events: Seq<EventModel>, i: int)
    requires
        forall|j: int|
            0 <= j < events.len() && fits(Rule::Hint, #[trigger] events[j]) ==> events[j].field(
                "SSID"@,
            ) is None,
        0 <= i < judged(events).findings.len(),
        judged(events).findings[i].id == "credential_mismatch"@,
    ensures
        judged(events).findings[i].severity == "warning"@,
{
    let sorted = sorting::arranged(events, by_time());
    let all = found(sorted);
    let finding = judged(events).findings[i];
    assert(judged(events).findings.contains(finding));
    lemma_same_elements(all, by_severity(), finding);
    let p = all.index_of(finding);
    lemma_rule_of(sorted, p);
    let hits = sorted.filter(of_kind(Rule::Hint));
    if corroborated(hits) {
        let j = choose|j: int| corroborated_at(hits, j);
        sorted.lemma_filter_pred(of_kind(Rule::Hint), j);
        assert(hits.contains(hits[j]));
        sorted.lemma_filter_contains_rev(of_kind(Rule::Hint), hits[j]);
        lemma_same_elements(events, by_time(), hits[j]);
        let e = events.index_of(hits[j]);
        assert(fits(Rule::Hint, events[e]));
    }
}

/// Data without names is never read as a history without faults.
pub proof fn lemma_unnamed_data_is_reported(events: Seq<EventModel>, i: int)
    requires
        0 <= i < events.len(),
        !events[i].named_fields,
    ensures
        reports(judged(events).findings, "event_fields_unnamed"@),
{
    let sorted = sorting::arranged(events, by_time());
    lemma_reports(events, "event_fields_unnamed"@);
    lemma_same_elements(events, by_time(), events[i]);
    assert(events.contains(events[i]));
    let p = sorted.index_of(events[i]);
    sorted.lemma_filter_contains(of_kind(Rule::Unnamed), p);
    let last = found(sorted).len() - 1;
    assert(unnamed_fields(sorted).len() == 1);
    assert(found(sorted)[last] == unnamed_fields(sorted)[0]);
}

/// An access point is blamed only where three of the failed key exchanges with
/// it come within the window.
pub proof fn lemma_spread_failures_blame_nobody(events: Seq<EventModel>)
    requires
        forall|peer: Seq<char>|
            !clustered(
                #[trigger] sorting::arranged(events, by_time()).filter(
                    of_kind(Rule::KeyFailure),
                ).filter(names_peer(peer)),
            ),
    ensures
        !reports(judged(events).findings, "access_point_key_exchange_failing"@),
{
    let sorted = sorting::arranged(events, by_time());
    let failures = sorted.filter(of_kind(Rule::KeyFailure));
    lemma_reports(events, "access_point_key_exchange_failing"@);
    lemma_nobody_blamed(failures, peers(failures));
    if reports(found(sorted), "access_point_key_exchange_failing"@) {
        let all = found(sorted);
        let i = choose|i: int|
            0 <= i < all.len() && (#[trigger] all[i]).id == "access_point_key_exchange_failing"@;
        lemma_rule_of(sorted, i);
    }
}

proof fn lemma_nobody_blamed(failures: Seq<EventModel>, names: Seq<Seq<char>>)
    requires
        forall|peer: Seq<char>| !clustered(#[trigger] failures.filter(names_peer(peer))),
    ensures
        access_point_findings(failures, names).len() == 0,
    decreases names.len(),
{
    if names.len() > 0 {
        lemma_nobody_blamed(failures, names.drop_last());
        assert(!clustered(failures.filter(names_peer(names.last()))));
    }
}

} // verus!

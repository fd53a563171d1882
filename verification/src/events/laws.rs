//! What a verdict has to do with the events that it judges, whatever the order
//! in which they come and however the rules pick them.
//!
//! Each law speaks of the event numbers, the times and the data fields of the
//! history itself: of how many of its events, and of which ones, are of a sort
//! that the law spells out.

use super::detect;
use super::detect::{by_time, found, judged, reports, FindingModel, Rule};
use super::EventModel;
use crate::counting;
use crate::json;
use crate::json::Json;
use crate::sorting;
use crate::text;
use vstd::prelude::*;

verus! {

// ---------------------------------------------------------------------------
// Findings and their details
// ---------------------------------------------------------------------------

/// What an object holds under a name.
pub open spec fn entry(detail: Json, name: Seq<char>) -> Option<Json> {
    match detail {
        Json::Object(members) => if members.dom().contains(name) {
            Some(members[name])
        } else {
            None
        },
        _ => None,
    }
}

/// Every finding of a verdict is one that the rules gave, and the other way
/// round.
proof fn lemma_finding_was_found(events: Seq<EventModel>, k: int)
    requires
        0 <= k < judged(events).findings.len(),
    ensures
        exists|i: int|
            0 <= i < found(sorting::arranged(events, by_time())).len() && found(
                sorting::arranged(events, by_time()),
            )[i] == judged(events).findings[k],
{
    let all = found(sorting::arranged(events, by_time()));
    let finding = judged(events).findings[k];
    assert(judged(events).findings.contains(finding));
    counting::lemma_sorting_keeps_elements(all, detect::by_severity(), finding);
    let i = all.index_of(finding);
    assert(all[i] == finding);
}

/// The four things that a history can say.
pub proof fn lemma_a_verdict_says_one_of_four_things(events: Seq<EventModel>, k: int)
    requires
        0 <= k < judged(events).findings.len(),
    ensures
        ({
            let id = judged(events).findings[k].id;
            id == "credential_mismatch"@ || id == "access_point_key_exchange_failing"@ || id
                == "reconnect_loop"@ || id == "event_fields_unnamed"@
        }),
{
    let sorted = sorting::arranged(events, by_time());
    lemma_finding_was_found(events, k);
    let i = choose|i: int|
        0 <= i < found(sorted).len() && found(sorted)[i] == judged(events).findings[k];
    detect::lemma_rule_of(sorted, i);
}

/// A verdict says how many events it considered, and how long the window is in
/// which it looks for loops.
pub proof fn lemma_a_verdict_says_what_it_rests_on(events: Seq<EventModel>)
    ensures
        judged(events).events_considered == events.len(),
        judged(events).window_seconds == 120,
{
}

// ---------------------------------------------------------------------------
// Loops of reconnects
// ---------------------------------------------------------------------------

/// Whether no event of a history comes more than two minutes after `event`.
pub open spec fn is_recent(events: Seq<EventModel>, event: EventModel) -> bool {
    forall|j: int|
        0 <= j < events.len() ==> (#[trigger] events[j]).epoch_seconds - event.epoch_seconds <= 120
}

/// The places of recent events with a number.
pub open spec fn recent_places(events: Seq<EventModel>, number: u32) -> Set<int> {
    Set::new(
        |i: int|
            0 <= i < events.len() && is_recent(events, events[i]) && events[i].event_id == number,
    )
}

/// Whether the event at `i` is recent and opens a session.
pub open spec fn opens(events: Seq<EventModel>, i: int, session: nat) -> bool {
    &&& 0 <= i < events.len()
    &&& is_recent(events, events[i])
    &&& events[i].event_id == 8000
    &&& events[i].session() == Some(session)
}

/// The sessions that recent events open.
pub open spec fn opened_sessions(events: Seq<EventModel>) -> Set<nat> {
    Set::new(|session: nat| exists|i: int| opens(events, i, session))
}

/// The places of recent events by which a connection failed, or went down
/// although neither the user nor a policy asked for it.
pub open spec fn faults(events: Seq<EventModel>) -> Set<int> {
    Set::new(
        |i: int|
            {
                &&& 0 <= i < events.len()
                &&& is_recent(events, events[i])
                &&& events[i].event_id == 8002 || events[i].event_id == 8003 && events[i].numeric(
                    "ReasonCode"@,
                ) != Some(3nat) && events[i].numeric("ReasonCode"@) != Some(5nat)
            },
    )
}

spec fn fault(events: Seq<EventModel>) -> spec_fn(EventModel) -> bool {
    |e: EventModel|
        is_recent(events, e) && (e.event_id == 8002 || e.event_id == 8003 && e.numeric(
            "ReasonCode"@,
        ) != Some(3nat) && e.numeric("ReasonCode"@) != Some(5nat))
}

spec fn numbered(events: Seq<EventModel>, number: u32) -> spec_fn(EventModel) -> bool {
    |e: EventModel| is_recent(events, e) && e.event_id == number
}

proof fn lemma_recent(events: Seq<EventModel>, e: EventModel)
    requires
        events.len() > 0,
    ensures
        detect::fits(
            Rule::Recent(sorting::arranged(events, by_time()).last().epoch_seconds),
            e,
        ) == is_recent(events, e),
{
    let sorted = sorting::arranged(events, by_time());
    sorting::lemma_arranged_ascends(events, by_time());
    let last = sorted.last();
    assert(sorted[sorted.len() - 1] == last);
    assert(sorted.contains(last));
    counting::lemma_sorting_keeps_elements(events, by_time(), last);
    let p = events.index_of(last);
    assert(events[p] == last);
    assert forall|j: int| 0 <= j < events.len() implies (#[trigger] events[j]).epoch_seconds
        <= last.epoch_seconds by {
        counting::lemma_sorting_keeps_elements(events, by_time(), events[j]);
        assert(events.contains(events[j]));
        let q = sorted.index_of(events[j]);
        if q < sorted.len() - 1 {
            assert(by_time()(sorted[q]) <= by_time()(sorted[sorted.len() - 1]));
        }
    }
}

/// What a rule picks out of the window, counted in the history itself.
proof fn lemma_picked(events: Seq<EventModel>, rule: Rule, p: spec_fn(EventModel) -> bool)
    requires
        events.len() > 0,
        forall|e: EventModel| #[trigger] p(e) == (is_recent(events, e) && detect::fits(rule, e)),
    ensures
        counting::places(events, p).finite(),
        detect::loop_window(sorting::arranged(events, by_time())).filter(
            detect::of_kind(rule),
        ).len() == counting::places(events, p).len(),
        detect::loop_window(sorting::arranged(events, by_time())).filter(detect::of_kind(rule))
            == sorting::arranged(events, by_time()).filter(p),
{
    let sorted = sorting::arranged(events, by_time());
    let recent = detect::of_kind(Rule::Recent(sorted.last().epoch_seconds));
    assert forall|e: EventModel| #[trigger] p(e) == (recent(e) && detect::of_kind(rule)(e)) by {
        lemma_recent(events, e);
    }
    counting::lemma_picks_combine(sorted, recent, detect::of_kind(rule), p);
    counting::lemma_sorting_keeps_counts(events, by_time(), p);
    counting::lemma_places_are_counted(events, p);
}

proof fn lemma_sessions(events: Seq<EventModel>, id: nat)
    ensures
        detect::sessions(events).contains(id) <==> exists|i: int|
            0 <= i < events.len() && (#[trigger] events[i]).session() == Some(id),
    decreases events.len(),
{
    if events.len() > 0 {
        let shorter = events.drop_last();
        lemma_sessions(shorter, id);
        assert(events.last() == events[events.len() - 1]);
        if exists|i: int| 0 <= i < shorter.len() && (#[trigger] shorter[i]).session() == Some(id) {
            let i = choose|i: int|
                0 <= i < shorter.len() && (#[trigger] shorter[i]).session() == Some(id);
            assert(events[i].session() == Some(id));
        }
        if exists|i: int| 0 <= i < events.len() && (#[trigger] events[i]).session() == Some(id) {
            let i = choose|i: int|
                0 <= i < events.len() && (#[trigger] events[i]).session() == Some(id);
            if i < events.len() - 1 {
                assert(shorter[i].session() == Some(id));
            }
        }
    }
}

proof fn lemma_attempts(events: Seq<EventModel>)
    requires
        events.len() > 0,
    ensures
        detect::attempts(detect::loop_window(sorting::arranged(events, by_time())))
            == opened_sessions(events).len(),
{
    let sorted = sorting::arranged(events, by_time());
    let window = detect::loop_window(sorted);
    let p = numbered(events, 8000);
    assert forall|e: EventModel| #[trigger] p(e) == (is_recent(events, e) && detect::fits(
        Rule::Attempt,
        e,
    )) by {}
    lemma_picked(events, Rule::Attempt, p);
    let opening = window.filter(detect::of_kind(Rule::Attempt));
    assert(opening == sorted.filter(p));
    assert forall|id: nat| #[trigger]
        detect::sessions(opening).contains(id) <==> opened_sessions(events).contains(id) by {
        lemma_sessions(opening, id);
        if detect::sessions(opening).contains(id) {
            let i = choose|i: int|
                0 <= i < opening.len() && (#[trigger] opening[i]).session() == Some(id);
            let e = opening[i];
            sorted.lemma_filter_pred(p, i);
            assert(sorted.filter(p).contains(e));
            sorted.lemma_filter_contains_rev(p, e);
            counting::lemma_sorting_keeps_elements(events, by_time(), e);
            let j = events.index_of(e);
            assert(opens(events, j, id));
        }
        if opened_sessions(events).contains(id) {
            let i = choose|i: int| opens(events, i, id);
            let e = events[i];
            assert(events.contains(e));
            counting::lemma_sorting_keeps_elements(events, by_time(), e);
            let j = sorted.index_of(e);
            assert(p(sorted[j]));
            sorted.lemma_filter_contains(p, j);
            let k = opening.index_of(e);
            assert(opening[k].session() == Some(id));
        }
    }
    assert(detect::sessions(opening) =~= opened_sessions(events));
}

proof fn lemma_loop_counts(events: Seq<EventModel>)
    requires
        events.len() > 0,
    ensures
        ({
            let window = detect::loop_window(sorting::arranged(events, by_time()));
            &&& detect::attempts(window) == opened_sessions(events).len()
            &&& detect::failures(window) == faults(events).len()
            &&& detect::successes(window) == recent_places(events, 8001).len()
        }),
{
    lemma_attempts(events);
    let f = fault(events);
    assert forall|e: EventModel| #[trigger] f(e) == (is_recent(events, e) && detect::fits(
        Rule::Failure,
        e,
    )) by {}
    lemma_picked(events, Rule::Failure, f);
    assert(counting::places(events, f) =~= faults(events));
    let s = numbered(events, 8001);
    assert forall|e: EventModel| #[trigger] s(e) == (is_recent(events, e) && detect::fits(
        Rule::Success,
        e,
    )) by {}
    lemma_picked(events, Rule::Success, s);
    assert(counting::places(events, s) =~= recent_places(events, 8001));
}

/// A loop is reported exactly where, within the last two minutes of a history,
/// three sessions are opened, three connections fail or go down unasked, and
/// at most one succeeds. It is critical from five sessions on, and gives the
/// three counts.
pub proof fn lemma_loops_are_reported(events: Seq<EventModel>)
    ensures
        ({
            let opened = opened_sessions(events).len();
            let failed = faults(events).len();
            let linked = recent_places(events, 8001).len();
            let findings = judged(events).findings;
            &&& reports(findings, "reconnect_loop"@) <==> opened >= 3 && failed >= 3 && linked <= 1
            &&& forall|k: int|
                0 <= k < findings.len() && (#[trigger] findings[k]).id == "reconnect_loop"@ ==> {
                    &&& findings[k].severity == (if opened >= 5 {
                        "critical"@
                    } else {
                        "warning"@
                    })
                    &&& entry(findings[k].detail, "attempts"@) == Some(json::number(opened))
                    &&& entry(findings[k].detail, "failures"@) == Some(json::number(failed))
                    &&& entry(findings[k].detail, "successes"@) == Some(json::number(linked))
                    &&& entry(findings[k].detail, "window_seconds"@) == Some(json::number(120))
                }
        }),
{
    let sorted = sorting::arranged(events, by_time());
    let findings = judged(events).findings;
    let id = "reconnect_loop"@;
    detect::lemma_reports(events, id);
    sorting::lemma_arranged_ascends(events, by_time());
    if events.len() > 0 {
        lemma_loop_counts(events);
    } else {
        assert(opened_sessions(events) =~= Set::empty());
    }
    let all = found(sorted);
    let at = (detect::credential_mismatch(sorted) + detect::bad_access_point(sorted)).len() as int;
    if detect::reconnect_loop(sorted).len() > 0 {
        assert(all[at] == detect::reconnect_loop(sorted)[0]);
        assert(all[at].id == id);
    }
    if reports(all, id) {
        let i = choose|i: int| 0 <= i < all.len() && (#[trigger] all[i]).id == id;
        detect::lemma_rule_of(sorted, i);
    }
    assert forall|k: int| 0 <= k < findings.len() && (#[trigger] findings[k]).id == id implies {
        &&& findings[k].severity == (if opened_sessions(events).len() >= 5 {
            "critical"@
        } else {
            "warning"@
        })
        &&& entry(findings[k].detail, "attempts"@) == Some(
            json::number(opened_sessions(events).len()),
        )
        &&& entry(findings[k].detail, "failures"@) == Some(json::number(faults(events).len()))
        &&& entry(findings[k].detail, "successes"@) == Some(
            json::number(recent_places(events, 8001).len()),
        )
        &&& entry(findings[k].detail, "window_seconds"@) == Some(json::number(120))
    } by {
        lemma_finding_was_found(events, k);
        let i = choose|i: int| 0 <= i < all.len() && all[i] == findings[k];
        detect::lemma_rule_of(sorted, i);
        lemma_names_differ();
    }
}

proof fn lemma_names_differ()
    ensures
        "attempts"@ != "failures"@,
        "attempts"@ != "successes"@,
        "attempts"@ != "window_seconds"@,
        "attempts"@ != "reason_codes"@,
        "failures"@ != "successes"@,
        "failures"@ != "window_seconds"@,
        "failures"@ != "reason_codes"@,
        "failures"@ != "peer_mac"@,
        "peer_mac"@ != "reason_codes"@,
        "successes"@ != "window_seconds"@,
        "successes"@ != "reason_codes"@,
        "window_seconds"@ != "reason_codes"@,
        "occurrences"@ != "ssid"@,
        "occurrences"@ != "first_seen"@,
        "ssid"@ != "first_seen"@,
        "unnamed"@ != "total"@,
        "critical"@ != "warning"@,
{
    reveal_strlit("attempts");
    reveal_strlit("failures");
    reveal_strlit("successes");
    reveal_strlit("window_seconds");
    reveal_strlit("reason_codes");
    reveal_strlit("peer_mac");
    reveal_strlit("occurrences");
    reveal_strlit("ssid");
    reveal_strlit("first_seen");
    reveal_strlit("unnamed");
    reveal_strlit("total");
    reveal_strlit("critical");
    reveal_strlit("warning");
    assert("attempts"@[0] == 'a');
    assert("failures"@[0] == 'f');
    assert("peer_mac"@[0] == 'p');
    assert("critical"@.len() == 8);
    assert("successes"@.len() == 9);
    assert("window_seconds"@.len() == 14);
    assert("reason_codes"@.len() == 12);
    assert("occurrences"@.len() == 11);
    assert("ssid"@.len() == 4);
    assert("first_seen"@.len() == 10);
    assert("unnamed"@.len() == 7);
    assert("total"@.len() == 5);
    assert("warning"@.len() == 7);
}

// ---------------------------------------------------------------------------
// Keys that look wrong
// ---------------------------------------------------------------------------

/// Whether an event is a security teardown with the hint that the key is wrong.
pub open spec fn is_hint(event: EventModel) -> bool {
    event.event_id == 11004 && event.numeric("SecurityHintCode"@) == Some(294_932nat)
}

/// The places of hints that the key is wrong.
pub open spec fn hints(events: Seq<EventModel>) -> Set<int> {
    Set::new(|i: int| 0 <= i < events.len() && is_hint(events[i]))
}

/// The places of hints that name a network and come within two minutes from
/// `from` on.
pub open spec fn hints_within(events: Seq<EventModel>, network: Seq<char>, from: int) -> Set<int> {
    Set::new(
        |i: int|
            {
                &&& 0 <= i < events.len()
                &&& is_hint(events[i])
                &&& events[i].field("SSID"@) == Some(network)
                &&& from <= events[i].epoch_seconds <= from + 120
            },
    )
}

/// Whether the event at `i` is the hint that came first.
pub open spec fn is_first_hint(events: Seq<EventModel>, i: int) -> bool {
    &&& 0 <= i < events.len()
    &&& is_hint(events[i])
    &&& forall|j: int|
        0 <= j < events.len() && is_hint(#[trigger] events[j]) ==> events[i].epoch_seconds
            <= events[j].epoch_seconds
}

spec fn hint() -> spec_fn(EventModel) -> bool {
    |e: EventModel| is_hint(e)
}

spec fn hint_between(network: Seq<char>, from: int) -> spec_fn(EventModel) -> bool {
    |e: EventModel|
        e.field("SSID"@) == Some(network) && from <= e.epoch_seconds <= from + 120
}

spec fn full_hint_between(network: Seq<char>, from: int) -> spec_fn(EventModel) -> bool {
    |e: EventModel|
        is_hint(e) && (e.field("SSID"@) == Some(network) && from <= e.epoch_seconds <= from + 120)
}

/// The hints of a history in the order of time.
spec fn ordered_hints(events: Seq<EventModel>) -> Seq<EventModel> {
    sorting::arranged(events, by_time()).filter(detect::of_kind(Rule::Hint))
}

proof fn lemma_hints(events: Seq<EventModel>)
    ensures
        ordered_hints(events) == sorting::arranged(events, by_time()).filter(hint()),
        ordered_hints(events).len() == hints(events).len(),
        hints(events).finite(),
        sorting::ascends(ordered_hints(events), by_time()),
        forall|e: EventModel| #[trigger]
            ordered_hints(events).contains(e) <==> events.contains(e) && is_hint(e),
{
    let sorted = sorting::arranged(events, by_time());
    counting::lemma_same_picks(sorted, detect::of_kind(Rule::Hint), hint());
    counting::lemma_sorting_keeps_counts(events, by_time(), hint());
    counting::lemma_places_are_counted(events, hint());
    assert(counting::places(events, hint()) =~= hints(events));
    sorting::lemma_arranged_ascends(events, by_time());
    counting::lemma_picks_ascend(sorted, hint(), by_time());
    assert forall|e: EventModel| #[trigger]
        ordered_hints(events).contains(e) <==> events.contains(e) && is_hint(e) by {
        counting::lemma_sorting_keeps_elements(events, by_time(), e);
        counting::lemma_picked_elements(sorted, hint(), e);
    }
}

proof fn lemma_hints_within(events: Seq<EventModel>, network: Seq<char>, from: int)
    ensures
        hints_within(events, network, from).len() == counting::places(
            ordered_hints(events),
            hint_between(network, from),
        ).len(),
{
    lemma_hints(events);
    let sorted = sorting::arranged(events, by_time());
    let p = full_hint_between(network, from);
    counting::lemma_picks_combine(sorted, hint(), hint_between(network, from), p);
    counting::lemma_sorting_keeps_counts(events, by_time(), p);
    counting::lemma_places_are_counted(events, p);
    counting::lemma_places_are_counted(ordered_hints(events), hint_between(network, from));
    assert(counting::places(events, p) =~= hints_within(events, network, from));
}

/// A wrong key is suspected exactly where a teardown hints at it. How many do is
/// said, and what network the first one names and when it came.
pub proof fn lemma_hints_are_reported(events: Seq<EventModel>)
    ensures
        ({
            let findings = judged(events).findings;
            &&& reports(findings, "credential_mismatch"@) <==> exists|i: int|
                0 <= i < events.len() && is_hint(#[trigger] events[i])
            &&& forall|k: int|
                0 <= k < findings.len() && (#[trigger] findings[k]).id == "credential_mismatch"@
                    ==> {
                    &&& entry(findings[k].detail, "occurrences"@) == Some(
                        json::number(hints(events).len()),
                    )
                    &&& exists|i: int| #[trigger]
                        is_first_hint(events, i) && entry(findings[k].detail, "first_seen"@)
                            == Some(Json::Text(events[i].time_created)) && entry(
                            findings[k].detail,
                            "ssid"@,
                        ) == Some(
                            match events[i].field("SSID"@) {
                                Some(network) => Json::Text(network),
                                None => Json::Null,
                            },
                        )
                }
        }),
{
    let sorted = sorting::arranged(events, by_time());
    let findings = judged(events).findings;
    let id = "credential_mismatch"@;
    let hits = ordered_hints(events);
    lemma_hints(events);
    detect::lemma_reports(events, id);
    let all = found(sorted);
    if exists|i: int| 0 <= i < events.len() && is_hint(#[trigger] events[i]) {
        let i = choose|i: int| 0 <= i < events.len() && is_hint(#[trigger] events[i]);
        assert(events.contains(events[i]));
        assert(hits.contains(events[i]));
        assert(all[0] == detect::credential_mismatch(sorted)[0]);
        assert(all[0].id == id);
    }
    if reports(all, id) {
        let i = choose|i: int| 0 <= i < all.len() && (#[trigger] all[i]).id == id;
        detect::lemma_rule_of(sorted, i);
        assert(hits.contains(hits[0]));
        let e = events.index_of(hits[0]);
        assert(is_hint(events[e]));
    }
    assert forall|k: int| 0 <= k < findings.len() && (#[trigger] findings[k]).id == id implies {
        &&& entry(findings[k].detail, "occurrences"@) == Some(json::number(hints(events).len()))
        &&& exists|i: int| #[trigger]
            is_first_hint(events, i) && entry(findings[k].detail, "first_seen"@) == Some(
                Json::Text(events[i].time_created),
            ) && entry(findings[k].detail, "ssid"@) == Some(
                match events[i].field("SSID"@) {
                    Some(network) => Json::Text(network),
                    None => Json::Null,
                },
            )
    } by {
        lemma_finding_was_found(events, k);
        let p = choose|p: int| 0 <= p < all.len() && all[p] == findings[k];
        detect::lemma_rule_of(sorted, p);
        lemma_names_differ();
        assert(hits.contains(hits[0]));
        let i = events.index_of(hits[0]);
        assert forall|j: int| 0 <= j < events.len() && is_hint(
            #[trigger] events[j],
        ) implies events[i].epoch_seconds <= events[j].epoch_seconds by {
            assert(events.contains(events[j]));
            assert(hits.contains(events[j]));
            let q = hits.index_of(events[j]);
            if q > 0 {
                assert(by_time()(hits[0]) <= by_time()(hits[q]));
            }
        }
        assert(is_first_hint(events, i));
    }
}

/// The key is called wrong beyond doubt only where two hints within two minutes
/// name the same network, and it is where all hints name that one.
pub proof fn lemma_repeated_hints_are_critical(events: Seq<EventModel>, network: Seq<char>, k: int)
    requires
        0 <= k < judged(events).findings.len(),
        judged(events).findings[k].id == "credential_mismatch"@,
    ensures
        ({
            let severity = judged(events).findings[k].severity;
            &&& severity == "critical"@ || severity == "warning"@
            &&& severity == "critical"@ ==> exists|named: Seq<char>, from: int|
                (#[trigger] hints_within(events, named, from)).len() >= 2
            &&& (forall|i: int|
                0 <= i < events.len() && is_hint(#[trigger] events[i]) ==> events[i].field("SSID"@)
                    == Some(network)) && (exists|from: int|
                (#[trigger] hints_within(events, network, from)).len() >= 2) ==> severity
                == "critical"@
        }),
{
    let sorted = sorting::arranged(events, by_time());
    let all = found(sorted);
    let hits = ordered_hints(events);
    let severity = judged(events).findings[k].severity;
    lemma_hints(events);
    lemma_names_differ();
    lemma_finding_was_found(events, k);
    let p = choose|p: int| 0 <= p < all.len() && all[p] == judged(events).findings[k];
    detect::lemma_rule_of(sorted, p);
    if severity == "critical"@ {
        assert(detect::corroborated(hits));
        let i = choose|i: int| detect::corroborated_at(hits, i);
        let named = hits[i].field("SSID"@)->0;
        let from = hits[i].epoch_seconds as int;
        assert(by_time()(hits[i]) <= by_time()(hits[i + 1]));
        let q = hint_between(named, from);
        lemma_hints_within(events, named, from);
        assert(q(hits[i]) && q(hits[i + 1]));
        counting::lemma_two_places(hits, q, i, i + 1);
        assert(hints_within(events, named, from).len() >= 2);
    }
    if (forall|i: int|
        0 <= i < events.len() && is_hint(#[trigger] events[i]) ==> events[i].field("SSID"@) == Some(
            network,
        )) && (exists|from: int| (#[trigger] hints_within(events, network, from)).len() >= 2) {
        let from = choose|from: int| (#[trigger] hints_within(events, network, from)).len() >= 2;
        let q = hint_between(network, from);
        lemma_hints_within(events, network, from);
        let (a, b) = counting::lemma_two_of(hits, q);
        assert(by_time()(hits[a]) <= by_time()(hits[a + 1]));
        if a + 1 < b {
            assert(by_time()(hits[a + 1]) <= by_time()(hits[b]));
        }
        assert(hits.contains(hits[a + 1]) && hits.contains(hits[a]));
        let e = events.index_of(hits[a]);
        let f = events.index_of(hits[a + 1]);
        assert(events[e].field("SSID"@) == Some(network));
        assert(events[f].field("SSID"@) == Some(network));
        assert(detect::corroborated_at(hits, a));
    }
}

// ---------------------------------------------------------------------------
// Access points that fail
// ---------------------------------------------------------------------------

/// The places of failed key exchanges with an access point.
pub open spec fn exchanges(events: Seq<EventModel>, peer: Seq<char>) -> Set<int> {
    Set::new(
        |i: int|
            0 <= i < events.len() && events[i].event_id == 11006 && events[i].field("PeerMac"@)
                == Some(peer),
    )
}

/// The places of those that come within five minutes from `from` on.
pub open spec fn exchanges_within(events: Seq<EventModel>, peer: Seq<char>, from: int) -> Set<int> {
    Set::new(
        |i: int|
            {
                &&& 0 <= i < events.len()
                &&& events[i].event_id == 11006
                &&& events[i].field("PeerMac"@) == Some(peer)
                &&& from <= events[i].epoch_seconds <= from + 300
            },
    )
}

/// Whether a finding blames an access point.
pub open spec fn blames(finding: FindingModel, peer: Seq<char>) -> bool {
    finding.id == "access_point_key_exchange_failing"@ && entry(finding.detail, "peer_mac"@)
        == Some(Json::Text(peer))
}

spec fn exchange(peer: Seq<char>) -> spec_fn(EventModel) -> bool {
    |e: EventModel| e.event_id == 11006 && e.field("PeerMac"@) == Some(peer)
}

spec fn between(from: int) -> spec_fn(i64) -> bool {
    |t: i64| from <= t <= from + 300
}

spec fn event_between(from: int) -> spec_fn(EventModel) -> bool {
    |e: EventModel| from <= e.epoch_seconds <= from + 300
}

spec fn exchange_between(peer: Seq<char>, from: int) -> spec_fn(EventModel) -> bool {
    |e: EventModel|
        (e.event_id == 11006 && e.field("PeerMac"@) == Some(peer)) && (from <= e.epoch_seconds
            <= from + 300)
}

/// The failures with an access point that the rule looks at.
spec fn own(events: Seq<EventModel>, peer: Seq<char>) -> Seq<EventModel> {
    sorting::arranged(events, by_time()).filter(detect::of_kind(Rule::KeyFailure)).filter(
        detect::names_peer(peer),
    )
}

proof fn lemma_own(events: Seq<EventModel>, peer: Seq<char>, from: int)
    ensures
        own(events, peer).len() == exchanges(events, peer).len(),
        exchanges(events, peer).finite(),
        exchanges_within(events, peer, from).len() == counting::places(
            detect::ascending_times(own(events, peer)),
            between(from),
        ).len(),
{
    let sorted = sorting::arranged(events, by_time());
    let p = exchange(peer);
    let q = exchange_between(peer, from);
    let mine = own(events, peer);
    counting::lemma_picks_combine(
        sorted,
        detect::of_kind(Rule::KeyFailure),
        detect::names_peer(peer),
        p,
    );
    counting::lemma_sorting_keeps_counts(events, by_time(), p);
    counting::lemma_places_are_counted(events, p);
    assert(counting::places(events, p) =~= exchanges(events, peer));
    counting::lemma_picks_combine(sorted, p, event_between(from), q);
    counting::lemma_sorting_keeps_counts(events, by_time(), q);
    counting::lemma_places_are_counted(events, q);
    assert(counting::places(events, q) =~= exchanges_within(events, peer, from));
    let times = detect::times(mine);
    counting::lemma_sorting_keeps_counts(times, detect::by_value(), between(from));
    counting::lemma_places_are_counted(times, between(from));
    counting::lemma_places_are_counted(detect::ascending_times(mine), between(from));
    counting::lemma_places_are_counted(mine, event_between(from));
    assert(counting::places(times, between(from)) =~= counting::places(
        mine,
        event_between(from),
    )) by {
        assert forall|i: int| 0 <= i < mine.len() implies #[trigger] times[i]
            == mine[i].epoch_seconds by {}
    }
}

proof fn lemma_clusters(events: Seq<EventModel>, peer: Seq<char>)
    ensures
        detect::clustered(own(events, peer)) <==> exists|from: int|
            (#[trigger] exchanges_within(events, peer, from)).len() >= 3,
{
    let mine = own(events, peer);
    let times = detect::ascending_times(mine);
    sorting::lemma_arranged_ascends(detect::times(mine), detect::by_value());
    if detect::clustered(mine) {
        let i = choose|i: int| detect::clustered_at(times, i);
        let from = times[i] as int;
        lemma_own(events, peer, from);
        assert(detect::by_value()(times[i]) <= detect::by_value()(times[i + 1]));
        assert(detect::by_value()(times[i + 1]) <= detect::by_value()(times[i + 2]));
        counting::lemma_three_places(times, between(from), i);
        assert(exchanges_within(events, peer, from).len() >= 3);
    }
    if exists|from: int| (#[trigger] exchanges_within(events, peer, from)).len() >= 3 {
        let from = choose|from: int| (#[trigger] exchanges_within(events, peer, from)).len() >= 3;
        lemma_own(events, peer, from);
        let (a, b) = counting::lemma_three_of(times, between(from));
        assert(detect::by_value()(times[a]) <= detect::by_value()(times[a + 2]));
        if a + 2 < b {
            assert(detect::by_value()(times[a + 2]) <= detect::by_value()(times[b]));
        }
        assert(detect::clustered_at(times, a));
    }
}

proof fn lemma_peers(failures: Seq<EventModel>, peer: Seq<char>)
    ensures
        detect::peers(failures).contains(peer) <==> exists|i: int|
            0 <= i < failures.len() && (#[trigger] failures[i]).field("PeerMac"@) == Some(peer),
    decreases failures.len(),
{
    if failures.len() > 0 {
        let shorter = failures.drop_last();
        let before = detect::peers(shorter);
        lemma_peers(shorter, peer);
        assert(failures.last() == failures[failures.len() - 1]);
        if exists|i: int|
            0 <= i < shorter.len() && (#[trigger] shorter[i]).field("PeerMac"@) == Some(peer) {
            let i = choose|i: int|
                0 <= i < shorter.len() && (#[trigger] shorter[i]).field("PeerMac"@) == Some(peer);
            assert(failures[i].field("PeerMac"@) == Some(peer));
        }
        if exists|i: int|
            0 <= i < failures.len() && (#[trigger] failures[i]).field("PeerMac"@) == Some(peer) {
            let i = choose|i: int|
                0 <= i < failures.len() && (#[trigger] failures[i]).field("PeerMac"@) == Some(peer);
            if i < failures.len() - 1 {
                assert(shorter[i].field("PeerMac"@) == Some(peer));
            }
        }
        match failures.last().field("PeerMac"@) {
            Some(name) => if !before.contains(name) {
                let at = detect::name_slot(before, name);
                lemma_name_slot(before, name);
                let after = before.insert(at, name);
                assert(after[at] == name);
                if before.contains(peer) {
                    let i = before.index_of(peer);
                    assert(after[if i < at {
                        i
                    } else {
                        i + 1
                    }] == peer);
                }
                if after.contains(peer) && peer != name {
                    let i = after.index_of(peer);
                    assert(before[if i < at {
                        i
                    } else {
                        i - 1
                    }] == peer);
                }
            },
            None => {},
        }
    }
}

proof fn lemma_name_slot(names: Seq<Seq<char>>, name: Seq<char>)
    ensures
        0 <= detect::name_slot(names, name) <= names.len(),
    decreases names.len(),
{
    if names.len() > 0 {
        lemma_name_slot(names.drop_last(), name);
    }
}

proof fn lemma_blamed(failures: Seq<EventModel>, names: Seq<Seq<char>>, peer: Seq<char>)
    ensures
        names.contains(peer) && detect::clustered(failures.filter(detect::names_peer(peer)))
            ==> detect::access_point_findings(failures, names).contains(
            detect::access_point_finding(failures.filter(detect::names_peer(peer)), peer),
        ),
        forall|k: int|
            0 <= k < detect::access_point_findings(failures, names).len() ==> exists|name: Seq<
                char,
            >|
                {
                    &&& #[trigger] names.contains(name)
                    &&& detect::clustered(failures.filter(detect::names_peer(name)))
                    &&& #[trigger] detect::access_point_findings(failures, names)[k]
                        == detect::access_point_finding(
                        failures.filter(detect::names_peer(name)),
                        name,
                    )
                },
    decreases names.len(),
{
    let all = detect::access_point_findings(failures, names);
    if names.len() > 0 {
        let fewer = names.drop_last();
        let last = names.last();
        let before = detect::access_point_findings(failures, fewer);
        let mine = failures.filter(detect::names_peer(last));
        lemma_blamed(failures, fewer, peer);
        assert(names[names.len() - 1] == last);
        let finding = detect::access_point_finding(
            failures.filter(detect::names_peer(peer)),
            peer,
        );
        if names.contains(peer) && detect::clustered(failures.filter(detect::names_peer(peer))) {
            if peer == last {
                assert(all[all.len() - 1] == finding);
            } else {
                let i = names.index_of(peer);
                assert(fewer[i] == peer);
                let j = before.index_of(finding);
                assert(all[j] == finding);
            }
        }
        assert forall|k: int| 0 <= k < all.len() implies exists|name: Seq<char>|
            {
                &&& #[trigger] names.contains(name)
                &&& detect::clustered(failures.filter(detect::names_peer(name)))
                &&& #[trigger] all[k] == detect::access_point_finding(
                    failures.filter(detect::names_peer(name)),
                    name,
                )
            } by {
            if k < before.len() {
                assert(before[k] == all[k]);
                let name = choose|name: Seq<char>|
                    {
                        &&& #[trigger] fewer.contains(name)
                        &&& detect::clustered(failures.filter(detect::names_peer(name)))
                        &&& before[k] == detect::access_point_finding(
                            failures.filter(detect::names_peer(name)),
                            name,
                        )
                    };
                let i = fewer.index_of(name);
                assert(names[i] == name);
                assert(names.contains(name));
            } else {
                assert(names.contains(last));
            }
        }
    }
}

proof fn lemma_key_failures_named(events: Seq<EventModel>, peer: Seq<char>)
    ensures
        ({
            let failures = sorting::arranged(events, by_time()).filter(
                detect::of_kind(Rule::KeyFailure),
            );
            own(events, peer).len() > 0 ==> detect::peers(failures).contains(peer)
        }),
{
    let failures = sorting::arranged(events, by_time()).filter(detect::of_kind(Rule::KeyFailure));
    let mine = failures.filter(detect::names_peer(peer));
    lemma_peers(failures, peer);
    if mine.len() > 0 {
        failures.lemma_filter_pred(detect::names_peer(peer), 0);
        assert(mine.contains(mine[0]));
        failures.lemma_filter_contains_rev(detect::names_peer(peer), mine[0]);
        let i = failures.index_of(mine[0]);
        assert(failures[i].field("PeerMac"@) == Some(peer));
    }
}

/// An access point is blamed exactly where three failed key exchanges with it,
/// and with no other, come within five minutes. That is always critical, and all
/// failures with it are counted.
pub proof fn lemma_access_points_are_blamed(events: Seq<EventModel>, peer: Seq<char>)
    ensures
        ({
            let findings = judged(events).findings;
            &&& (exists|k: int| 0 <= k < findings.len() && blames(#[trigger] findings[k], peer))
                <==> exists|from: int|
                (#[trigger] exchanges_within(events, peer, from)).len() >= 3
            &&& forall|k: int|
                0 <= k < findings.len() && blames(#[trigger] findings[k], peer) ==> {
                    &&& findings[k].severity == "critical"@
                    &&& entry(findings[k].detail, "failures"@) == Some(
                        json::number(exchanges(events, peer).len()),
                    )
                }
        }),
{
    let sorted = sorting::arranged(events, by_time());
    let findings = judged(events).findings;
    let all = found(sorted);
    let failures = sorted.filter(detect::of_kind(Rule::KeyFailure));
    let names = detect::peers(failures);
    let mine = own(events, peer);
    let blamed = detect::access_point_findings(failures, names);
    lemma_own(events, peer, 0);
    lemma_clusters(events, peer);
    lemma_blamed(failures, names, peer);
    lemma_key_failures_named(events, peer);
    lemma_names_differ();
    detect::lemma_ids_differ();
    if detect::clustered(mine) {
        assert(mine.len() >= 3) by {
            sorting::lemma_arranged_ascends(detect::times(mine), detect::by_value());
        }
        let finding = detect::access_point_finding(mine, peer);
        let i = blamed.index_of(finding);
        assert(all[detect::credential_mismatch(sorted).len() + i] == finding);
        assert(all.contains(finding));
        counting::lemma_sorting_keeps_elements(all, detect::by_severity(), finding);
        let k = findings.index_of(finding);
        assert(blames(findings[k], peer));
    }
    assert forall|k: int| 0 <= k < findings.len() && blames(#[trigger] findings[k], peer) implies {
        &&& findings[k].severity == "critical"@
        &&& entry(findings[k].detail, "failures"@) == Some(
            json::number(exchanges(events, peer).len()),
        )
        &&& detect::clustered(mine)
    } by {
        lemma_finding_was_found(events, k);
        let p = choose|p: int| 0 <= p < all.len() && all[p] == findings[k];
        detect::lemma_rule_of(sorted, p);
        let i = blamed.index_of(findings[k]);
        assert(blamed[i] == findings[k]);
        let name = choose|name: Seq<char>|
            {
                &&& #[trigger] names.contains(name)
                &&& detect::clustered(failures.filter(detect::names_peer(name)))
                &&& blamed[i] == detect::access_point_finding(
                    failures.filter(detect::names_peer(name)),
                    name,
                )
            };
        assert(entry(blamed[i].detail, "peer_mac"@) == Some(Json::Text(name)));
        assert(name == peer);
    }
}

// ---------------------------------------------------------------------------
// Data without names
// ---------------------------------------------------------------------------

/// The places of events whose data has no names.
pub open spec fn nameless(events: Seq<EventModel>) -> Set<int> {
    Set::new(|i: int| 0 <= i < events.len() && !events[i].named_fields)
}

spec fn without_names() -> spec_fn(EventModel) -> bool {
    |e: EventModel| !e.named_fields
}

/// Data without names is reported exactly where there is some, as a warning,
/// with how many events have such data and how many there are.
pub proof fn lemma_nameless_data_is_counted(events: Seq<EventModel>)
    ensures
        ({
            let findings = judged(events).findings;
            &&& reports(findings, "event_fields_unnamed"@) <==> nameless(events).len() > 0
            &&& forall|k: int|
                0 <= k < findings.len() && (#[trigger] findings[k]).id == "event_fields_unnamed"@
                    ==> {
                    &&& findings[k].severity == "warning"@
                    &&& entry(findings[k].detail, "unnamed"@) == Some(
                        json::number(nameless(events).len()),
                    )
                    &&& entry(findings[k].detail, "total"@) == Some(json::number(events.len()))
                }
        }),
{
    let sorted = sorting::arranged(events, by_time());
    let findings = judged(events).findings;
    let id = "event_fields_unnamed"@;
    let all = found(sorted);
    detect::lemma_reports(events, id);
    sorting::lemma_arranged_ascends(events, by_time());
    counting::lemma_same_picks(sorted, detect::of_kind(Rule::Unnamed), without_names());
    counting::lemma_sorting_keeps_counts(events, by_time(), without_names());
    counting::lemma_places_are_counted(events, without_names());
    assert(counting::places(events, without_names()) =~= nameless(events));
    if detect::unnamed_fields(sorted).len() > 0 {
        assert(all[all.len() - 1] == detect::unnamed_fields(sorted)[0]);
    }
    if reports(all, id) {
        let i = choose|i: int| 0 <= i < all.len() && (#[trigger] all[i]).id == id;
        detect::lemma_rule_of(sorted, i);
    }
    assert forall|k: int| 0 <= k < findings.len() && (#[trigger] findings[k]).id == id implies {
        &&& findings[k].severity == "warning"@
        &&& entry(findings[k].detail, "unnamed"@) == Some(json::number(nameless(events).len()))
        &&& entry(findings[k].detail, "total"@) == Some(json::number(events.len()))
    } by {
        lemma_finding_was_found(events, k);
        let p = choose|p: int| 0 <= p < all.len() && all[p] == findings[k];
        detect::lemma_rule_of(sorted, p);
        lemma_names_differ();
    }
}

// ---------------------------------------------------------------------------
// Order, titles and reasons
// ---------------------------------------------------------------------------

/// No warning comes before what is critical.
pub proof fn lemma_critical_findings_come_first(events: Seq<EventModel>, k: int, l: int)
    requires
        0 <= k < l < judged(events).findings.len(),
        judged(events).findings[l].severity == "critical"@,
    ensures
        judged(events).findings[k].severity == "critical"@,
{
    lemma_names_differ();
    detect::lemma_findings_by_severity(events, k, l);
}

/// How far a finding is from the cause: a wrong key, an access point that
/// fails, reconnects, and data without names.
pub open spec fn distance() -> spec_fn(FindingModel) -> int {
    |finding: FindingModel|
        if finding.id == "credential_mismatch"@ {
            0
        } else if finding.id == "access_point_key_exchange_failing"@ {
            1
        } else if finding.id == "reconnect_loop"@ {
            2
        } else {
            3
        }
}

/// What tells whether a finding is of a severity.
pub open spec fn of_severity(severity: Seq<char>) -> spec_fn(FindingModel) -> bool {
    |finding: FindingModel| finding.severity == severity
}

/// Among findings of one severity causes come before symptoms.
pub proof fn lemma_causes_come_before_symptoms(events: Seq<EventModel>)
    ensures
        sorting::ascends(
            judged(events).findings.filter(of_severity("critical"@)),
            distance(),
        ),
        sorting::ascends(judged(events).findings.filter(of_severity("warning"@)), distance()),
{
    let sorted = sorting::arranged(events, by_time());
    let all = found(sorted);
    let findings = judged(events).findings;
    let first = detect::credential_mismatch(sorted);
    let second = detect::bad_access_point(sorted);
    let third = detect::reconnect_loop(sorted);
    let fourth = detect::unnamed_fields(sorted);
    let failures = sorted.filter(detect::of_kind(Rule::KeyFailure));
    detect::lemma_ids_differ();
    lemma_names_differ();
    let place = |i: int|
        if i < first.len() {
            0
        } else if i < first.len() + second.len() {
            1
        } else if i < first.len() + second.len() + third.len() {
            2
        } else {
            3int
        };
    assert forall|i: int| 0 <= i < all.len() implies distance()(#[trigger] all[i]) == place(i) by {
        if i < first.len() {
            assert(all[i] == first[i]);
        } else if i < first.len() + second.len() {
            assert(all[i] == second[i - first.len()]);
            detect::lemma_access_point_ids(failures, detect::peers(failures), i - first.len());
        } else if i < first.len() + second.len() + third.len() {
            assert(all[i] == third[i - first.len() - second.len()]);
        } else {
            assert(all[i] == fourth[i - first.len() - second.len() - third.len()]);
        }
    }
    assert(sorting::ascends(all, distance()));
    lemma_order_within(all, findings, "critical"@, 0);
    lemma_order_within(all, findings, "warning"@, 1);
}

proof fn lemma_order_within(
    all: Seq<FindingModel>,
    findings: Seq<FindingModel>,
    severity: Seq<char>,
    k: int,
)
    requires
        findings == sorting::arranged(all, detect::by_severity()),
        sorting::ascends(all, distance()),
        forall|f: FindingModel| #[trigger]
            detect::by_severity()(f) == k <==> f.severity == severity,
    ensures
        sorting::ascends(findings.filter(of_severity(severity)), distance()),
{
    let key = detect::by_severity();
    sorting::lemma_arranged_is_stable(all, key, k);
    assert forall|i: int| 0 <= i < findings.len() implies sorting::has_key(key, k)(
        #[trigger] findings[i],
    ) == of_severity(severity)(findings[i]) by {
        assert(key(findings[i]) == k <==> findings[i].severity == severity);
    }
    counting::lemma_same_picks(findings, sorting::has_key(key, k), of_severity(severity));
    counting::lemma_picks_ascend(all, sorting::has_key(key, k), distance());
}

/// Titles give the counts.
pub proof fn lemma_titles_give_the_counts(events: Seq<EventModel>, k: int)
    requires
        0 <= k < judged(events).findings.len(),
    ensures
        ({
            let finding = judged(events).findings[k];
            &&& finding.id == "credential_mismatch"@ ==> finding.title == text::decimal(
                hints(events).len(),
            ) + " security teardowns report a suspected PSK mismatch"@
            &&& finding.id == "reconnect_loop"@ ==> finding.title == text::decimal(
                opened_sessions(events).len(),
            ) + " connection attempts and "@ + text::decimal(faults(events).len())
                + " failures in "@ + text::decimal(120) + "s"@
            &&& finding.id == "event_fields_unnamed"@ ==> finding.title == text::decimal(
                nameless(events).len(),
            ) + " events rendered without named fields"@
        }),
{
    let sorted = sorting::arranged(events, by_time());
    let all = found(sorted);
    lemma_finding_was_found(events, k);
    let i = choose|i: int| 0 <= i < all.len() && all[i] == judged(events).findings[k];
    detect::lemma_rule_of(sorted, i);
    detect::lemma_ids_differ();
    lemma_hints(events);
    sorting::lemma_arranged_ascends(events, by_time());
    if events.len() > 0 {
        lemma_loop_counts(events);
    }
    counting::lemma_same_picks(sorted, detect::of_kind(Rule::Unnamed), without_names());
    counting::lemma_sorting_keeps_counts(events, by_time(), without_names());
    counting::lemma_places_are_counted(events, without_names());
    assert(counting::places(events, without_names()) =~= nameless(events));
}

/// A number is among the reasons that events give exactly where one of them
/// gives it.
proof fn lemma_reasons(events: Seq<EventModel>, code: nat)
    ensures
        detect::reason_codes(events).contains(json::number(code)) <==> exists|i: int|
            0 <= i < events.len() && (#[trigger] events[i]).numeric("ReasonCode"@) == Some(code),
    decreases events.len(),
{
    if events.len() > 0 {
        let shorter = events.drop_last();
        let last = events.len() - 1;
        let before = detect::reason_codes(shorter);
        let all = detect::reason_codes(events);
        lemma_reasons(shorter, code);
        assert(events[last] == events.last());
        assert forall|i: int| 0 <= i < last implies #[trigger] shorter[i] == events[i] by {}
        if before.contains(json::number(code)) {
            let i = choose|i: int|
                0 <= i < shorter.len() && (#[trigger] shorter[i]).numeric("ReasonCode"@) == Some(
                    code,
                );
            assert(events[i].numeric("ReasonCode"@) == Some(code));
            let j = before.index_of(json::number(code));
            assert(all[j] == json::number(code));
        }
        if let Some(own) = events.last().numeric("ReasonCode"@) {
            assert(all[all.len() - 1] == json::number(own));
            if json::number(own) == json::number(code) {
                text::lemma_decimal_reads_back(own);
                text::lemma_decimal_reads_back(code);
                assert(own == code);
            }
            if all.contains(json::number(code)) && own != code {
                let j = all.index_of(json::number(code));
                assert(before[j] == json::number(code));
            }
        }
        if exists|i: int|
            0 <= i < events.len() && (#[trigger] events[i]).numeric("ReasonCode"@) == Some(code) {
            let i = choose|i: int|
                0 <= i < events.len() && (#[trigger] events[i]).numeric("ReasonCode"@) == Some(
                    code,
                );
            if i < last {
                assert(shorter[i].numeric("ReasonCode"@) == Some(code));
            }
        }
    }
}

/// Whether the event at `i` is a recent failed connection that gives a reason.
pub open spec fn refused_for(events: Seq<EventModel>, i: int, code: nat) -> bool {
    &&& 0 <= i < events.len()
    &&& is_recent(events, events[i])
    &&& events[i].event_id == 8002
    &&& events[i].numeric("ReasonCode"@) == Some(code)
}

/// A loop gives the reasons of the failed connections, and of them alone.
pub proof fn lemma_loops_give_the_reasons(events: Seq<EventModel>, k: int, code: nat)
    requires
        0 <= k < judged(events).findings.len(),
        judged(events).findings[k].id == "reconnect_loop"@,
    ensures
        entry(judged(events).findings[k].detail, "reason_codes"@) matches Some(Json::List(codes))
            && (codes.contains(json::number(code)) <==> exists|i: int| refused_for(
            events,
            i,
            code,
        )),
{
    let sorted = sorting::arranged(events, by_time());
    let all = found(sorted);
    lemma_finding_was_found(events, k);
    let at = choose|i: int| 0 <= i < all.len() && all[i] == judged(events).findings[k];
    detect::lemma_rule_of(sorted, at);
    detect::lemma_ids_differ();
    lemma_names_differ();
    sorting::lemma_arranged_ascends(events, by_time());
    let p = numbered(events, 8002);
    assert forall|e: EventModel| #[trigger] p(e) == (is_recent(events, e) && detect::fits(
        Rule::Refused,
        e,
    )) by {}
    lemma_picked(events, Rule::Refused, p);
    let refused = sorted.filter(p);
    lemma_reasons(refused, code);
    if exists|i: int| refused_for(events, i, code) {
        let i = choose|i: int| refused_for(events, i, code);
        assert(events.contains(events[i]));
        counting::lemma_sorting_keeps_elements(events, by_time(), events[i]);
        counting::lemma_picked_elements(sorted, p, events[i]);
        let j = refused.index_of(events[i]);
        assert(refused[j].numeric("ReasonCode"@) == Some(code));
    }
    if exists|j: int|
        0 <= j < refused.len() && (#[trigger] refused[j]).numeric("ReasonCode"@) == Some(code) {
        let j = choose|j: int|
            0 <= j < refused.len() && (#[trigger] refused[j]).numeric("ReasonCode"@) == Some(code);
        assert(refused.contains(refused[j]));
        counting::lemma_picked_elements(sorted, p, refused[j]);
        counting::lemma_sorting_keeps_elements(events, by_time(), refused[j]);
        let i = events.index_of(refused[j]);
        assert(refused_for(events, i, code));
    }
}

/// Whether the event at `i` is a failed key exchange with an access point that
/// gives a reason.
pub open spec fn exchange_failed_for(
    events: Seq<EventModel>,
    i: int,
    peer: Seq<char>,
    code: nat,
) -> bool {
    &&& exchanges(events, peer).contains(i)
    &&& events[i].numeric("ReasonCode"@) == Some(code)
}

/// What blames an access point gives the reasons of its own failures, and says
/// in its title how many there are and with whom.
pub proof fn lemma_blame_gives_the_reasons(
    events: Seq<EventModel>,
    peer: Seq<char>,
    k: int,
    code: nat,
)
    requires
        0 <= k < judged(events).findings.len(),
        blames(judged(events).findings[k], peer),
    ensures
        judged(events).findings[k].title == text::decimal(exchanges(events, peer).len())
            + " key-exchange failures against a single AP ("@ + peer + ")"@,
        entry(judged(events).findings[k].detail, "reason_codes"@) matches Some(Json::List(codes))
            && (codes.contains(json::number(code)) <==> exists|i: int| exchange_failed_for(
            events,
            i,
            peer,
            code,
        )),
{
    let sorted = sorting::arranged(events, by_time());
    let all = found(sorted);
    let failures = sorted.filter(detect::of_kind(Rule::KeyFailure));
    let names = detect::peers(failures);
    let blamed = detect::access_point_findings(failures, names);
    lemma_finding_was_found(events, k);
    let at = choose|i: int| 0 <= i < all.len() && all[i] == judged(events).findings[k];
    detect::lemma_rule_of(sorted, at);
    detect::lemma_ids_differ();
    lemma_names_differ();
    lemma_blamed(failures, names, peer);
    let b = blamed.index_of(all[at]);
    assert(blamed[b] == all[at]);
    let name = choose|name: Seq<char>|
        {
            &&& #[trigger] names.contains(name)
            &&& detect::clustered(failures.filter(detect::names_peer(name)))
            &&& blamed[b] == detect::access_point_finding(
                failures.filter(detect::names_peer(name)),
                name,
            )
        };
    assert(name == peer);
    let mine = own(events, peer);
    lemma_own(events, peer, 0);
    lemma_reasons(mine, code);
    let p = exchange(peer);
    counting::lemma_picks_combine(
        sorted,
        detect::of_kind(Rule::KeyFailure),
        detect::names_peer(peer),
        p,
    );
    if exists|i: int| exchange_failed_for(events, i, peer, code) {
        let i = choose|i: int| exchange_failed_for(events, i, peer, code);
        assert(events.contains(events[i]));
        counting::lemma_sorting_keeps_elements(events, by_time(), events[i]);
        counting::lemma_picked_elements(sorted, p, events[i]);
        let j = mine.index_of(events[i]);
        assert(mine[j].numeric("ReasonCode"@) == Some(code));
    }
    if exists|j: int|
        0 <= j < mine.len() && (#[trigger] mine[j]).numeric("ReasonCode"@) == Some(code) {
        let j = choose|j: int|
            0 <= j < mine.len() && (#[trigger] mine[j]).numeric("ReasonCode"@) == Some(code);
        assert(mine.contains(mine[j]));
        counting::lemma_picked_elements(sorted, p, mine[j]);
        counting::lemma_sorting_keeps_elements(events, by_time(), mine[j]);
        let i = events.index_of(mine[j]);
        assert(exchange_failed_for(events, i, peer, code));
    }
}

} // verus!

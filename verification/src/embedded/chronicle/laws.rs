//! What a heartbeat has to do with what happened in its window.

use super::metrics::MetricsModel;
use super::types::MetricsSnapshot;
use vstd::prelude::*;

verus! {

/// Something that a tracker is told.
pub enum Note {
    Expecting { expected: bool },
    Attempt,
    Poll { connected: bool, rssi_dbm: Option<i32>, reason: Option<u16> },
    Roam,
    Address,
    Backend { reachable: bool },
}

/// Something that a tracker is told, and when.
pub struct Noted {
    pub at_ms: u64,
    pub note: Note,
}

/// What a tracker has counted once it was told something.
pub open spec fn told(metrics: MetricsModel, noted: Noted) -> MetricsModel {
    match noted.note {
        Note::Expecting { expected } => metrics.expecting(noted.at_ms, expected),
        Note::Attempt => metrics.attempting(noted.at_ms),
        Note::Poll { connected, rssi_dbm, reason } => metrics.polled(
            noted.at_ms,
            connected,
            rssi_dbm,
            reason,
        ),
        Note::Roam => metrics.roaming(noted.at_ms),
        Note::Address => metrics.addressed(noted.at_ms),
        Note::Backend { reachable } => metrics.backed(noted.at_ms, reachable),
    }
}

/// What a tracker has counted once it was told all of a history.
pub open spec fn told_all(metrics: MetricsModel, history: Seq<Noted>) -> MetricsModel
    decreases history.len(),
{
    if history.len() == 0 {
        metrics
    } else {
        told(told_all(metrics, history.drop_last()), history.last())
    }
}

/// The heartbeat of a window that started at `start_ms` and ends at `end_ms`.
pub open spec fn heartbeat_of(start_ms: u64, history: Seq<Noted>, end_ms: u64) -> MetricsSnapshot {
    told_all(MetricsModel::fresh(start_ms), history).accounted(end_ms).heartbeat()
}

/// A count, as far as the counter goes.
pub open spec fn as_counted(count: nat) -> u32 {
    if count > u32::MAX {
        u32::MAX
    } else {
        count as u32
    }
}

// ---------------------------------------------------------------------------
// Counts
// ---------------------------------------------------------------------------

/// The places of attempts to associate.
pub open spec fn attempts(history: Seq<Noted>) -> Set<int> {
    Set::new(|i: int| 0 <= i < history.len() && history[i].note is Attempt)
}

/// The places of roams.
pub open spec fn roams(history: Seq<Noted>) -> Set<int> {
    Set::new(|i: int| 0 <= i < history.len() && history[i].note is Roam)
}

/// The places of tries of the backend that came out so.
pub open spec fn tries(history: Seq<Noted>, reached: bool) -> Set<int> {
    Set::new(
        |i: int|
            0 <= i < history.len() && (history[i].note matches Note::Backend { reachable }
                && reachable == reached),
    )
}

/// The places of polls that read a level.
pub open spec fn readings(history: Seq<Noted>) -> Set<int> {
    Set::new(
        |i: int|
            0 <= i < history.len() && (history[i].note matches Note::Poll { rssi_dbm, .. }
                && rssi_dbm is Some),
    )
}

/// Whether the note at `j` is the last poll before `i`.
pub open spec fn is_last_poll(history: Seq<Noted>, j: int, i: int) -> bool {
    &&& 0 <= j < i
    &&& history[j].note is Poll
    &&& forall|k: int| j < k < i ==> !((#[trigger] history[k]).note is Poll)
}

/// Whether the note at `i` is a poll without an association, and the last poll
/// before it had one.
pub open spec fn drops_at(history: Seq<Noted>, i: int) -> bool {
    &&& 0 <= i < history.len()
    &&& history[i].note matches Note::Poll { connected, .. } && !connected
    &&& exists|j: int| #[trigger]
        is_last_poll(history, j, i) && (history[j].note matches Note::Poll { connected, .. }
            && connected)
}

/// The places where the association was lost.
pub open spec fn drops(history: Seq<Noted>) -> Set<int> {
    Set::new(|i: int| drops_at(history, i))
}

proof fn lemma_simple_counts(start_ms: u64, history: Seq<Noted>)
    ensures
        ({
            let metrics = told_all(MetricsModel::fresh(start_ms), history);
            &&& attempts(history).finite() && roams(history).finite() && tries(
                history,
                true,
            ).finite() && tries(history, false).finite() && readings(history).finite()
            &&& metrics.association_attempts == as_counted(attempts(history).len())
            &&& metrics.roam_count == as_counted(roams(history).len())
            &&& metrics.backend_successes == as_counted(tries(history, true).len())
            &&& metrics.backend_failures == as_counted(tries(history, false).len())
            &&& metrics.rssi_sample_count == as_counted(readings(history).len())
        }),
    decreases history.len(),
{
    if history.len() == 0 {
        assert(attempts(history) =~= Set::empty());
        assert(roams(history) =~= Set::empty());
        assert(tries(history, true) =~= Set::empty());
        assert(tries(history, false) =~= Set::empty());
        assert(readings(history) =~= Set::empty());
    } else {
        let shorter = history.drop_last();
        let n = history.len() - 1;
        let note = history.last().note;
        lemma_simple_counts(start_ms, shorter);
        assert(history[n] == history.last());
        assert forall|i: int| 0 <= i < n implies #[trigger] shorter[i] == history[i] by {}
        assert(attempts(history) =~= if note is Attempt {
            attempts(shorter).insert(n)
        } else {
            attempts(shorter)
        });
        assert(roams(history) =~= if note is Roam {
            roams(shorter).insert(n)
        } else {
            roams(shorter)
        });
        assert(tries(history, true) =~= if note matches Note::Backend { reachable } && reachable {
            tries(shorter, true).insert(n)
        } else {
            tries(shorter, true)
        });
        assert(tries(history, false) =~= if note matches Note::Backend { reachable }
            && !reachable {
            tries(shorter, false).insert(n)
        } else {
            tries(shorter, false)
        });
        assert(readings(history) =~= if note matches Note::Poll { rssi_dbm, .. }
            && rssi_dbm is Some {
            readings(shorter).insert(n)
        } else {
            readings(shorter)
        });
    }
}

/// The heartbeat counts what was noted in its window: the attempts, the roams,
/// the tries of the backend by how they came out, and the levels.
pub proof fn lemma_heartbeats_count_what_was_noted(
    start_ms: u64,
    history: Seq<Noted>,
    end_ms: u64,
)
    ensures
        ({
            let heartbeat = heartbeat_of(start_ms, history, end_ms);
            &&& heartbeat.association_attempts == as_counted(attempts(history).len())
            &&& heartbeat.roam_count == as_counted(roams(history).len())
            &&& heartbeat.backend_successes == as_counted(tries(history, true).len())
            &&& heartbeat.backend_failures == as_counted(tries(history, false).len())
            &&& heartbeat.rssi_sample_count == as_counted(readings(history).len())
            &&& heartbeat.window_started_ms == start_ms
            &&& heartbeat.window_ended_ms == end_ms
        }),
{
    lemma_simple_counts(start_ms, history);
    lemma_window_start(start_ms, history);
}

proof fn lemma_window_start(start_ms: u64, history: Seq<Noted>)
    ensures
        told_all(MetricsModel::fresh(start_ms), history).window_started_ms == start_ms,
    decreases history.len(),
{
    if history.len() > 0 {
        lemma_window_start(start_ms, history.drop_last());
    }
}

/// Whether the last poll of a history had an association.
pub open spec fn ends_connected(history: Seq<Noted>) -> bool {
    exists|j: int| #[trigger]
        is_last_poll(history, j, history.len() as int) && (history[j].note matches Note::Poll {
            connected,
            ..
        } && connected)
}

proof fn lemma_last_poll_moves_on(history: Seq<Noted>)
    requires
        history.len() > 0,
    ensures
        history.last().note matches Note::Poll { connected, .. } ==> ends_connected(history)
            == connected,
        !(history.last().note is Poll) ==> ends_connected(history) == ends_connected(
            history.drop_last(),
        ),
        ({
            let n = history.len() - 1;
            drops_at(history, n) == ((history.last().note matches Note::Poll { connected, .. }
                && !connected) && ends_connected(history.drop_last()))
        }),
        forall|i: int|
            0 <= i < history.len() - 1 ==> #[trigger] drops_at(history, i) == drops_at(
                history.drop_last(),
                i,
            ),
{
    let shorter = history.drop_last();
    let n = history.len() - 1;
    assert(shorter.len() as int == n);
    assert(history[n] == history.last());
    assert forall|i: int| 0 <= i < n implies #[trigger] shorter[i] == history[i] by {}
    assert forall|j: int, i: int| 0 <= i <= n implies #[trigger] is_last_poll(history, j, i)
        == is_last_poll(shorter, j, i) by {
        if is_last_poll(history, j, i) {
            assert forall|k: int| j < k < i implies !((#[trigger] shorter[k]).note is Poll) by {
                assert(!(history[k].note is Poll));
            }
        }
        if is_last_poll(shorter, j, i) {
            assert forall|k: int| j < k < i implies !((#[trigger] history[k]).note is Poll) by {
                assert(!(shorter[k].note is Poll));
            }
        }
    }
    if history.last().note is Poll {
        assert(is_last_poll(history, n, history.len() as int));
        assert forall|j: int| #[trigger]
            is_last_poll(history, j, history.len() as int) implies j == n by {
            if j < n {
                assert(!(history[n].note is Poll));
            }
        }
    } else {
        assert forall|j: int| #[trigger]
            is_last_poll(history, j, history.len() as int) == is_last_poll(shorter, j, n) by {
            if is_last_poll(history, j, history.len() as int) {
                assert(is_last_poll(history, j, n)) by {
                    assert forall|k: int| j < k < n implies !((
                    #[trigger] history[k]).note is Poll) by {}
                }
            }
            if is_last_poll(shorter, j, n) {
                assert(is_last_poll(history, j, n));
                assert forall|k: int| j < k < n + 1 implies !((
                #[trigger] history[k]).note is Poll) by {}
            }
        }
        if ends_connected(history) {
            let j = choose|j: int| #[trigger]
                is_last_poll(history, j, history.len() as int) && (
                history[j].note matches Note::Poll { connected, .. } && connected);
            assert(is_last_poll(shorter, j, shorter.len() as int));
            assert(shorter[j] == history[j]);
        }
        if ends_connected(shorter) {
            let j = choose|j: int| #[trigger]
                is_last_poll(shorter, j, shorter.len() as int) && (shorter[j].note matches Note::Poll { connected, .. }
                    && connected);
            assert(is_last_poll(history, j, history.len() as int));
            assert(shorter[j] == history[j]);
        }
    }
    assert forall|i: int| 0 <= i < n implies #[trigger] drops_at(history, i) == drops_at(
        shorter,
        i,
    ) by {
        if drops_at(history, i) {
            let j = choose|j: int| #[trigger]
                is_last_poll(history, j, i) && (history[j].note matches Note::Poll {
                    connected,
                    ..
                } && connected);
            assert(is_last_poll(shorter, j, i));
        }
        if drops_at(shorter, i) {
            let j = choose|j: int| #[trigger]
                is_last_poll(shorter, j, i) && (shorter[j].note matches Note::Poll {
                    connected,
                    ..
                } && connected);
            assert(is_last_poll(history, j, i));
        }
    }
    if drops_at(history, n) {
        let j = choose|j: int| #[trigger]
            is_last_poll(history, j, n) && (history[j].note matches Note::Poll { connected, .. }
                && connected);
        assert(is_last_poll(shorter, j, shorter.len() as int));
        assert(shorter[j] == history[j]);
        assert(ends_connected(shorter));
    }
    if ends_connected(shorter) && history.last().note is Poll {
        let j = choose|j: int| #[trigger]
            is_last_poll(shorter, j, shorter.len() as int) && (shorter[j].note matches Note::Poll {
                connected,
                ..
            } && connected);
        assert(is_last_poll(history, j, n));
        assert(shorter[j] == history[j]);
    }
}

proof fn lemma_drops(start_ms: u64, history: Seq<Noted>)
    ensures
        ({
            let metrics = told_all(MetricsModel::fresh(start_ms), history);
            &&& drops(history).finite()
            &&& metrics.disconnect_count == as_counted(drops(history).len())
            &&& metrics.connected == ends_connected(history)
        }),
    decreases history.len(),
{
    if history.len() == 0 {
        assert(drops(history) =~= Set::empty());
    } else {
        let shorter = history.drop_last();
        let n = history.len() - 1;
        lemma_drops(start_ms, shorter);
        lemma_last_poll_moves_on(history);
        assert(drops(history) =~= if drops_at(history, n) {
            drops(shorter).insert(n)
        } else {
            drops(shorter)
        });
    }
}

/// The heartbeat counts as many disconnects as there were polls without an
/// association after one with it.
pub proof fn lemma_heartbeats_count_disconnects(
    start_ms: u64,
    history: Seq<Noted>,
    end_ms: u64,
)
    ensures
        heartbeat_of(start_ms, history, end_ms).disconnect_count == as_counted(
            drops(history).len(),
        ),
{
    lemma_drops(start_ms, history);
}

/// The reason of a disconnect is that of the last poll by which the association
/// was lost.
pub proof fn lemma_heartbeats_keep_the_last_reason(
    start_ms: u64,
    history: Seq<Noted>,
    end_ms: u64,
    i: int,
)
    requires
        drops_at(history, i),
        forall|k: int| i < k < history.len() ==> !#[trigger] drops_at(history, k),
    ensures
        heartbeat_of(start_ms, history, end_ms).last_disconnect_reason == (match history[i].note {
            Note::Poll { reason, .. } => reason,
            _ => None,
        }),
    decreases history.len(),
{
    let shorter = history.drop_last();
    let n = history.len() - 1;
    lemma_drops(start_ms, shorter);
    lemma_last_poll_moves_on(history);
    if i < n {
        assert(drops_at(shorter, i));
        assert forall|k: int| i < k < shorter.len() implies !#[trigger] drops_at(shorter, k) by {
            assert(!drops_at(history, k));
        }
        assert(!drops_at(history, n));
        lemma_heartbeats_keep_the_last_reason(start_ms, shorter, end_ms, i);
        assert(shorter[i] == history[i]);
    } else {
        assert(history[n] == history.last());
    }
}

// ---------------------------------------------------------------------------
// Levels
// ---------------------------------------------------------------------------

/// The level that a note gives, if it is a poll with one.
pub open spec fn level_at(history: Seq<Noted>, i: int) -> Option<i32> {
    if 0 <= i < history.len() {
        match history[i].note {
            Note::Poll { rssi_dbm, .. } => rssi_dbm,
            _ => None,
        }
    } else {
        None
    }
}

/// The sum of the levels, from the first on.
pub open spec fn level_sum(history: Seq<Noted>) -> int
    decreases history.len(),
{
    if history.len() == 0 {
        0
    } else {
        (match level_at(history, 0) {
            Some(level) => level as int,
            None => 0,
        }) + level_sum(history.drop_first())
    }
}

proof fn lemma_level_sum_push(history: Seq<Noted>, last: Noted)
    ensures
        level_sum(history.push(last)) == level_sum(history) + (match last.note {
            Note::Poll { rssi_dbm: Some(level), .. } => level as int,
            _ => 0,
        }),
    decreases history.len(),
{
    let longer = history.push(last);
    if history.len() == 0 {
        assert(longer.drop_first() =~= history);
        assert(longer[0] == last);
    } else {
        assert(longer[0] == history[0]);
        assert(longer.drop_first() =~= history.drop_first().push(last));
        lemma_level_sum_push(history.drop_first(), last);
    }
}

proof fn lemma_levels(start_ms: u64, history: Seq<Noted>)
    ensures
        ({
            let metrics = told_all(MetricsModel::fresh(start_ms), history);
            let count = readings(history).len();
            &&& metrics.consistent()
            &&& count == 0 ==> metrics.rssi_min_dbm is None && metrics.rssi_max_dbm is None
            &&& count > 0 ==> metrics.rssi_min_dbm is Some && metrics.rssi_max_dbm is Some
            &&& forall|i: int| #[trigger]
                level_at(history, i) matches Some(level) ==> metrics.rssi_min_dbm is Some
                    && metrics.rssi_max_dbm is Some && metrics.rssi_min_dbm->0 <= level
                    <= metrics.rssi_max_dbm->0
            &&& metrics.rssi_min_dbm is Some ==> exists|i: int| #[trigger]
                level_at(history, i) == metrics.rssi_min_dbm
            &&& metrics.rssi_max_dbm is Some ==> exists|i: int| #[trigger]
                level_at(history, i) == metrics.rssi_max_dbm
            &&& count < u32::MAX ==> metrics.rssi_sum_dbm == level_sum(history)
            &&& -0x8000_0000 * count <= level_sum(history) <= 0x7fff_ffff * count
        }),
    decreases history.len(),
{
    lemma_simple_counts(start_ms, history);
    if history.len() > 0 {
        let shorter = history.drop_last();
        let n = history.len() - 1;
        let before = told_all(MetricsModel::fresh(start_ms), shorter);
        let after = told_all(MetricsModel::fresh(start_ms), history);
        lemma_levels(start_ms, shorter);
        lemma_simple_counts(start_ms, shorter);
        lemma_level_sum_push(shorter, history.last());
        assert(shorter.push(history.last()) =~= history);
        assert(history[n] == history.last());
        assert forall|i: int| 0 <= i < n implies #[trigger] level_at(shorter, i) == level_at(
            history,
            i,
        ) by {
            assert(shorter[i] == history[i]);
        }
        let (connected, rssi, reason, expected, reachable) = match history.last().note {
            Note::Poll { connected, rssi_dbm, reason } => (
                connected,
                rssi_dbm,
                reason,
                true,
                true,
            ),
            Note::Expecting { expected } => (true, None::<i32>, None::<u16>, expected, true),
            Note::Backend { reachable } => (true, None::<i32>, None::<u16>, true, reachable),
            _ => (true, None::<i32>, None::<u16>, true, true),
        };
        super::metrics::lemma_metrics_stay_consistent(
            before,
            history.last().at_ms,
            expected,
            connected,
            rssi,
            reason,
            reachable,
        );
        let heard = level_at(history, n);
        if heard is Some {
            assert(readings(history) =~= readings(shorter).insert(n));
        } else {
            assert(readings(history) =~= readings(shorter)) by {
                assert forall|i: int| 0 <= i < n implies #[trigger] shorter[i] == history[i] by {}
            }
        }
        assert forall|i: int| #[trigger]
            level_at(history, i) matches Some(level) implies after.rssi_min_dbm is Some
            && after.rssi_max_dbm is Some && after.rssi_min_dbm->0 <= level_at(history, i)->0
            <= after.rssi_max_dbm->0 by {
            if i < n {
                assert(level_at(shorter, i) == level_at(history, i));
            }
        }
        if after.rssi_min_dbm is Some {
            if after.rssi_min_dbm == before.rssi_min_dbm {
                let i = choose|i: int| #[trigger] level_at(shorter, i) == before.rssi_min_dbm;
                assert(level_at(shorter, i) is Some);
                assert(level_at(history, i) == after.rssi_min_dbm);
            } else {
                assert(level_at(history, n) == after.rssi_min_dbm);
            }
        }
        if after.rssi_max_dbm is Some {
            if after.rssi_max_dbm == before.rssi_max_dbm {
                let i = choose|i: int| #[trigger] level_at(shorter, i) == before.rssi_max_dbm;
                assert(level_at(shorter, i) is Some);
                assert(level_at(history, i) == after.rssi_max_dbm);
            } else {
                assert(level_at(history, n) == after.rssi_max_dbm);
            }
        }
    } else {
        assert(readings(history) =~= Set::empty());
    }
}

/// The extremes of the heartbeat are levels that polls read, and no level lies
/// outside them; without a level there are none.
pub proof fn lemma_heartbeats_give_the_extremes(
    start_ms: u64,
    history: Seq<Noted>,
    end_ms: u64,
    i: int,
)
    ensures
        ({
            let heartbeat = heartbeat_of(start_ms, history, end_ms);
            &&& level_at(history, i) matches Some(level) ==> heartbeat.rssi_min_dbm is Some
                && heartbeat.rssi_max_dbm is Some && heartbeat.rssi_min_dbm->0 <= level
                <= heartbeat.rssi_max_dbm->0
            &&& heartbeat.rssi_min_dbm is Some ==> exists|k: int| #[trigger]
                level_at(history, k) == heartbeat.rssi_min_dbm
            &&& heartbeat.rssi_max_dbm is Some ==> exists|k: int| #[trigger]
                level_at(history, k) == heartbeat.rssi_max_dbm
            &&& readings(history).len() == 0 ==> heartbeat.rssi_min_dbm is None
                && heartbeat.rssi_max_dbm is None && heartbeat.rssi_mean_dbm is None
        }),
{
    lemma_levels(start_ms, history);
    lemma_simple_counts(start_ms, history);
}

/// The mean of the heartbeat is the sum of the levels over their number, without
/// its fraction.
pub proof fn lemma_heartbeats_give_the_mean(start_ms: u64, history: Seq<Noted>, end_ms: u64)
    requires
        0 < readings(history).len() < u32::MAX,
    ensures
        ({
            let count = readings(history).len() as int;
            let mean = heartbeat_of(start_ms, history, end_ms).rssi_mean_dbm;
            &&& mean is Some
            &&& level_sum(history) >= 0 ==> 0 <= level_sum(history) - mean->0 * count < count
            &&& level_sum(history) < 0 ==> 0 <= mean->0 * count - level_sum(history) < count
        }),
{
    lemma_levels(start_ms, history);
    lemma_simple_counts(start_ms, history);
    let count = readings(history).len() as int;
    let sum = level_sum(history);
    let metrics = told_all(MetricsModel::fresh(start_ms), history).accounted(end_ms);
    crate::num::lemma_quotient_bounds(sum, count, -0x8000_0000, 0x7fff_ffff);
    let mean = metrics.mean()->0 as int;
    assert(mean == crate::num::towards_zero(sum, count));
    if sum >= 0 {
        vstd::arithmetic::div_mod::lemma_fundamental_div_mod(sum, count);
        vstd::arithmetic::div_mod::lemma_mod_bound(sum, count);
        assert(count * (sum / count) == (sum / count) * count) by (nonlinear_arith);
    } else {
        vstd::arithmetic::div_mod::lemma_fundamental_div_mod(-sum, count);
        vstd::arithmetic::div_mod::lemma_mod_bound(-sum, count);
        let q = (-sum) / count;
        assert(-(count * q) == (-q) * count) by (nonlinear_arith);
    }
}

// ---------------------------------------------------------------------------
// Times
// ---------------------------------------------------------------------------

/// The time that passes is counted to where it belongs: to the connected time
/// while there is an association, to the expected time while one is expected,
/// and to both together only while both hold. A clock that goes back counts
/// nothing.
pub proof fn lemma_time_is_counted_where_it_belongs(metrics: MetricsModel, now_ms: u64)
    requires
        metrics.expected_connectivity_ms + now_ms <= u64::MAX,
        metrics.wifi_connected_ms + now_ms <= u64::MAX,
        metrics.expected_wifi_connected_ms + now_ms <= u64::MAX,
    ensures
        ({
            let after = metrics.accounted(now_ms).heartbeat();
            let passed = if now_ms >= metrics.last_accounted_ms {
                now_ms - metrics.last_accounted_ms
            } else {
                0
            };
            &&& metrics.connected ==> after.wifi_connected_ms == metrics.wifi_connected_ms + passed
            &&& !metrics.connected ==> after.wifi_connected_ms == metrics.wifi_connected_ms
            &&& metrics.expected ==> after.expected_connectivity_ms
                == metrics.expected_connectivity_ms + passed
            &&& !metrics.expected ==> after.expected_connectivity_ms
                == metrics.expected_connectivity_ms
            &&& metrics.expected && metrics.connected ==> after.expected_wifi_connected_ms
                == metrics.expected_wifi_connected_ms + passed
            &&& !metrics.expected || !metrics.connected ==> after.expected_wifi_connected_ms
                == metrics.expected_wifi_connected_ms
        }),
{
}

/// Every note is a time up to which the time is counted, with the states that
/// held until then; what a poll and an expectation say holds from then on.
pub proof fn lemma_notes_count_the_time_before_them(metrics: MetricsModel, noted: Noted)
    ensures
        ({
            let after = told(metrics, noted);
            let counted = metrics.accounted(noted.at_ms);
            &&& after.last_accounted_ms == noted.at_ms
            &&& after.wifi_connected_ms == counted.wifi_connected_ms
            &&& after.expected_connectivity_ms == counted.expected_connectivity_ms
            &&& after.expected_wifi_connected_ms == counted.expected_wifi_connected_ms
            &&& match noted.note {
                Note::Poll { connected, .. } => after.connected == connected && after.expected
                    == metrics.expected,
                Note::Expecting { expected } => after.expected == expected && after.connected
                    == metrics.connected,
                _ => after.connected == metrics.connected && after.expected == metrics.expected,
            }
        }),
{
}

/// A window starts with connectivity expected and no association, and the next
/// one starts as the last one ended, with nothing counted.
pub proof fn lemma_windows_start_empty(metrics: MetricsModel, start_ms: u64)
    ensures
        MetricsModel::fresh(start_ms).expected,
        !MetricsModel::fresh(start_ms).connected,
        MetricsModel::fresh(start_ms).attempt_started_ms is None,
        metrics.restarted(start_ms).expected == metrics.expected,
        metrics.restarted(start_ms).connected == metrics.connected,
        metrics.restarted(start_ms).attempt_started_ms == metrics.attempt_started_ms,
        ({
            let next = metrics.restarted(start_ms).heartbeat();
            &&& next.window_started_ms == start_ms
            &&& next.window_ended_ms == start_ms
            &&& next.expected_connectivity_ms == 0
            &&& next.wifi_connected_ms == 0
            &&& next.expected_wifi_connected_ms == 0
            &&& next.connectivity_uptime_permille is None
            &&& next.association_attempts == 0
            &&& next.disconnect_count == 0
            &&& next.roam_count == 0
            &&& next.backend_successes == 0
            &&& next.backend_failures == 0
            &&& next.rssi_sample_count == 0
            &&& next.rssi_min_dbm is None
            &&& next.rssi_max_dbm is None
            &&& next.rssi_mean_dbm is None
            &&& next.last_disconnect_reason is None
            &&& next.last_time_to_associate_ms is None
            &&& next.last_time_to_ip_ms is None
            &&& next.last_time_to_backend_ms is None
        }),
{
}

/// An attempt is timed from when it began: to the association, to the address
/// and to the backend, which ends it.
pub proof fn lemma_attempts_are_timed(
    metrics: MetricsModel,
    began: u64,
    associated: u64,
    rssi_dbm: Option<i32>,
    addressed: u64,
    reached: u64,
)
    requires
        !metrics.connected,
        began <= associated <= addressed <= reached,
    ensures
        ({
            let linked = metrics.attempting(began).polled(associated, true, rssi_dbm, None);
            let done = linked.addressed(addressed).backed(reached, true);
            &&& linked.heartbeat().last_time_to_associate_ms == Some((associated - began) as u64)
            &&& done.heartbeat().last_time_to_associate_ms == Some((associated - began) as u64)
            &&& done.heartbeat().last_time_to_ip_ms == Some((addressed - began) as u64)
            &&& done.heartbeat().last_time_to_backend_ms == Some((reached - began) as u64)
            &&& done.attempt_started_ms is None
        }),
{
}

/// A backend that was not reached ends no attempt and times nothing; a poll on
/// an association that holds times nothing either.
pub proof fn lemma_attempts_go_on(metrics: MetricsModel, now_ms: u64, rssi_dbm: Option<i32>)
    ensures
        metrics.backed(now_ms, false).attempt_started_ms == metrics.attempt_started_ms,
        metrics.backed(now_ms, false).last_time_to_backend_ms == metrics.last_time_to_backend_ms,
        metrics.connected ==> metrics.polled(
            now_ms,
            true,
            rssi_dbm,
            None,
        ).last_time_to_associate_ms == metrics.last_time_to_associate_ms,
        metrics.attempting(now_ms).attempt_started_ms == Some(now_ms),
        metrics.attempt_started_ms is None ==> metrics.addressed(now_ms).last_time_to_ip_ms is None,
{
}

/// Uptime is the share of the expected time with an association, in thousandths
/// without their fraction; it is unknown where no time was expected.
pub proof fn lemma_uptime_is_the_expected_share(metrics: MetricsModel, end_ms: u64)
    requires
        metrics.accounted(end_ms).expected_wifi_connected_ms * 1000 <= u64::MAX,
        metrics.accounted(end_ms).consistent(),
    ensures
        ({
            let heartbeat = metrics.accounted(end_ms).heartbeat();
            let up = heartbeat.expected_wifi_connected_ms as int;
            let all = heartbeat.expected_connectivity_ms as int;
            match heartbeat.connectivity_uptime_permille {
                Some(permille) => all > 0 && permille * all <= up * 1000 < (permille + 1) * all,
                None => all == 0,
            }
        }),
{
    let heartbeat = metrics.accounted(end_ms).heartbeat();
    let up = heartbeat.expected_wifi_connected_ms as int;
    let all = heartbeat.expected_connectivity_ms as int;
    if all > 0 {
        super::metrics::lemma_uptime_is_a_share(metrics.accounted(end_ms));
        let q = up * 1000 / all;
        vstd::arithmetic::div_mod::lemma_fundamental_div_mod(up * 1000, all);
        vstd::arithmetic::div_mod::lemma_mod_bound(up * 1000, all);
        assert(q * all <= up * 1000 < (q + 1) * all) by (nonlinear_arith)
            requires
                up * 1000 == all * q + (up * 1000) % all,
                0 <= (up * 1000) % all < all,
        ;
    }
}

} // verus!

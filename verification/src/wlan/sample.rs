//! Connection dynamics: what a single snapshot cannot tell you.
//!
//! A one-shot status says "-58 dBm, fine". It cannot say that the link swung
//! 30 dB over the last minute, roamed between three BSSIDs, or dropped twice.
//! Those are the shapes that explain a complaint, so a run samples the
//! association over a bounded window and reports both the series and the
//! aggregates worth reasoning about.

use crate::num;
use crate::num::divide;
use crate::text;
use crate::text::{copied, same_text};
use crate::wlan::{CurrentConnection, WifiStatus};
use vstd::prelude::*;

verus! {

/// Hard ceiling on a sampling run. A tool call blocks the JSON-RPC channel, so
/// an unbounded window would hang the client rather than answer it.
pub const MAX_DURATION_S: u64 = 120;

pub const MIN_INTERVAL_MS: u64 = 250;

/// One reading of the association.
#[derive(Debug)]
pub struct Sample {
    pub elapsed_ms: u128,
    pub connected: bool,
    pub bssid: Option<String>,
    pub signal_quality: Option<u32>,
    pub rssi_dbm_estimate: Option<i32>,
    pub rx_rate_kbps: Option<u32>,
    pub tx_rate_kbps: Option<u32>,
}

/// A series of readings with its aggregates.
#[derive(Debug)]
pub struct SampleRun {
    pub duration_s: u64,
    pub interval_ms: u64,
    pub sample_count: usize,
    pub ssid: Option<String>,
    /// Samples where the interface was not associated.
    pub disconnected_samples: usize,
    /// Distinct BSSIDs observed, in the order first seen.
    pub bssids_seen: Vec<String>,
    /// Transitions between BSSIDs — roaming, or an unstable choice of AP.
    pub roam_count: usize,
    pub rssi_min_dbm: Option<i32>,
    pub rssi_max_dbm: Option<i32>,
    pub rssi_mean_dbm: Option<i32>,
    /// Peak-to-trough swing. Large values mean an unstable link even when the
    /// mean looks healthy.
    pub rssi_swing_db: Option<i32>,
    pub rx_rate_min_kbps: Option<u32>,
    pub rx_rate_max_kbps: Option<u32>,
    pub samples: Vec<Sample>,
}

// ---------------------------------------------------------------------------
// The window
// ---------------------------------------------------------------------------

/// The window and the interval that a run keeps to, whatever was asked for:
/// between one second and the ceiling, and no faster than the floor.
pub fn run_bounds(duration_s: u64, interval_ms: u64) -> (r: (u64, u64))
    ensures
        r.0 == (if duration_s < 1 {
            1
        } else if duration_s > MAX_DURATION_S {
            MAX_DURATION_S
        } else {
            duration_s
        }),
        r.1 == (if interval_ms < MIN_INTERVAL_MS {
            MIN_INTERVAL_MS
        } else {
            interval_ms
        }),
{
    let duration: u64 = if duration_s < 1 {
        1
    } else if duration_s > MAX_DURATION_S {
        MAX_DURATION_S
    } else {
        duration_s
    };
    let interval: u64 = if interval_ms < MIN_INTERVAL_MS {
        MIN_INTERVAL_MS
    } else {
        interval_ms
    };
    (duration, interval)
}

/// Whether another reading after one more interval would fall behind the end
/// of the window. All three are in nanoseconds.
pub fn window_closes(elapsed_ns: u128, interval_ns: u128, window_ns: u128) -> (r: bool)
    ensures
        r == (elapsed_ns + interval_ns > window_ns),
{
    match elapsed_ns.checked_add(interval_ns) {
        Some(next) => next > window_ns,
        None => true,
    }
}

// ---------------------------------------------------------------------------
// One reading
// ---------------------------------------------------------------------------

/// The position of the first interface with an association, from `i` on.
pub open spec fn first_associated(statuses: Seq<WifiStatus>, i: int) -> Option<int>
    decreases statuses.len() - i,
{
    if i < 0 || i >= statuses.len() {
        None
    } else if statuses[i].connection is Some {
        Some(i)
    } else {
        first_associated(statuses, i + 1)
    }
}

/// The association of the first interface that has one.
pub open spec fn current_association(statuses: Seq<WifiStatus>) -> Option<CurrentConnection> {
    match first_associated(statuses, 0) {
        Some(i) => statuses[i].connection,
        None => None,
    }
}

/// The association of the first interface that has one.
pub fn first_connection(statuses: &Vec<WifiStatus>) -> (r: Option<&CurrentConnection>)
    ensures
        match r {
            Some(c) => current_association(statuses@) == Some(*c),
            None => current_association(statuses@) is None,
        },
{
    let mut i: usize = 0;
    while i < statuses.len()
        invariant
            i <= statuses.len(),
            first_associated(statuses@, 0) == first_associated(statuses@, i as int),
        decreases statuses.len() - i,
    {
        if let Some(c) = &statuses[i].connection {
            return Some(c);
        }
        i = i + 1;
    }
    None
}

/// Whether `sample` is the reading of `connection` after `elapsed_ms`.
pub open spec fn reads(
    sample: Sample,
    elapsed_ms: u128,
    connection: Option<CurrentConnection>,
) -> bool {
    &&& sample.elapsed_ms == elapsed_ms
    &&& sample.connected == (connection is Some)
    &&& match connection {
        Some(c) => {
            &&& sample.bssid == c.bssid
            &&& sample.signal_quality == Some(c.signal_quality)
            &&& sample.rssi_dbm_estimate == Some(c.rssi_dbm_estimate)
            &&& sample.rx_rate_kbps == Some(c.rx_rate_kbps)
            &&& sample.tx_rate_kbps == Some(c.tx_rate_kbps)
        },
        None => {
            &&& sample.bssid is None
            &&& sample.signal_quality is None
            &&& sample.rssi_dbm_estimate is None
            &&& sample.rx_rate_kbps is None
            &&& sample.tx_rate_kbps is None
        },
    }
}

/// Read one sample from the outcome of a status query, and keep the first
/// network name seen. A query that failed is a data point, not a reason to
/// abort the run: it reads as no association.
pub fn read_sample(
    elapsed_ms: u128,
    statuses: &Option<Vec<WifiStatus>>,
    ssid: &mut Option<String>,
) -> (r: Sample)
    ensures
        ({
            let connection = match *statuses {
                Some(list) => current_association(list@),
                None => None,
            };
            &&& reads(r, elapsed_ms, connection)
            &&& *final(ssid) == (if *old(ssid) is None && connection is Some {
                connection->0.ssid
            } else {
                *old(ssid)
            })
        }),
{
    let connection = match statuses {
        Some(list) => first_connection(list),
        None => None,
    };
    match connection {
        Some(c) => {
            if ssid.is_none() {
                *ssid = copied(&c.ssid);
            }
            Sample {
                elapsed_ms,
                connected: true,
                bssid: copied(&c.bssid),
                signal_quality: Some(c.signal_quality),
                rssi_dbm_estimate: Some(c.rssi_dbm_estimate),
                rx_rate_kbps: Some(c.rx_rate_kbps),
                tx_rate_kbps: Some(c.tx_rate_kbps),
            }
        },
        None => Sample {
            elapsed_ms,
            connected: false,
            bssid: None,
            signal_quality: None,
            rssi_dbm_estimate: None,
            rx_rate_kbps: None,
            tx_rate_kbps: None,
        },
    }
}

// ---------------------------------------------------------------------------
// Aggregates
// ---------------------------------------------------------------------------

/// The signal readings of a series, in order.
pub open spec fn levels(samples: Seq<Sample>) -> Seq<int>
    decreases samples.len(),
{
    if samples.len() == 0 {
        seq![]
    } else {
        match samples.last().rssi_dbm_estimate {
            Some(level) => levels(samples.drop_last()).push(level as int),
            None => levels(samples.drop_last()),
        }
    }
}

/// The receive rates of a series, in order.
pub open spec fn rates(samples: Seq<Sample>) -> Seq<int>
    decreases samples.len(),
{
    if samples.len() == 0 {
        seq![]
    } else {
        match samples.last().rx_rate_kbps {
            Some(rate) => rates(samples.drop_last()).push(rate as int),
            None => rates(samples.drop_last()),
        }
    }
}

/// The access points of a series, in order, with repeats.
pub open spec fn stations(samples: Seq<Sample>) -> Seq<Seq<char>>
    decreases samples.len(),
{
    if samples.len() == 0 {
        seq![]
    } else {
        match samples.last().bssid {
            Some(bssid) => stations(samples.drop_last()).push(bssid@),
            None => stations(samples.drop_last()),
        }
    }
}

/// How many samples have no association.
pub open spec fn gaps(samples: Seq<Sample>) -> nat
    decreases samples.len(),
{
    if samples.len() == 0 {
        0
    } else if samples.last().connected {
        gaps(samples.drop_last())
    } else {
        gaps(samples.drop_last()) + 1
    }
}

/// Each text once, in the order first seen.
pub open spec fn distinct(list: Seq<Seq<char>>) -> Seq<Seq<char>>
    decreases list.len(),
{
    if list.len() == 0 {
        seq![]
    } else {
        let earlier = distinct(list.drop_last());
        if earlier.contains(list.last()) {
            earlier
        } else {
            earlier.push(list.last())
        }
    }
}

/// How often one text is followed by another one.
pub open spec fn transitions(list: Seq<Seq<char>>) -> nat
    decreases list.len(),
{
    if list.len() < 2 {
        0
    } else if list[list.len() - 2] != list.last() {
        transitions(list.drop_last()) + 1
    } else {
        transitions(list.drop_last())
    }
}

/// Whether `value` is the smallest of `list`; an empty list has none.
pub open spec fn is_least(list: Seq<int>, value: Option<int>) -> bool {
    match value {
        Some(v) => list.contains(v) && forall|i: int| 0 <= i < list.len() ==> v <= #[trigger] list[i],
        None => list.len() == 0,
    }
}

/// Whether `value` is the greatest of `list`; an empty list has none.
pub open spec fn is_greatest(list: Seq<int>, value: Option<int>) -> bool {
    match value {
        Some(v) => list.contains(v) && forall|i: int| 0 <= i < list.len() ==> #[trigger] list[i] <= v,
        None => list.len() == 0,
    }
}

/// The sum of readings.
pub open spec fn total(list: Seq<int>) -> int
    decreases list.len(),
{
    if list.len() == 0 {
        0
    } else {
        total(list.drop_last()) + list.last()
    }
}

/// The mean of readings, rounded towards zero; an empty list has none.
pub open spec fn mean_of(list: Seq<int>) -> Option<int> {
    if list.len() == 0 {
        None
    } else {
        Some(num::towards_zero(total(list), list.len() as int))
    }
}

/// A level as a mathematical integer.
pub open spec fn level_of(value: Option<i32>) -> Option<int> {
    match value {
        Some(v) => Some(v as int),
        None => None,
    }
}

/// A rate as a mathematical integer.
pub open spec fn rate_of(value: Option<u32>) -> Option<int> {
    match value {
        Some(v) => Some(v as int),
        None => None,
    }
}

/// Whether `run` sums up `samples`.
pub open spec fn aggregates(run: SampleRun, samples: Seq<Sample>) -> bool {
    &&& run.sample_count == samples.len()
    &&& run.disconnected_samples == gaps(samples)
    &&& text::texts(run.bssids_seen@) == distinct(stations(samples))
    &&& run.roam_count == transitions(stations(samples))
    &&& is_least(levels(samples), level_of(run.rssi_min_dbm))
    &&& is_greatest(levels(samples), level_of(run.rssi_max_dbm))
    &&& level_of(run.rssi_mean_dbm) == mean_of(levels(samples))
    &&& level_of(run.rssi_swing_db) == (if run.rssi_max_dbm is Some {
        Some(run.rssi_max_dbm->0 - run.rssi_min_dbm->0)
    } else {
        None
    })
    &&& is_least(rates(samples), rate_of(run.rx_rate_min_kbps))
    &&& is_greatest(rates(samples), rate_of(run.rx_rate_max_kbps))
    &&& run.samples@ == samples
}

/// Whether the swing between any two readings fits the number it is kept in.
pub open spec fn swing_fits(samples: Seq<Sample>) -> bool {
    forall|i: int, j: int|
        0 <= i < levels(samples).len() && 0 <= j < levels(samples).len() ==> #[trigger] levels(
            samples,
        )[i] - #[trigger] levels(samples)[j] <= i32::MAX
}

proof fn lemma_total_bounds(list: Seq<int>, low: int, high: int)
    requires
        forall|i: int| 0 <= i < list.len() ==> low <= #[trigger] list[i] <= high,
    ensures
        low * list.len() <= total(list) <= high * list.len(),
    decreases list.len(),
{
    if list.len() > 0 {
        assert forall|i: int| 0 <= i < list.drop_last().len() implies low
            <= #[trigger] list.drop_last()[i] <= high by {
            assert(list.drop_last()[i] == list[i]);
        }
        lemma_total_bounds(list.drop_last(), low, high);
        let n = list.len() as int;
        assert(low * n == low * (n - 1) + low) by (nonlinear_arith);
        assert(high * n == high * (n - 1) + high) by (nonlinear_arith);
        assert(low <= list[n - 1] <= high);
    }
}

/// The mean lies between the smallest and the greatest reading.
pub proof fn lemma_mean_within_extremes(list: Seq<int>, low: int, high: int)
    requires
        list.len() > 0,
        is_least(list, Some(low)),
        is_greatest(list, Some(high)),
    ensures
        low <= mean_of(list)->0 <= high,
{
    lemma_total_bounds(list, low, high);
    num::lemma_quotient_bounds(total(list), list.len() as int, low, high);
}

/// A drop and return to the same access point is not a roam: samples without
/// an association do not count as a change of access point.
pub proof fn lemma_gap_is_no_roam(before: Seq<Sample>, gap: Sample, back: Sample)
    requires
        before.len() > 0,
        before.last().bssid is Some,
        gap.bssid is None,
        back.bssid is Some,
        back.bssid->0@ == before.last().bssid->0@,
    ensures
        transitions(stations(before.push(gap).push(back))) == transitions(stations(before)),
{
    let with_gap = before.push(gap);
    let all = with_gap.push(back);
    assert(with_gap.drop_last() =~= before);
    assert(all.drop_last() =~= with_gap);
    assert(with_gap.last() == gap && all.last() == back);
    assert(stations(with_gap) == stations(before));
    let earlier = stations(before);
    let longer = earlier.push(back.bssid->0@);
    assert(stations(all) == longer);
    assert(longer.drop_last() =~= earlier);
    assert(earlier.last() == before.last().bssid->0@);
}

/// No access point is listed twice.
pub proof fn lemma_distinct_has_no_repeats(list: Seq<Seq<char>>)
    ensures
        distinct(list).no_duplicates(),
        forall|x: Seq<char>| #[trigger] distinct(list).contains(x) <==> list.contains(x),
    decreases list.len(),
{
    if list.len() > 0 {
        let head = list.drop_last();
        lemma_distinct_has_no_repeats(head);
        let earlier = distinct(head);
        assert forall|x: Seq<char>| #[trigger] distinct(list).contains(x) <==> list.contains(x) by {
            if list.contains(x) {
                let i = choose|i: int| 0 <= i < list.len() && list[i] == x;
                if i < head.len() {
                    assert(head[i] == x);
                    assert(earlier.contains(x));
                }
                if !earlier.contains(list.last()) {
                    if earlier.contains(x) {
                        let k = choose|k: int| 0 <= k < earlier.len() && earlier[k] == x;
                        assert(earlier.push(list.last())[k] == x);
                    } else {
                        assert(earlier.push(list.last())[earlier.len() as int] == x);
                    }
                }
            }
            if distinct(list).contains(x) {
                let k = choose|k: int| 0 <= k < distinct(list).len() && distinct(list)[k] == x;
                if k < earlier.len() {
                    assert(earlier[k] == x);
                    assert(distinct(head).contains(x));
                    let i = choose|i: int| 0 <= i < head.len() && head[i] == x;
                    assert(list[i] == x);
                } else {
                    assert(list[list.len() - 1] == x);
                }
            }
        }
    }
}

/// A series without any association has no signal statistics.
pub proof fn lemma_disconnected_run_has_no_levels(samples: Seq<Sample>)
    requires
        forall|i: int|
            0 <= i < samples.len() ==> (#[trigger] samples[i]).rssi_dbm_estimate is None
                && samples[i].bssid is None && !samples[i].connected,
    ensures
        gaps(samples) == samples.len(),
        mean_of(levels(samples)) is None,
        distinct(stations(samples)) == Seq::<Seq<char>>::empty(),
    decreases samples.len(),
{
    if samples.len() > 0 {
        let head = samples.drop_last();
        assert forall|i: int| 0 <= i < head.len() implies (
        #[trigger] head[i]).rssi_dbm_estimate is None && head[i].bssid is None
            && !head[i].connected by {
            assert(head[i] == samples[i]);
        }
        lemma_disconnected_run_has_no_levels(head);
        assert(samples.last() == samples[samples.len() - 1]);
        assert(levels(head).len() == 0);
        assert(stations(head).len() == 0 || distinct(stations(head)).len() == 0);
        assert(stations(samples) == stations(head));
    }
}

/// The smaller of a number and what was smallest so far.
fn smaller(least: Option<i64>, value: i64, Ghost(seen): Ghost<Seq<int>>) -> (r: Option<i64>)
    requires
        is_least(seen, match least {
            Some(v) => Some(v as int),
            None => None,
        }),
    ensures
        r is Some,
        is_least(seen.push(value as int), Some(r->0 as int)),
        r == Some(value) || r == least,
{
    let ghost longer = seen.push(value as int);
    proof {
        assert(longer[seen.len() as int] == value);
    }
    match least {
        Some(v) => if v <= value {
            proof {
                let k = choose|k: int| 0 <= k < seen.len() && seen[k] == v;
                assert(longer[k] == v);
            }
            Some(v)
        } else {
            Some(value)
        },
        None => Some(value),
    }
}

/// The greater of a number and what was greatest so far.
fn greater(greatest: Option<i64>, value: i64, Ghost(seen): Ghost<Seq<int>>) -> (r: Option<i64>)
    requires
        is_greatest(seen, match greatest {
            Some(v) => Some(v as int),
            None => None,
        }),
    ensures
        r is Some,
        is_greatest(seen.push(value as int), Some(r->0 as int)),
        r == Some(value) || r == greatest,
{
    let ghost longer = seen.push(value as int);
    proof {
        assert(longer[seen.len() as int] == value);
    }
    match greatest {
        Some(v) => if v >= value {
            proof {
                let k = choose|k: int| 0 <= k < seen.len() && seen[k] == v;
                assert(longer[k] == v);
            }
            Some(v)
        } else {
            Some(value)
        },
        None => Some(value),
    }
}

fn contains_text(list: &Vec<String>, value: &str) -> (r: bool)
    ensures
        r == text::texts(list@).contains(value@),
{
    let ghost seen = text::texts(list@);
    let mut i: usize = 0;
    while i < list.len()
        invariant
            i <= list.len(),
            seen == text::texts(list@),
            forall|j: int| 0 <= j < i ==> seen[j] != value@,
        decreases list.len() - i,
    {
        if same_text(list[i].as_str(), value) {
            proof {
                assert(seen[i as int] == value@);
            }
            return true;
        }
        i = i + 1;
    }
    false
}

/// Sum up a series of samples.
pub fn summarize(
    duration_s: u64,
    interval_ms: u64,
    ssid: Option<String>,
    samples: Vec<Sample>,
) -> (r: SampleRun)
    requires
        swing_fits(samples@),
    ensures
        r.duration_s == duration_s,
        r.interval_ms == interval_ms,
        r.ssid == ssid,
        aggregates(r, samples@),
{
    let mut bssids_seen: Vec<String> = Vec::new();
    let mut roam_count: usize = 0;
    let mut previous: Option<usize> = None;
    let mut disconnected: usize = 0;
    let mut rssi_min: Option<i64> = None;
    let mut rssi_max: Option<i64> = None;
    let mut rssi_sum: i128 = 0;
    let mut rssi_count: u64 = 0;
    let mut rate_min: Option<i64> = None;
    let mut rate_max: Option<i64> = None;
    let mut i: usize = 0;
    proof {
        assert(text::texts(bssids_seen@) =~= distinct(stations(samples@.take(0))));
        assert(samples@.take(0) =~= seq![]);
    }
    while i < samples.len()
        invariant
            i <= samples.len(),
            text::texts(bssids_seen@) == distinct(stations(samples@.take(i as int))),
            roam_count == transitions(stations(samples@.take(i as int))),
            roam_count <= i,
            disconnected == gaps(samples@.take(i as int)),
            disconnected <= i,
            match previous {
                Some(p) => p < i && samples@[p as int].bssid is Some && stations(
                    samples@.take(i as int),
                ).len() > 0 && stations(samples@.take(i as int)).last()
                    == samples@[p as int].bssid->0@,
                None => stations(samples@.take(i as int)).len() == 0,
            },
            is_least(levels(samples@.take(i as int)), match rssi_min {
                Some(v) => Some(v as int),
                None => None,
            }),
            is_greatest(levels(samples@.take(i as int)), match rssi_max {
                Some(v) => Some(v as int),
                None => None,
            }),
            rssi_min is Some ==> i32::MIN <= rssi_min->0 <= i32::MAX,
            rssi_max is Some ==> i32::MIN <= rssi_max->0 <= i32::MAX,
            rssi_count == levels(samples@.take(i as int)).len(),
            rssi_count <= i,
            rssi_sum == total(levels(samples@.take(i as int))),
            -0x8000_0000 * rssi_count <= rssi_sum <= 0x7fff_ffff * rssi_count,
            is_least(rates(samples@.take(i as int)), match rate_min {
                Some(v) => Some(v as int),
                None => None,
            }),
            is_greatest(rates(samples@.take(i as int)), match rate_max {
                Some(v) => Some(v as int),
                None => None,
            }),
            rate_min is Some ==> 0 <= rate_min->0 <= u32::MAX,
            rate_max is Some ==> 0 <= rate_max->0 <= u32::MAX,
        decreases samples.len() - i,
    {
        let ghost head = samples@.take(i as int);
        let ghost longer = samples@.take(i + 1);
        proof {
            assert(longer.drop_last() =~= head);
            assert(longer.last() == samples@[i as int]);
        }
        if let Some(bssid) = &samples[i].bssid {
            proof {
                let list = stations(longer);
                assert(list.drop_last() =~= stations(head));
            }
            if !contains_text(&bssids_seen, bssid.as_str()) {
                bssids_seen.push(bssid.clone());
                proof {
                    assert(text::texts(bssids_seen@) =~= distinct(stations(head)).push(bssid@));
                }
            }
            // Count a transition only between two observed associations, so a drop
            // and reconnect to the same AP is not miscounted as roaming.
            if let Some(p) = previous {
                if let Some(earlier) = &samples[p].bssid {
                    if !same_text(earlier.as_str(), bssid.as_str()) {
                        roam_count = roam_count + 1;
                    }
                }
            }
            previous = Some(i);
        }
        if !samples[i].connected {
            disconnected = disconnected + 1;
        }
        if let Some(level) = samples[i].rssi_dbm_estimate {
            rssi_min = smaller(rssi_min, level as i64, Ghost(levels(head)));
            rssi_max = greater(rssi_max, level as i64, Ghost(levels(head)));
            rssi_sum = rssi_sum + level as i128;
            rssi_count = rssi_count + 1;
            proof {
                assert(levels(longer).drop_last() =~= levels(head));
            }
        }
        if let Some(rate) = samples[i].rx_rate_kbps {
            rate_min = smaller(rate_min, rate as i64, Ghost(rates(head)));
            rate_max = greater(rate_max, rate as i64, Ghost(rates(head)));
        }
        i = i + 1;
    }
    proof {
        assert(samples@.take(i as int) =~= samples@);
    }
    let rssi_mean_dbm: Option<i32> = if rssi_count == 0 {
        None
    } else {
        proof {
            num::lemma_quotient_bounds(
                rssi_sum as int,
                rssi_count as int,
                -0x8000_0000,
                0x7fff_ffff,
            );
        }
        Some(divide(rssi_sum, rssi_count) as i32)
    };
    let rssi_swing_db: Option<i32> = match (rssi_max, rssi_min) {
        (Some(max), Some(min)) => {
            proof {
                let all = levels(samples@);
                let k = choose|k: int| 0 <= k < all.len() && all[k] == max;
                let l = choose|l: int| 0 <= l < all.len() && all[l] == min;
                assert(all[k] - all[l] <= i32::MAX);
            }
            Some((max - min) as i32)
        },
        _ => None,
    };
    SampleRun {
        duration_s,
        interval_ms,
        sample_count: samples.len(),
        ssid,
        disconnected_samples: disconnected,
        bssids_seen,
        roam_count,
        rssi_min_dbm: match rssi_min {
            Some(v) => Some(v as i32),
            None => None,
        },
        rssi_max_dbm: match rssi_max {
            Some(v) => Some(v as i32),
            None => None,
        },
        rssi_mean_dbm,
        rssi_swing_db,
        rx_rate_min_kbps: match rate_min {
            Some(v) => Some(v as u32),
            None => None,
        },
        rx_rate_max_kbps: match rate_max {
            Some(v) => Some(v as u32),
            None => None,
        },
        samples,
    }
}

} // verus!

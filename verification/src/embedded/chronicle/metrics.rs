//! Heartbeat metrics of one logical connectivity path.

use super::types::MetricsSnapshot;
use crate::num;
use crate::num::divide;
use vstd::prelude::*;

verus! {

/// What a tracker has counted in its window.
#[verifier::ext_equal]
pub struct MetricsModel {
    pub window_started_ms: u64,
    pub last_accounted_ms: u64,
    pub expected: bool,
    pub connected: bool,
    pub expected_connectivity_ms: u64,
    pub wifi_connected_ms: u64,
    pub expected_wifi_connected_ms: u64,
    pub association_attempts: u32,
    pub disconnect_count: u32,
    pub roam_count: u32,
    pub backend_successes: u32,
    pub backend_failures: u32,
    pub rssi_sample_count: u32,
    pub rssi_sum_dbm: i64,
    pub rssi_min_dbm: Option<i32>,
    pub rssi_max_dbm: Option<i32>,
    pub last_disconnect_reason: Option<u16>,
    pub attempt_started_ms: Option<u64>,
    pub last_time_to_associate_ms: Option<u64>,
    pub last_time_to_ip_ms: Option<u64>,
    pub last_time_to_backend_ms: Option<u64>,
}

/// A time that does not fit 64 bits counts as the greatest that does.
pub open spec fn capped_ms(value: int) -> u64 {
    if value > u64::MAX {
        u64::MAX
    } else {
        value as u64
    }
}

/// One more, as far as the counter goes.
pub open spec fn counted(count: u32) -> u32 {
    if count == u32::MAX {
        count
    } else {
        (count + 1) as u32
    }
}

/// The time from `started` to `now`; none where the clock went back.
pub open spec fn elapsed(started: u64, now: u64) -> u64 {
    if now < started {
        0
    } else {
        (now - started) as u64
    }
}

/// The time since an attempt began, where one did.
pub open spec fn since(started: Option<u64>, now: u64) -> Option<u64> {
    match started {
        Some(at) => Some(elapsed(at, now)),
        None => None,
    }
}

impl MetricsModel {
    /// A window that starts at `started_ms`, with connectivity expected and no
    /// association.
    pub open spec fn fresh(started_ms: u64) -> MetricsModel {
        MetricsModel {
            window_started_ms: started_ms,
            last_accounted_ms: started_ms,
            expected: true,
            connected: false,
            expected_connectivity_ms: 0,
            wifi_connected_ms: 0,
            expected_wifi_connected_ms: 0,
            association_attempts: 0,
            disconnect_count: 0,
            roam_count: 0,
            backend_successes: 0,
            backend_failures: 0,
            rssi_sample_count: 0,
            rssi_sum_dbm: 0,
            rssi_min_dbm: None,
            rssi_max_dbm: None,
            last_disconnect_reason: None,
            attempt_started_ms: None,
            last_time_to_associate_ms: None,
            last_time_to_ip_ms: None,
            last_time_to_backend_ms: None,
        }
    }

    /// The time since the last account, put where the states of that time
    /// belong.
    pub open spec fn accounted(self, now_ms: u64) -> MetricsModel {
        let passed = elapsed(self.last_accounted_ms, now_ms);
        MetricsModel {
            expected_connectivity_ms: if self.expected {
                capped_ms(self.expected_connectivity_ms + passed)
            } else {
                self.expected_connectivity_ms
            },
            wifi_connected_ms: if self.connected {
                capped_ms(self.wifi_connected_ms + passed)
            } else {
                self.wifi_connected_ms
            },
            expected_wifi_connected_ms: if self.expected && self.connected {
                capped_ms(self.expected_wifi_connected_ms + passed)
            } else {
                self.expected_wifi_connected_ms
            },
            last_accounted_ms: now_ms,
            ..self
        }
    }

    /// Connectivity is expected, or not, from `now_ms` on.
    pub open spec fn expecting(self, now_ms: u64, expected: bool) -> MetricsModel {
        MetricsModel { expected, ..self.accounted(now_ms) }
    }

    /// An attempt to associate begins.
    pub open spec fn attempting(self, now_ms: u64) -> MetricsModel {
        MetricsModel {
            association_attempts: counted(self.association_attempts),
            attempt_started_ms: Some(now_ms),
            ..self.accounted(now_ms)
        }
    }

    /// A signal reading comes in.
    pub open spec fn hearing(self, rssi: i32) -> MetricsModel {
        MetricsModel {
            rssi_sample_count: counted(self.rssi_sample_count),
            rssi_sum_dbm: if self.rssi_sum_dbm + rssi > i64::MAX {
                i64::MAX
            } else if self.rssi_sum_dbm + rssi < i64::MIN {
                i64::MIN
            } else {
                (self.rssi_sum_dbm + rssi) as i64
            },
            rssi_min_dbm: Some(
                if self.rssi_min_dbm is Some && self.rssi_min_dbm->0 <= rssi {
                    self.rssi_min_dbm->0
                } else {
                    rssi
                },
            ),
            rssi_max_dbm: Some(
                if self.rssi_max_dbm is Some && self.rssi_max_dbm->0 >= rssi {
                    self.rssi_max_dbm->0
                } else {
                    rssi
                },
            ),
            ..self
        }
    }

    /// A poll of the association.
    pub open spec fn polled(
        self,
        now_ms: u64,
        connected: bool,
        rssi_dbm: Option<i32>,
        reason: Option<u16>,
    ) -> MetricsModel {
        let linked = MetricsModel {
            last_time_to_associate_ms: if !self.connected && connected {
                since(self.attempt_started_ms, now_ms)
            } else {
                self.last_time_to_associate_ms
            },
            disconnect_count: if self.connected && !connected {
                counted(self.disconnect_count)
            } else {
                self.disconnect_count
            },
            last_disconnect_reason: if self.connected && !connected {
                reason
            } else {
                self.last_disconnect_reason
            },
            connected,
            ..self.accounted(now_ms)
        };
        match rssi_dbm {
            Some(rssi) => linked.hearing(rssi),
            None => linked,
        }
    }

    /// The association moved to another access point.
    pub open spec fn roaming(self, now_ms: u64) -> MetricsModel {
        MetricsModel { roam_count: counted(self.roam_count), ..self.accounted(now_ms) }
    }

    /// The interface has an address.
    pub open spec fn addressed(self, now_ms: u64) -> MetricsModel {
        MetricsModel {
            last_time_to_ip_ms: since(self.attempt_started_ms, now_ms),
            ..self.accounted(now_ms)
        }
    }

    /// The backend was tried. Reaching it ends the attempt.
    pub open spec fn backed(self, now_ms: u64, reachable: bool) -> MetricsModel {
        if reachable {
            MetricsModel {
                backend_successes: counted(self.backend_successes),
                last_time_to_backend_ms: since(self.attempt_started_ms, now_ms),
                attempt_started_ms: None,
                ..self.accounted(now_ms)
            }
        } else {
            MetricsModel {
                backend_failures: counted(self.backend_failures),
                ..self.accounted(now_ms)
            }
        }
    }

    /// A new window starts: counts and readings begin anew, while the states of
    /// the link and an attempt under way go on.
    pub open spec fn restarted(self, now_ms: u64) -> MetricsModel {
        MetricsModel {
            expected: self.expected,
            connected: self.connected,
            attempt_started_ms: self.attempt_started_ms,
            ..MetricsModel::fresh(now_ms)
        }
    }

    /// The share of expected time with an association, in tenths of a percent.
    pub open spec fn uptime(self) -> Option<u16> {
        if self.expected_connectivity_ms == 0 {
            None
        } else {
            let permille = capped_ms(self.expected_wifi_connected_ms * 1000) as int
                / self.expected_connectivity_ms as int;
            Some(if permille > 1000 {
                1000
            } else {
                permille as u16
            })
        }
    }

    /// The mean of the signal readings, rounded towards zero.
    pub open spec fn mean(self) -> Option<i32> {
        if self.rssi_sample_count == 0 {
            None
        } else {
            Some(
                num::towards_zero(self.rssi_sum_dbm as int, self.rssi_sample_count as int) as i32,
            )
        }
    }

    /// The heartbeat of a window that is accounted up to its end.
    pub open spec fn heartbeat(self) -> MetricsSnapshot {
        MetricsSnapshot {
            window_started_ms: self.window_started_ms,
            window_ended_ms: self.last_accounted_ms,
            expected_connectivity_ms: self.expected_connectivity_ms,
            wifi_connected_ms: self.wifi_connected_ms,
            expected_wifi_connected_ms: self.expected_wifi_connected_ms,
            connectivity_uptime_permille: self.uptime(),
            association_attempts: self.association_attempts,
            disconnect_count: self.disconnect_count,
            roam_count: self.roam_count,
            backend_successes: self.backend_successes,
            backend_failures: self.backend_failures,
            rssi_sample_count: self.rssi_sample_count,
            rssi_min_dbm: self.rssi_min_dbm,
            rssi_max_dbm: self.rssi_max_dbm,
            rssi_mean_dbm: self.mean(),
            last_disconnect_reason: self.last_disconnect_reason,
            last_time_to_associate_ms: self.last_time_to_associate_ms,
            last_time_to_ip_ms: self.last_time_to_ip_ms,
            last_time_to_backend_ms: self.last_time_to_backend_ms,
        }
    }

    /// What holds of every window: time with an expected association is part of
    /// the expected time and of the associated time, and the signal readings
    /// lie between their extremes, as does their sum while every reading is
    /// counted.
    pub open spec fn consistent(self) -> bool {
        &&& self.expected_wifi_connected_ms <= self.expected_connectivity_ms
        &&& self.expected_wifi_connected_ms <= self.wifi_connected_ms
        &&& self.rssi_sample_count == 0 <==> self.rssi_min_dbm is None
        &&& self.rssi_sample_count == 0 <==> self.rssi_max_dbm is None
        &&& self.rssi_sample_count == 0 ==> self.rssi_sum_dbm == 0
        &&& 0 < self.rssi_sample_count < u32::MAX ==> self.rssi_min_dbm->0 * self.rssi_sample_count
            <= self.rssi_sum_dbm <= self.rssi_max_dbm->0 * self.rssi_sample_count
        &&& self.rssi_sample_count > 0 ==> self.rssi_min_dbm->0 <= self.rssi_max_dbm->0
    }

    /// Whether no more time is counted than the window has lasted.
    pub open spec fn within_window(self) -> bool {
        &&& self.window_started_ms <= self.last_accounted_ms
        &&& self.expected_connectivity_ms <= self.last_accounted_ms - self.window_started_ms
        &&& self.wifi_connected_ms <= self.last_accounted_ms - self.window_started_ms
        &&& self.expected_wifi_connected_ms <= self.last_accounted_ms - self.window_started_ms
    }
}

/// Counts a path's connectivity. Every call first accounts for the elapsed
/// interval, so irregular polling does not distort uptime.
#[derive(Debug, Clone)]
pub struct MetricsTracker {
    window_started_ms: u64,
    last_accounted_ms: u64,
    expected: bool,
    connected: bool,
    expected_connectivity_ms: u64,
    wifi_connected_ms: u64,
    expected_wifi_connected_ms: u64,
    association_attempts: u32,
    disconnect_count: u32,
    roam_count: u32,
    backend_successes: u32,
    backend_failures: u32,
    rssi_sample_count: u32,
    rssi_sum_dbm: i64,
    rssi_min_dbm: Option<i32>,
    rssi_max_dbm: Option<i32>,
    last_disconnect_reason: Option<u16>,
    attempt_started_ms: Option<u64>,
    last_time_to_associate_ms: Option<u64>,
    last_time_to_ip_ms: Option<u64>,
    last_time_to_backend_ms: Option<u64>,
}

impl View for MetricsTracker {
    type V = MetricsModel;

    closed spec fn view(&self) -> MetricsModel {
        MetricsModel {
            window_started_ms: self.window_started_ms,
            last_accounted_ms: self.last_accounted_ms,
            expected: self.expected,
            connected: self.connected,
            expected_connectivity_ms: self.expected_connectivity_ms,
            wifi_connected_ms: self.wifi_connected_ms,
            expected_wifi_connected_ms: self.expected_wifi_connected_ms,
            association_attempts: self.association_attempts,
            disconnect_count: self.disconnect_count,
            roam_count: self.roam_count,
            backend_successes: self.backend_successes,
            backend_failures: self.backend_failures,
            rssi_sample_count: self.rssi_sample_count,
            rssi_sum_dbm: self.rssi_sum_dbm,
            rssi_min_dbm: self.rssi_min_dbm,
            rssi_max_dbm: self.rssi_max_dbm,
            last_disconnect_reason: self.last_disconnect_reason,
            attempt_started_ms: self.attempt_started_ms,
            last_time_to_associate_ms: self.last_time_to_associate_ms,
            last_time_to_ip_ms: self.last_time_to_ip_ms,
            last_time_to_backend_ms: self.last_time_to_backend_ms,
        }
    }
}

fn time_since(started: Option<u64>, now_ms: u64) -> (r: Option<u64>)
    ensures
        r == since(started, now_ms),
{
    match started {
        Some(at) => Some(now_ms.saturating_sub(at)),
        None => None,
    }
}

fn add_level(sum: i64, rssi: i32) -> (r: i64)
    ensures
        r == (if sum + rssi > i64::MAX {
            i64::MAX
        } else if sum + rssi < i64::MIN {
            i64::MIN
        } else {
            (sum + rssi) as i64
        }),
{
    match sum.checked_add(rssi as i64) {
        Some(total) => total,
        None => if rssi > 0 {
            i64::MAX
        } else {
            i64::MIN
        },
    }
}

impl MetricsTracker {
    pub fn new(started_ms: u64) -> (r: Self)
        ensures
            r@ == MetricsModel::fresh(started_ms),
    {
        MetricsTracker {
            window_started_ms: started_ms,
            last_accounted_ms: started_ms,
            expected: true,
            connected: false,
            expected_connectivity_ms: 0,
            wifi_connected_ms: 0,
            expected_wifi_connected_ms: 0,
            association_attempts: 0,
            disconnect_count: 0,
            roam_count: 0,
            backend_successes: 0,
            backend_failures: 0,
            rssi_sample_count: 0,
            rssi_sum_dbm: 0,
            rssi_min_dbm: None,
            rssi_max_dbm: None,
            last_disconnect_reason: None,
            attempt_started_ms: None,
            last_time_to_associate_ms: None,
            last_time_to_ip_ms: None,
            last_time_to_backend_ms: None,
        }
    }

    pub fn set_expected(&mut self, now_ms: u64, expected: bool)
        ensures
            final(self)@ == old(self)@.expecting(now_ms, expected),
    {
        self.account(now_ms);
        self.expected = expected;
    }

    pub fn association_attempt(&mut self, now_ms: u64)
        ensures
            final(self)@ == old(self)@.attempting(now_ms),
    {
        self.account(now_ms);
        self.association_attempts = self.association_attempts.saturating_add(1);
        self.attempt_started_ms = Some(now_ms);
    }

    pub fn observe_connection(
        &mut self,
        now_ms: u64,
        connected: bool,
        rssi_dbm: Option<i32>,
        disconnect_reason: Option<u16>,
    )
        ensures
            final(self)@ == old(self)@.polled(now_ms, connected, rssi_dbm, disconnect_reason),
    {
        self.account(now_ms);
        if !self.connected && connected {
            self.last_time_to_associate_ms = time_since(self.attempt_started_ms, now_ms);
        } else if self.connected && !connected {
            self.disconnect_count = self.disconnect_count.saturating_add(1);
            self.last_disconnect_reason = disconnect_reason;
        }
        self.connected = connected;
        if let Some(rssi) = rssi_dbm {
            self.rssi_sample_count = self.rssi_sample_count.saturating_add(1);
            self.rssi_sum_dbm = add_level(self.rssi_sum_dbm, rssi);
            self.rssi_min_dbm = match self.rssi_min_dbm {
                Some(value) if value <= rssi => Some(value),
                _ => Some(rssi),
            };
            self.rssi_max_dbm = match self.rssi_max_dbm {
                Some(value) if value >= rssi => Some(value),
                _ => Some(rssi),
            };
        }
    }

    pub fn roam(&mut self, now_ms: u64)
        ensures
            final(self)@ == old(self)@.roaming(now_ms),
    {
        self.account(now_ms);
        self.roam_count = self.roam_count.saturating_add(1);
    }

    pub fn ip_acquired(&mut self, now_ms: u64)
        ensures
            final(self)@ == old(self)@.addressed(now_ms),
    {
        self.account(now_ms);
        self.last_time_to_ip_ms = time_since(self.attempt_started_ms, now_ms);
    }

    pub fn backend_result(&mut self, now_ms: u64, reachable: bool)
        ensures
            final(self)@ == old(self)@.backed(now_ms, reachable),
    {
        self.account(now_ms);
        if reachable {
            self.backend_successes = self.backend_successes.saturating_add(1);
            self.last_time_to_backend_ms = time_since(self.attempt_started_ms, now_ms);
            self.attempt_started_ms = None;
        } else {
            self.backend_failures = self.backend_failures.saturating_add(1);
        }
    }

    pub fn snapshot(&mut self, now_ms: u64) -> (r: MetricsSnapshot)
        ensures
            final(self)@ == old(self)@.accounted(now_ms),
            r == old(self)@.accounted(now_ms).heartbeat(),
    {
        self.account(now_ms);
        let uptime: Option<u16> = if self.expected_connectivity_ms == 0 {
            None
        } else {
            let product: u128 = self.expected_wifi_connected_ms as u128 * 1000;
            let scaled: u64 = if product > u64::MAX as u128 {
                u64::MAX
            } else {
                product as u64
            };
            let permille: u64 = scaled / self.expected_connectivity_ms;
            Some(if permille > 1000 {
                1000
            } else {
                permille as u16
            })
        };
        let mean: Option<i32> = if self.rssi_sample_count == 0 {
            None
        } else {
            Some(divide(self.rssi_sum_dbm as i128, self.rssi_sample_count as u64) as i32)
        };
        MetricsSnapshot {
            window_started_ms: self.window_started_ms,
            window_ended_ms: now_ms,
            expected_connectivity_ms: self.expected_connectivity_ms,
            wifi_connected_ms: self.wifi_connected_ms,
            expected_wifi_connected_ms: self.expected_wifi_connected_ms,
            connectivity_uptime_permille: uptime,
            association_attempts: self.association_attempts,
            disconnect_count: self.disconnect_count,
            roam_count: self.roam_count,
            backend_successes: self.backend_successes,
            backend_failures: self.backend_failures,
            rssi_sample_count: self.rssi_sample_count,
            rssi_min_dbm: self.rssi_min_dbm,
            rssi_max_dbm: self.rssi_max_dbm,
            rssi_mean_dbm: mean,
            last_disconnect_reason: self.last_disconnect_reason,
            last_time_to_associate_ms: self.last_time_to_associate_ms,
            last_time_to_ip_ms: self.last_time_to_ip_ms,
            last_time_to_backend_ms: self.last_time_to_backend_ms,
        }
    }

    pub fn reset_window(&mut self, now_ms: u64)
        ensures
            final(self)@ == old(self)@.restarted(now_ms),
    {
        self.account(now_ms);
        self.window_started_ms = now_ms;
        self.last_accounted_ms = now_ms;
        self.expected_connectivity_ms = 0;
        self.wifi_connected_ms = 0;
        self.expected_wifi_connected_ms = 0;
        self.association_attempts = 0;
        self.disconnect_count = 0;
        self.roam_count = 0;
        self.backend_successes = 0;
        self.backend_failures = 0;
        self.rssi_sample_count = 0;
        self.rssi_sum_dbm = 0;
        self.rssi_min_dbm = None;
        self.rssi_max_dbm = None;
        self.last_disconnect_reason = None;
        self.last_time_to_associate_ms = None;
        self.last_time_to_ip_ms = None;
        self.last_time_to_backend_ms = None;
    }

    fn account(&mut self, now_ms: u64)
        ensures
            final(self)@ == old(self)@.accounted(now_ms),
    {
        let elapsed: u64 = now_ms.saturating_sub(self.last_accounted_ms);
        if self.expected {
            self.expected_connectivity_ms = self.expected_connectivity_ms.saturating_add(elapsed);
        }
        if self.connected {
            self.wifi_connected_ms = self.wifi_connected_ms.saturating_add(elapsed);
        }
        if self.expected && self.connected {
            self.expected_wifi_connected_ms = self.expected_wifi_connected_ms.saturating_add(
                elapsed,
            );
        }
        self.last_accounted_ms = now_ms;
    }
}

// ---------------------------------------------------------------------------
// Laws
// ---------------------------------------------------------------------------

/// Irregular polling does not distort the count: an account in between leaves
/// the next one as it would have been.
pub proof fn lemma_accounts_add_up(metrics: MetricsModel, between_ms: u64, now_ms: u64)
    requires
        metrics.last_accounted_ms <= between_ms <= now_ms,
    ensures
        metrics.accounted(between_ms).accounted(now_ms) == metrics.accounted(now_ms),
{
}

/// Time during which connectivity is not expected is no part of the
/// denominator.
pub proof fn lemma_unexpected_time_is_left_out(metrics: MetricsModel, from_ms: u64, to_ms: u64)
    ensures
        metrics.expecting(from_ms, false).expecting(to_ms, true).expected_connectivity_ms
            == metrics.accounted(from_ms).expected_connectivity_ms,
        metrics.expecting(from_ms, false).expecting(to_ms, true).expected_wifi_connected_ms
            == metrics.accounted(from_ms).expected_wifi_connected_ms,
{
}

/// Uptime is a share: at most 1000, and the whole exactly where the link was
/// up for all of the expected time, as far as the product fits.
pub proof fn lemma_uptime_is_a_share(metrics: MetricsModel)
    requires
        metrics.consistent(),
        metrics.expected_connectivity_ms > 0,
    ensures
        metrics.uptime() is Some,
        metrics.uptime()->0 <= 1000,
        metrics.expected_wifi_connected_ms * 1000 <= u64::MAX ==> metrics.uptime()->0
            == metrics.expected_wifi_connected_ms * 1000 / metrics.expected_connectivity_ms as int,
        metrics.expected_wifi_connected_ms == metrics.expected_connectivity_ms
            && metrics.expected_wifi_connected_ms * 1000 <= u64::MAX ==> metrics.uptime()->0 == 1000,
{
    let up = metrics.expected_wifi_connected_ms as int;
    let all = metrics.expected_connectivity_ms as int;
    assert(up * 1000 / all <= 1000) by (nonlinear_arith)
        requires
            0 <= up <= all,
            all > 0,
    ;
    if up == all {
        assert(up * 1000 / all == 1000) by (nonlinear_arith)
            requires
                up == all,
                all > 0,
        ;
    }
}

/// The mean signal lies between the weakest and the strongest reading.
pub proof fn lemma_mean_between_extremes(metrics: MetricsModel)
    requires
        metrics.consistent(),
        0 < metrics.rssi_sample_count < u32::MAX,
    ensures
        metrics.rssi_min_dbm->0 <= metrics.mean()->0 <= metrics.rssi_max_dbm->0,
{
    num::lemma_quotient_bounds(
        metrics.rssi_sum_dbm as int,
        metrics.rssi_sample_count as int,
        metrics.rssi_min_dbm->0 as int,
        metrics.rssi_max_dbm->0 as int,
    );
}

/// Consistency is what every operation keeps.
pub proof fn lemma_metrics_stay_consistent(
    metrics: MetricsModel,
    now_ms: u64,
    expected: bool,
    connected: bool,
    rssi_dbm: Option<i32>,
    reason: Option<u16>,
    reachable: bool,
)
    requires
        metrics.consistent(),
    ensures
        MetricsModel::fresh(now_ms).consistent(),
        metrics.accounted(now_ms).consistent(),
        metrics.expecting(now_ms, expected).consistent(),
        metrics.attempting(now_ms).consistent(),
        metrics.polled(now_ms, connected, rssi_dbm, reason).consistent(),
        metrics.roaming(now_ms).consistent(),
        metrics.addressed(now_ms).consistent(),
        metrics.backed(now_ms, reachable).consistent(),
        metrics.restarted(now_ms).consistent(),
{
    match rssi_dbm {
        Some(rssi) => lemma_hearing_consistent(metrics.polled(now_ms, connected, None, reason), rssi),
        None => {},
    }
}

proof fn lemma_hearing_consistent(metrics: MetricsModel, rssi: i32)
    requires
        metrics.consistent(),
    ensures
        metrics.hearing(rssi).consistent(),
{
    assert(metrics.hearing(rssi).rssi_sample_count > 0);
    let count = metrics.rssi_sample_count as int;
    let sum = metrics.rssi_sum_dbm as int;
    let after = metrics.hearing(rssi);
    if count == 0 {
        assert(rssi * 1 == rssi);
    } else if count + 1 < u32::MAX {
        let low = metrics.rssi_min_dbm->0 as int;
        let high = metrics.rssi_max_dbm->0 as int;
        let low2 = after.rssi_min_dbm->0 as int;
        let high2 = after.rssi_max_dbm->0 as int;
        assert(low2 * (count + 1) <= sum + rssi) by (nonlinear_arith)
            requires
                low * count <= sum,
                low2 <= low,
                low2 <= rssi,
                count > 0,
        ;
        assert(sum + rssi <= high2 * (count + 1)) by (nonlinear_arith)
            requires
                sum <= high * count,
                high <= high2,
                rssi <= high2,
                count > 0,
        ;
        assert(low2 * (count + 1) >= -0x8000_0000 * 0x1_0000_0000) by (nonlinear_arith)
            requires
                low2 >= -0x8000_0000,
                0 < count + 1 < 0x1_0000_0000,
        ;
        assert(high2 * (count + 1) < 0x8000_0000 * 0x1_0000_0000) by (nonlinear_arith)
            requires
                high2 < 0x8000_0000,
                0 < count + 1 < 0x1_0000_0000,
        ;
    }
}

/// No operation counts more time than the window has lasted, on a clock that
/// does not go back.
pub proof fn lemma_times_stay_within_the_window(
    metrics: MetricsModel,
    now_ms: u64,
    expected: bool,
    connected: bool,
    rssi_dbm: Option<i32>,
    reason: Option<u16>,
    reachable: bool,
)
    requires
        metrics.within_window(),
        metrics.last_accounted_ms <= now_ms,
    ensures
        MetricsModel::fresh(now_ms).within_window(),
        metrics.accounted(now_ms).within_window(),
        metrics.expecting(now_ms, expected).within_window(),
        metrics.attempting(now_ms).within_window(),
        metrics.polled(now_ms, connected, rssi_dbm, reason).within_window(),
        metrics.roaming(now_ms).within_window(),
        metrics.addressed(now_ms).within_window(),
        metrics.backed(now_ms, reachable).within_window(),
        metrics.restarted(now_ms).within_window(),
        ({
            let heartbeat = metrics.accounted(now_ms).heartbeat();
            let length = heartbeat.window_ended_ms - heartbeat.window_started_ms;
            &&& heartbeat.expected_connectivity_ms <= length
            &&& heartbeat.wifi_connected_ms <= length
            &&& heartbeat.expected_wifi_connected_ms <= length
        }),
{
}

/// A new window is empty: its heartbeat counts nothing, while the link's state
/// and an attempt under way carry over.
pub proof fn lemma_new_window_is_empty(metrics: MetricsModel, now_ms: u64)
    ensures
        ({
            let window = metrics.restarted(now_ms);
            let heartbeat = window.heartbeat();
            &&& heartbeat == MetricsModel::fresh(now_ms).heartbeat()
            &&& heartbeat.connectivity_uptime_permille is None
            &&& heartbeat.rssi_mean_dbm is None
            &&& window.connected == metrics.connected
            &&& window.expected == metrics.expected
            &&& window.attempt_started_ms == metrics.attempt_started_ms
        }),
{
}

} // verus!

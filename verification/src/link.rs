//! One link, watched poll by poll: what changed since the last look.
//!
//! A pure state machine. Recorders differ in how they name a change and in
//! what they add to it; what counts as one is decided here, once.

use crate::text;
use crate::text::{as_deref, copied, same_text};
use vstd::prelude::*;

verus! {

/// A single poll of the current association, decoupled from any collector's
/// native types so every collector can feed the same detector.
#[derive(Debug, PartialEq)]
pub struct Observation {
    pub connected: bool,
    pub ssid: Option<String>,
    pub bssid: Option<String>,
    pub rssi_dbm: Option<i32>,
}

/// What an [`Observation`] says.
#[verifier::ext_equal]
pub struct ObservationModel {
    pub connected: bool,
    pub ssid: Option<Seq<char>>,
    pub bssid: Option<Seq<char>>,
    pub rssi_dbm: Option<i32>,
}

impl View for Observation {
    type V = ObservationModel;

    open spec fn view(&self) -> ObservationModel {
        ObservationModel {
            connected: self.connected,
            ssid: text::opt_text(self.ssid),
            bssid: text::opt_text(self.bssid),
            rssi_dbm: self.rssi_dbm,
        }
    }
}

impl Clone for Observation {
    fn clone(&self) -> (r: Self)
        ensures
            r == *self,
    {
        Observation {
            connected: self.connected,
            ssid: copied(&self.ssid),
            bssid: copied(&self.bssid),
            rssi_dbm: self.rssi_dbm,
        }
    }
}

impl Default for Observation {
    fn default() -> (r: Self)
        ensures
            r == (Observation { connected: false, ssid: None, bssid: None, rssi_dbm: None }),
    {
        Observation { connected: false, ssid: None, bssid: None, rssi_dbm: None }
    }
}

/// What one poll changed.
#[derive(Debug)]
pub enum Change {
    /// First sight of an association, or a return after a gap.
    Associated { ssid: Option<String>, bssid: Option<String>, rssi_dbm: Option<i32> },
    /// The association was lost.
    Disconnected { last_bssid: Option<String> },
    /// The association moved to another access point without a gap.
    Roamed { from_bssid: String, to_bssid: String, rssi_dbm: Option<i32> },
    /// The signal left the band around the level last reported.
    SignalShift { bssid: Option<String>, from_dbm: i32, to_dbm: i32 },
}

/// What a [`Change`] says.
#[verifier::ext_equal]
pub enum ChangeModel {
    Associated { ssid: Option<Seq<char>>, bssid: Option<Seq<char>>, rssi_dbm: Option<i32> },
    Disconnected { last_bssid: Option<Seq<char>> },
    Roamed { from_bssid: Seq<char>, to_bssid: Seq<char>, rssi_dbm: Option<i32> },
    SignalShift { bssid: Option<Seq<char>>, from_dbm: i32, to_dbm: i32 },
}

impl View for Change {
    type V = ChangeModel;

    open spec fn view(&self) -> ChangeModel {
        match *self {
            Change::Associated { ssid, bssid, rssi_dbm } => ChangeModel::Associated {
                ssid: text::opt_text(ssid),
                bssid: text::opt_text(bssid),
                rssi_dbm,
            },
            Change::Disconnected { last_bssid } => ChangeModel::Disconnected {
                last_bssid: text::opt_text(last_bssid),
            },
            Change::Roamed { from_bssid, to_bssid, rssi_dbm } => ChangeModel::Roamed {
                from_bssid: from_bssid@,
                to_bssid: to_bssid@,
                rssi_dbm,
            },
            Change::SignalShift { bssid, from_dbm, to_dbm } => ChangeModel::SignalShift {
                bssid: text::opt_text(bssid),
                from_dbm,
                to_dbm,
            },
        }
    }
}

/// What a tracker remembers of a link.
#[verifier::ext_equal]
pub struct LinkModel {
    pub previous: Option<ObservationModel>,
    /// Signal level last reported; the hysteresis baseline.
    pub reported_rssi: Option<i32>,
    pub threshold_db: i32,
}

impl LinkModel {
    /// A link that nothing was observed of yet.
    pub open spec fn fresh(threshold_db: i32) -> LinkModel {
        LinkModel {
            previous: None,
            reported_rssi: None,
            threshold_db: if threshold_db < 1 {
                1
            } else {
                threshold_db
            },
        }
    }

    /// Whether the last poll saw an association.
    pub open spec fn was_connected(self) -> bool {
        self.previous is Some && self.previous->0.connected
    }

    /// Whether `current` is on another access point than the last poll.
    pub open spec fn roams_to(self, current: ObservationModel) -> bool {
        &&& self.was_connected()
        &&& current.connected
        &&& self.previous->0.bssid is Some
        &&& current.bssid is Some
        &&& self.previous->0.bssid != current.bssid
    }

    /// Whether the signal is as far from the baseline as the threshold.
    pub open spec fn shifts_to(self, current: ObservationModel) -> bool {
        &&& self.reported_rssi is Some
        &&& current.rssi_dbm is Some
        &&& text::abs(current.rssi_dbm->0 - self.reported_rssi->0) >= self.threshold_db
    }

    /// What `current` changes.
    pub open spec fn change(self, current: ObservationModel) -> Option<ChangeModel> {
        if !self.was_connected() && current.connected {
            Some(
                ChangeModel::Associated {
                    ssid: current.ssid,
                    bssid: current.bssid,
                    rssi_dbm: current.rssi_dbm,
                },
            )
        } else if self.was_connected() && !current.connected {
            Some(ChangeModel::Disconnected { last_bssid: self.previous->0.bssid })
        } else if self.roams_to(current) {
            Some(
                ChangeModel::Roamed {
                    from_bssid: self.previous->0.bssid->0,
                    to_bssid: current.bssid->0,
                    rssi_dbm: current.rssi_dbm,
                },
            )
        } else if current.connected && self.shifts_to(current) {
            Some(
                ChangeModel::SignalShift {
                    bssid: current.bssid,
                    from_dbm: self.reported_rssi->0,
                    to_dbm: current.rssi_dbm->0,
                },
            )
        } else {
            None
        }
    }

    /// What the tracker remembers once it has seen `current`.
    pub open spec fn after(self, current: ObservationModel) -> LinkModel {
        LinkModel {
            previous: Some(current),
            reported_rssi: if !self.was_connected() && !current.connected {
                self.reported_rssi
            } else if !current.connected {
                None
            } else if !self.was_connected() || self.roams_to(current) || self.reported_rssi is None
                || self.shifts_to(current) {
                current.rssi_dbm
            } else {
                self.reported_rssi
            },
            threshold_db: self.threshold_db,
        }
    }

    /// What the tracker remembers after a run of polls.
    pub open spec fn after_all(self, polls: Seq<ObservationModel>) -> LinkModel
        decreases polls.len(),
    {
        if polls.len() == 0 {
            self
        } else {
            self.after_all(polls.drop_last()).after(polls.last())
        }
    }

    /// The changes that a run of polls reports, in order.
    pub open spec fn changes(self, polls: Seq<ObservationModel>) -> Seq<ChangeModel>
        decreases polls.len(),
    {
        if polls.len() == 0 {
            seq![]
        } else {
            let earlier = self.changes(polls.drop_last());
            match self.after_all(polls.drop_last()).change(polls.last()) {
                Some(change) => earlier.push(change),
                None => earlier,
            }
        }
    }
}

/// Reports a link only on change, with hysteresis on signal level.
#[derive(Debug)]
pub struct LinkTracker {
    previous: Option<Observation>,
    reported_rssi: Option<i32>,
    threshold_db: i32,
}

impl View for LinkTracker {
    type V = LinkModel;

    closed spec fn view(&self) -> LinkModel {
        LinkModel {
            previous: match self.previous {
                Some(p) => Some(p@),
                None => None,
            },
            reported_rssi: self.reported_rssi,
            threshold_db: self.threshold_db,
        }
    }
}

/// Whether two readings are at least `threshold_db` apart.
fn apart(a: i32, b: i32, threshold_db: i32) -> (r: bool)
    ensures
        r == (text::abs(b - a) >= threshold_db),
{
    let distance: i64 = if b >= a {
        b as i64 - a as i64
    } else {
        a as i64 - b as i64
    };
    distance >= threshold_db as i64
}

impl LinkTracker {
    /// A tracker that has seen nothing. A threshold below 1 counts as 1.
    pub fn new(threshold_db: i32) -> (r: Self)
        ensures
            r@ == LinkModel::fresh(threshold_db),
    {
        LinkTracker {
            previous: None,
            reported_rssi: None,
            threshold_db: if threshold_db < 1 {
                1
            } else {
                threshold_db
            },
        }
    }

    /// Feed one observation; returns the change it implies.
    pub fn observe(&mut self, current: Observation) -> (r: Option<Change>)
        ensures
            final(self)@ == old(self)@.after(current@),
            match r {
                Some(change) => old(self)@.change(current@) == Some(change@),
                None => old(self)@.change(current@) is None,
            },
    {
        let mut previous: Option<Observation> = Some(current.clone());
        std::mem::swap(&mut previous, &mut self.previous);
        let was_connected = match &previous {
            Some(p) => p.connected,
            None => false,
        };
        match (was_connected, current.connected) {
            (false, true) => {
                self.reported_rssi = current.rssi_dbm;
                Some(
                    Change::Associated {
                        ssid: current.ssid,
                        bssid: current.bssid,
                        rssi_dbm: current.rssi_dbm,
                    },
                )
            },
            (true, false) => {
                self.reported_rssi = None;
                Some(
                    Change::Disconnected {
                        last_bssid: match previous {
                            Some(p) => p.bssid,
                            None => None,
                        },
                    },
                )
            },
            (true, true) => {
                let previous_bssid = match &previous {
                    Some(p) => as_deref(&p.bssid),
                    None => None,
                };
                match (previous_bssid, as_deref(&current.bssid)) {
                    (Some(from), Some(to)) if !same_text(from, to) => {
                        self.reported_rssi = current.rssi_dbm;
                        Some(
                            Change::Roamed {
                                from_bssid: from.to_owned(),
                                to_bssid: to.to_owned(),
                                rssi_dbm: current.rssi_dbm,
                            },
                        )
                    },
                    _ => match (self.reported_rssi, current.rssi_dbm) {
                        (Some(reported), Some(now)) => if apart(reported, now, self.threshold_db) {
                            self.reported_rssi = Some(now);
                            Some(
                                Change::SignalShift {
                                    bssid: current.bssid,
                                    from_dbm: reported,
                                    to_dbm: now,
                                },
                            )
                        } else {
                            None
                        },
                        (None, _) => {
                            self.reported_rssi = current.rssi_dbm;
                            None
                        },
                        _ => None,
                    },
                }
            },
            (false, false) => None,
        }
    }
}

// ---------------------------------------------------------------------------
// Laws
// ---------------------------------------------------------------------------

/// Seeing the same thing again is never news, and changes nothing.
pub proof fn lemma_repetition_is_silent(link: LinkModel, poll: ObservationModel)
    requires
        link.threshold_db >= 1,
    ensures
        link.after(poll).change(poll) is None,
        link.after(poll).after(poll) == link.after(poll),
{
}

/// A stable link produces one entry, then silence: however often the same
/// association is polled, it is reported once.
pub proof fn lemma_stable_link_is_reported_once(
    threshold_db: i32,
    poll: ObservationModel,
    polls: Seq<ObservationModel>,
)
    requires
        poll.connected,
        polls.len() >= 1,
        forall|i: int| 0 <= i < polls.len() ==> polls[i] == poll,
    ensures
        LinkModel::fresh(threshold_db).changes(polls) == seq![
            ChangeModel::Associated {
                ssid: poll.ssid,
                bssid: poll.bssid,
                rssi_dbm: poll.rssi_dbm,
            },
        ],
        LinkModel::fresh(threshold_db).after_all(polls) == LinkModel::fresh(threshold_db).after(
            poll,
        ),
    decreases polls.len(),
{
    let link = LinkModel::fresh(threshold_db);
    let earlier = polls.drop_last();
    if earlier.len() == 0 {
        assert(link.after_all(earlier) == link);
        assert(link.changes(earlier) =~= seq![]);
    } else {
        lemma_stable_link_is_reported_once(threshold_db, poll, earlier);
        lemma_repetition_is_silent(link, poll);
    }
}

/// Drift inside the threshold is noise: while a connected link stays on its
/// access point and its signal within the band around the level last reported,
/// nothing is reported and the baseline stays.
pub proof fn lemma_drift_below_threshold_is_silent(link: LinkModel, polls: Seq<ObservationModel>)
    requires
        link.was_connected(),
        link.reported_rssi is Some,
        forall|i: int|
            0 <= i < polls.len() ==> {
                &&& (#[trigger] polls[i]).connected
                &&& polls[i].bssid == link.previous->0.bssid
                &&& !link.shifts_to(polls[i])
            },
    ensures
        link.changes(polls) == Seq::<ChangeModel>::empty(),
        link.after_all(polls).reported_rssi == link.reported_rssi,
        link.after_all(polls).was_connected(),
        link.after_all(polls).previous->0.bssid == link.previous->0.bssid,
        link.after_all(polls).threshold_db == link.threshold_db,
    decreases polls.len(),
{
    if polls.len() > 0 {
        lemma_drift_below_threshold_is_silent(link, polls.drop_last());
        assert(polls.last() == polls[polls.len() - 1]);
    }
}

/// A signal that leaves the band is reported against the level last reported,
/// which then moves.
pub proof fn lemma_shift_moves_the_baseline(link: LinkModel, poll: ObservationModel)
    requires
        link.was_connected(),
        poll.connected,
        !link.roams_to(poll),
        link.shifts_to(poll),
    ensures
        link.change(poll) == Some(
            ChangeModel::SignalShift {
                bssid: poll.bssid,
                from_dbm: link.reported_rssi->0,
                to_dbm: poll.rssi_dbm->0,
            },
        ),
        link.after(poll).reported_rssi == poll.rssi_dbm,
{
}

/// A change of access point is a roam, reported as nothing else, and the new
/// access point's level is the new baseline.
pub proof fn lemma_roam_resets_the_baseline(link: LinkModel, poll: ObservationModel)
    requires
        link.roams_to(poll),
    ensures
        link.change(poll) == Some(
            ChangeModel::Roamed {
                from_bssid: link.previous->0.bssid->0,
                to_bssid: poll.bssid->0,
                rssi_dbm: poll.rssi_dbm,
            },
        ),
        link.after(poll).reported_rssi == poll.rssi_dbm,
{
}

/// A gap and a return is a disconnect and then an association, never a roam,
/// whichever access point the link returns to.
pub proof fn lemma_gap_is_disconnect_then_associate(
    link: LinkModel,
    gap: ObservationModel,
    back: ObservationModel,
)
    requires
        link.was_connected(),
        !gap.connected,
        back.connected,
    ensures
        link.change(gap) == Some(ChangeModel::Disconnected { last_bssid: link.previous->0.bssid }),
        link.after(gap).change(back) == Some(
            ChangeModel::Associated {
                ssid: back.ssid,
                bssid: back.bssid,
                rssi_dbm: back.rssi_dbm,
            },
        ),
{
}

/// Polls without an association say nothing, however many there are.
pub proof fn lemma_disconnected_polls_are_silent(link: LinkModel, polls: Seq<ObservationModel>)
    requires
        !link.was_connected(),
        forall|i: int| 0 <= i < polls.len() ==> !(#[trigger] polls[i]).connected,
    ensures
        link.changes(polls) == Seq::<ChangeModel>::empty(),
        !link.after_all(polls).was_connected(),
    decreases polls.len(),
{
    if polls.len() > 0 {
        lemma_disconnected_polls_are_silent(link, polls.drop_last());
        assert(polls.last() == polls[polls.len() - 1]);
    }
}

/// A baseline that was missing is taken from the first reading, silently.
pub proof fn lemma_late_baseline_is_silent(link: LinkModel, poll: ObservationModel)
    requires
        link.was_connected(),
        link.reported_rssi is None,
        poll.connected,
        !link.roams_to(poll),
    ensures
        link.change(poll) is None,
        link.after(poll).reported_rssi == poll.rssi_dbm,
{
}

/// A link starts with nothing seen, and with a threshold of at least 1.
pub proof fn lemma_links_start_blank(threshold_db: i32)
    ensures
        LinkModel::fresh(threshold_db).previous is None,
        LinkModel::fresh(threshold_db).reported_rssi is None,
        threshold_db >= 1 ==> LinkModel::fresh(threshold_db).threshold_db == threshold_db,
        threshold_db < 1 ==> LinkModel::fresh(threshold_db).threshold_db == 1,
{
}

/// A poll is what the next one is compared with, and the threshold stays.
pub proof fn lemma_the_last_poll_is_remembered(link: LinkModel, poll: ObservationModel)
    ensures
        link.after(poll).previous == Some(poll),
        link.after(poll).threshold_db == link.threshold_db,
{
}

/// Whether two polls may be of one access point: both name the same, or one
/// names none.
pub open spec fn may_be_one(a: Option<Seq<char>>, b: Option<Seq<char>>) -> bool {
    a is None || b is None || a == b
}

/// On an access point, a reading is reported exactly where it is the threshold
/// or more above or below the level last reported; that level then moves to it.
/// A weaker signal counts as much as a stronger one.
pub proof fn lemma_shifts_go_both_ways(
    link: LinkModel,
    before: ObservationModel,
    poll: ObservationModel,
    from: i32,
    to: i32,
)
    requires
        link.previous == Some(before),
        before.connected,
        poll.connected,
        may_be_one(before.bssid, poll.bssid),
        link.reported_rssi == Some(from),
        poll.rssi_dbm == Some(to),
    ensures
        to - from >= link.threshold_db || from - to >= link.threshold_db ==> link.change(poll)
            == Some(ChangeModel::SignalShift { bssid: poll.bssid, from_dbm: from, to_dbm: to })
            && link.after(poll).reported_rssi == Some(to),
        to - from < link.threshold_db && from - to < link.threshold_db ==> link.change(poll) is None
            && link.after(poll).reported_rssi == Some(from),
{
}

/// On an access point, a poll without a reading says nothing and leaves the
/// level last reported; the first reading becomes that level, unreported.
pub proof fn lemma_readings_may_be_missing(
    link: LinkModel,
    before: ObservationModel,
    poll: ObservationModel,
)
    requires
        link.previous == Some(before),
        before.connected,
        poll.connected,
        may_be_one(before.bssid, poll.bssid),
        link.reported_rssi is None || poll.rssi_dbm is None,
    ensures
        link.change(poll) is None,
        link.reported_rssi is Some ==> link.after(poll).reported_rssi == link.reported_rssi,
        link.reported_rssi is None ==> link.after(poll).reported_rssi == poll.rssi_dbm,
{
}

/// Between connected polls, another access point is a roam from the one to the
/// other, whatever the signal did.
pub proof fn lemma_other_access_points_are_roams(
    link: LinkModel,
    before: ObservationModel,
    poll: ObservationModel,
    from: Seq<char>,
    to: Seq<char>,
)
    requires
        link.previous == Some(before),
        before.connected,
        poll.connected,
        before.bssid == Some(from),
        poll.bssid == Some(to),
        from != to,
    ensures
        link.change(poll) == Some(
            ChangeModel::Roamed { from_bssid: from, to_bssid: to, rssi_dbm: poll.rssi_dbm },
        ),
        link.after(poll).reported_rssi == poll.rssi_dbm,
{
}

/// A connected poll after one that was not, or after none, is an association.
pub proof fn lemma_connecting_is_an_association(link: LinkModel, poll: ObservationModel)
    requires
        link.previous matches Some(before) ==> !before.connected,
        poll.connected,
    ensures
        link.change(poll) == Some(
            ChangeModel::Associated {
                ssid: poll.ssid,
                bssid: poll.bssid,
                rssi_dbm: poll.rssi_dbm,
            },
        ),
        link.after(poll).reported_rssi == poll.rssi_dbm,
{
}

/// A poll without a connection after one with it is a disconnect from that
/// access point, and the level is forgotten; without one before, it is nothing.
pub proof fn lemma_losing_the_link_is_a_disconnect(link: LinkModel, poll: ObservationModel)
    requires
        !poll.connected,
    ensures
        match link.previous {
            Some(before) => if before.connected {
                &&& link.change(poll) == Some(
                    ChangeModel::Disconnected { last_bssid: before.bssid },
                )
                &&& link.after(poll).reported_rssi is None
            } else {
                link.change(poll) is None
            },
            None => link.change(poll) is None,
        },
{
}

/// The polls of a run that begin a connection.
pub open spec fn beginnings(polls: Seq<ObservationModel>) -> Set<int> {
    Set::new(
        |i: int|
            0 <= i < polls.len() && polls[i].connected && (i == 0 || !polls[i - 1].connected),
    )
}

/// The polls of a run that end a connection.
pub open spec fn endings(polls: Seq<ObservationModel>) -> Set<int> {
    Set::new(|i: int| 0 < i < polls.len() && !polls[i].connected && polls[i - 1].connected)
}

/// The polls of a run that find another access point than the one before.
pub open spec fn moves(polls: Seq<ObservationModel>) -> Set<int> {
    Set::new(
        |i: int|
            {
                &&& 0 < i < polls.len()
                &&& polls[i].connected && polls[i - 1].connected
                &&& polls[i].bssid is Some && polls[i - 1].bssid is Some
                &&& polls[i].bssid != polls[i - 1].bssid
            },
    )
}

/// The changes of a run that are associations.
pub open spec fn associations(changes: Seq<ChangeModel>) -> Set<int> {
    Set::new(|i: int| 0 <= i < changes.len() && changes[i] is Associated)
}

/// The changes of a run that are disconnects.
pub open spec fn disconnects(changes: Seq<ChangeModel>) -> Set<int> {
    Set::new(|i: int| 0 <= i < changes.len() && changes[i] is Disconnected)
}

/// The changes of a run that are roams.
pub open spec fn roams(changes: Seq<ChangeModel>) -> Set<int> {
    Set::new(|i: int| 0 <= i < changes.len() && changes[i] is Roamed)
}

/// Over a run of polls there are as many associations, disconnects and roams as
/// there are polls that begin a connection, end one, or find another access
/// point.
pub proof fn lemma_runs_are_counted(threshold_db: i32, polls: Seq<ObservationModel>)
    ensures
        ({
            let changes = LinkModel::fresh(threshold_db).changes(polls);
            &&& associations(changes).len() == beginnings(polls).len()
            &&& disconnects(changes).len() == endings(polls).len()
            &&& roams(changes).len() == moves(polls).len()
            &&& associations(changes).finite() && disconnects(changes).finite() && roams(
                changes,
            ).finite()
            &&& beginnings(polls).finite() && endings(polls).finite() && moves(polls).finite()
            &&& polls.len() > 0 ==> LinkModel::fresh(threshold_db).after_all(polls).previous
                == Some(polls.last())
            &&& polls.len() == 0 ==> LinkModel::fresh(threshold_db).after_all(polls).previous
                is None
        }),
    decreases polls.len(),
{
    let link = LinkModel::fresh(threshold_db);
    let changes = link.changes(polls);
    if polls.len() == 0 {
        assert(associations(changes) =~= Set::empty());
        assert(disconnects(changes) =~= Set::empty());
        assert(roams(changes) =~= Set::empty());
        assert(beginnings(polls) =~= Set::empty());
        assert(endings(polls) =~= Set::empty());
        assert(moves(polls) =~= Set::empty());
    } else {
        let earlier = polls.drop_last();
        let n = polls.len() - 1;
        let before = link.changes(earlier);
        let m = before.len() as int;
        let state = link.after_all(earlier);
        let change = state.change(polls.last());
        lemma_runs_are_counted(threshold_db, earlier);
        assert(polls[n] == polls.last());
        assert forall|i: int| 0 <= i < n implies #[trigger] earlier[i] == polls[i] by {}
        if n > 0 {
            assert(earlier.last() == polls[n - 1]);
        }
        assert(beginnings(polls) =~= if change is Some && change->0 is Associated {
            beginnings(earlier).insert(n)
        } else {
            beginnings(earlier)
        });
        assert(endings(polls) =~= if change is Some && change->0 is Disconnected {
            endings(earlier).insert(n)
        } else {
            endings(earlier)
        });
        assert(moves(polls) =~= if change is Some && change->0 is Roamed {
            moves(earlier).insert(n)
        } else {
            moves(earlier)
        });
        assert forall|i: int| 0 <= i < m implies #[trigger] changes[i] == before[i] by {}
        if change is Some {
            assert(changes[m] == change->0);
        }
        assert(associations(changes) =~= if change is Some && change->0 is Associated {
            associations(before).insert(m)
        } else {
            associations(before)
        });
        assert(disconnects(changes) =~= if change is Some && change->0 is Disconnected {
            disconnects(before).insert(m)
        } else {
            disconnects(before)
        });
        assert(roams(changes) =~= if change is Some && change->0 is Roamed {
            roams(before).insert(m)
        } else {
            roams(before)
        });
    }
}

} // verus!

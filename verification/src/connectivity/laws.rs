//! What a diagnosis has to do with the interfaces, the configuration and the
//! outcomes of the probes that it rests on.

use super::diagnose::{plan_for, report_for, ProbeResults, StepModel};
use super::ip;
use super::ip::{linux, macos, windows, IpAddress, LocalAddress};
use super::probe;
use super::probe::{Attempt, PortalModel, RouteOutcome};
use super::{
    ConnectivityConfig, DiagnosticStage, IpAssignment, IpConfiguration,
    PacketQuality, StageModel, StageStatus,
};
use crate::scan;
use crate::scan::Class;
use crate::text;
use crate::wlan::sample;
use crate::wlan::WifiStatus;
use vstd::prelude::*;

verus! {

// ---------------------------------------------------------------------------
// Interfaces
// ---------------------------------------------------------------------------

/// Whether some interface is associated.
pub open spec fn some_associated(statuses: Seq<WifiStatus>) -> bool {
    exists|i: int| 0 <= i < statuses.len() && (#[trigger] statuses[i]).connection is Some
}

/// Whether the interface at `k` is the first that is associated.
pub open spec fn is_first_associated(statuses: Seq<WifiStatus>, k: int) -> bool {
    &&& 0 <= k < statuses.len()
    &&& statuses[k].connection is Some
    &&& forall|i: int| 0 <= i < k ==> (#[trigger] statuses[i]).connection is None
}

proof fn lemma_first(statuses: Seq<WifiStatus>, from: int)
    requires
        0 <= from,
        forall|i: int| 0 <= i < from && i < statuses.len() ==> (
        #[trigger] statuses[i]).connection is None,
    ensures
        match sample::first_associated(statuses, from) {
            Some(k) => is_first_associated(statuses, k),
            None => !some_associated(statuses),
        },
    decreases statuses.len() - from,
{
    if from < statuses.len() && statuses[from].connection is None {
        lemma_first(statuses, from + 1);
    }
}

/// The first associated interface is the one that is diagnosed; where none is
/// associated, it is the first, if there is any.
pub proof fn lemma_the_associated_interface_is_diagnosed(
    config: ConnectivityConfig,
    statuses: Seq<WifiStatus>,
    k: int,
)
    ensures
        is_first_associated(statuses, k) ==> plan_for(config, statuses).associated == Some(k)
            && plan_for(config, statuses).interface_id == Some(statuses[k].interface.guid@),
        !some_associated(statuses) ==> plan_for(config, statuses).associated is None,
        !some_associated(statuses) && statuses.len() > 0 ==> plan_for(config, statuses).interface_id
            == Some(statuses[0].interface.guid@),
        statuses.len() == 0 ==> plan_for(config, statuses).interface_id is None,
        some_associated(statuses) <==> plan_for(config, statuses).associated is Some,
{
    lemma_first(statuses, 0);
}

/// The radio fails where no interface is reported, and passes otherwise.
/// Authentication passes where an interface is associated, naming its network;
/// it fails where none is, and is skipped where there is no interface.
pub proof fn lemma_radio_and_authentication_follow_the_interfaces(
    epoch: i64,
    config: ConnectivityConfig,
    statuses: Seq<WifiStatus>,
    results: ProbeResults,
    k: int,
)
    ensures
        ({
            let report = report_for(epoch, plan_for(config, statuses), results);
            &&& report.observed_at_epoch_seconds == epoch
            &&& report.interface_id == plan_for(config, statuses).interface_id
            &&& report.radio.status == (if statuses.len() == 0 {
                StageStatus::Fail
            } else {
                StageStatus::Pass
            })
            &&& report.authentication.status == (if some_associated(statuses) {
                StageStatus::Pass
            } else if statuses.len() == 0 {
                StageStatus::Skipped
            } else {
                StageStatus::Fail
            })
            &&& is_first_associated(statuses, k) ==> report.authentication.evidence
                == "associated with "@ + (match statuses[k].connection->0.ssid {
                Some(ssid) => ssid@,
                None => "hidden SSID"@,
            })
            &&& report.radio.latency_ms is None && report.authentication.latency_ms is None
        }),
{
    lemma_first(statuses, 0);
}

/// Where the collector failed, the radio fails for that reason and every other
/// stage is skipped.
pub proof fn lemma_no_radio_skips_everything(epoch: i64, message: Seq<char>)
    ensures
        ({
            let report = probe::unavailable(epoch, message);
            &&& report.observed_at_epoch_seconds == epoch
            &&& report.radio.status == StageStatus::Fail
            &&& report.radio.evidence == "radio collector failed: "@ + message
            &&& report.authentication.status == StageStatus::Skipped
            &&& report.dhcp.status == StageStatus::Skipped
            &&& report.gateway.status == StageStatus::Skipped
            &&& report.dns.status == StageStatus::Skipped
            &&& report.tcp.status == StageStatus::Skipped
            &&& report.captive_portal.status == StageStatus::Skipped
            &&& report.tls.status == StageStatus::Skipped
            &&& report.packet_quality.status == StageStatus::Skipped
            &&& report.internet.status == StageStatus::Skipped
            &&& report.interface_id is None
            &&& report.ip_configuration is None
            &&& report.packet_quality_measurement is None
        }),
{
}

// ---------------------------------------------------------------------------
// Addresses and gateways
// ---------------------------------------------------------------------------

/// On an associated interface with a known configuration, the address stage
/// fails where there is no address and passes where there is one; its evidence
/// says, in lower case, where the address is from.
pub proof fn lemma_addresses_decide_the_stage(
    epoch: i64,
    config: ConnectivityConfig,
    statuses: Seq<WifiStatus>,
    results: ProbeResults,
    known: IpConfiguration,
)
    requires
        some_associated(statuses),
        results.ip_configuration == Some(known),
    ensures
        ({
            let report = report_for(epoch, plan_for(config, statuses), results);
            &&& known.addresses@.len() == 0 ==> report.dhcp.status == StageStatus::Fail
            &&& known.addresses@.len() > 0 ==> report.dhcp.status == StageStatus::Pass
            &&& report.dhcp.latency_ms is None
            &&& report.dhcp.evidence == text::unicode_lower(
                "IP assignment is "@ + (match known.assignment {
                    IpAssignment::Dhcp => "Dhcp"@,
                    IpAssignment::Static => "Static"@,
                    IpAssignment::LinkLocal => "LinkLocal"@,
                    IpAssignment::Unknown => "Unknown"@,
                }) + ": "@ + known.evidence@,
            )
            &&& report.ip_configuration == Some(known@)
        }),
{
    lemma_first(statuses, 0);
    assert(known@.addresses.len() == known.addresses@.len());
}

/// On an associated interface with a known configuration, the gateway stage
/// passes where there is a gateway, which it names, and is unknown otherwise.
pub proof fn lemma_gateways_decide_the_stage(
    epoch: i64,
    config: ConnectivityConfig,
    statuses: Seq<WifiStatus>,
    results: ProbeResults,
    known: IpConfiguration,
)
    requires
        some_associated(statuses),
        results.ip_configuration == Some(known),
    ensures
        ({
            let report = report_for(epoch, plan_for(config, statuses), results);
            match known.gateway {
                Some(address) => report.gateway.status == StageStatus::Pass
                    && report.gateway.evidence == "default gateway is "@ + address@,
                None => report.gateway.status == StageStatus::Unknown,
            }
        }),
{
    lemma_first(statuses, 0);
}

// ---------------------------------------------------------------------------
// Probes
// ---------------------------------------------------------------------------

/// Whether a stage is what becomes of a target: skipped without a target or an
/// association, and else what the probe of it found.
pub open spec fn follows(
    stage: StageModel,
    target: Option<String>,
    associated: bool,
    found: Option<DiagnosticStage>,
) -> bool {
    if target is None || !associated {
        stage.status == StageStatus::Skipped && stage.latency_ms is None
    } else {
        found is Some ==> stage.status == found->0.status && stage.evidence == found->0.evidence@
            && stage.latency_ms == found->0.latency_ms
    }
}

/// Each stage behind the gateway follows from its own target and from its own
/// probe, and is skipped without an association.
pub proof fn lemma_probes_decide_their_own_stage(
    epoch: i64,
    config: ConnectivityConfig,
    statuses: Seq<WifiStatus>,
    results: ProbeResults,
)
    ensures
        ({
            let report = report_for(epoch, plan_for(config, statuses), results);
            let up = some_associated(statuses);
            &&& follows(report.dns, config.dns_name, up, results.dns)
            &&& follows(report.tcp, config.tcp_target, up, results.tcp)
            &&& follows(report.captive_portal, config.captive_portal_url, up, results.captive_portal)
            &&& follows(report.tls, config.tls_target, up, results.tls)
            &&& follows(report.internet, config.internet_target, up, results.internet)
        }),
{
    lemma_first(statuses, 0);
}

/// Whether a step is what to do about a target: probe it where there is an
/// association, and nothing without it or without a target.
pub open spec fn asks_for(step: StepModel, target: Option<String>, associated: bool) -> bool {
    match target {
        Some(name) => if associated {
            step == StepModel::Run(name@)
        } else {
            step is Skip
        },
        None => step is Skip,
    }
}

/// Every target that is configured is probed once there is an association, and
/// no other.
pub proof fn lemma_configured_targets_are_probed(
    config: ConnectivityConfig,
    statuses: Seq<WifiStatus>,
)
    ensures
        ({
            let plan = plan_for(config, statuses);
            let up = some_associated(statuses);
            &&& asks_for(plan.dns, config.dns_name, up)
            &&& asks_for(plan.tcp, config.tcp_target, up)
            &&& asks_for(plan.captive_portal, config.captive_portal_url, up)
            &&& asks_for(plan.tls, config.tls_target, up)
            &&& asks_for(plan.quality, config.quality_target, up)
            &&& asks_for(plan.internet, config.internet_target, up)
        }),
{
    lemma_first(statuses, 0);
}

/// The local address is selected by the route to the TCP target; without one, to
/// the Internet target; without that, to the quality target.
pub proof fn lemma_routes_are_looked_up_for_one_target(
    config: ConnectivityConfig,
    statuses: Seq<WifiStatus>,
)
    ensures
        match (config.tcp_target, config.internet_target, config.quality_target) {
            (Some(target), _, _) => plan_for(config, statuses).route_target == Some(target@),
            (None, Some(target), _) => plan_for(config, statuses).route_target == Some(target@),
            (None, None, Some(target)) => plan_for(config, statuses).route_target == Some(target@),
            (None, None, None) => plan_for(config, statuses).route_target is None,
        },
{
}

/// The quality stage passes exactly where no attempt was lost, says how many of
/// how many succeeded, and the measurement is handed on.
pub proof fn lemma_lost_packets_fail_the_quality_stage(
    epoch: i64,
    config: ConnectivityConfig,
    statuses: Seq<WifiStatus>,
    results: ProbeResults,
    quality: PacketQuality,
)
    requires
        results.quality == Some(quality),
    ensures
        ({
            let report = report_for(epoch, plan_for(config, statuses), results);
            if config.quality_target is Some && some_associated(statuses) {
                &&& quality.successes < quality.attempts ==> report.packet_quality.status
                    == StageStatus::Fail
                &&& quality.successes == quality.attempts ==> report.packet_quality.status
                    == StageStatus::Pass
                &&& report.packet_quality_measurement == Some(
                    (quality.attempts, quality.successes, quality.latencies_ns@),
                )
            } else {
                &&& report.packet_quality.status == StageStatus::Skipped
                &&& report.packet_quality_measurement is None
            }
        }),
{
    lemma_first(statuses, 0);
}

/// The loss is the share of the attempts that failed, in tenths of a percent,
/// off by at most half of one; none lost is no loss, and all lost is all of it.
pub proof fn lemma_losses_are_rounded_shares(attempts: int, successes: int)
    requires
        1 <= attempts <= 20,
        0 <= successes <= attempts,
    ensures
        ({
            let tenths = probe::loss_tenths(attempts, successes);
            &&& 2 * (tenths * attempts - 1000 * (attempts - successes)) <= attempts
            &&& 2 * (1000 * (attempts - successes) - tenths * attempts) <= attempts
            &&& successes == attempts ==> tenths == 0
            &&& successes == 0 ==> tenths == 1000
            &&& 0 <= tenths <= 1000
        }),
{
    let failed = attempts - successes;
    let scaled = failed * 1000;
    let whole = scaled / attempts;
    let rest = scaled % attempts;
    vstd::arithmetic::div_mod::lemma_fundamental_div_mod(scaled, attempts);
    vstd::arithmetic::div_mod::lemma_mod_bound(scaled, attempts);
    assert(whole * attempts == scaled - rest) by (nonlinear_arith)
        requires
            scaled == attempts * whole + rest,
    ;
    assert((whole + 1) * attempts == scaled - rest + attempts) by (nonlinear_arith)
        requires
            scaled == attempts * whole + rest,
    ;
    assert(0 <= whole) by (nonlinear_arith)
        requires
            whole * attempts == scaled - rest,
            0 <= rest < attempts,
            scaled >= 0,
            attempts >= 1,
    ;
    assert(whole <= 1000) by (nonlinear_arith)
        requires
            whole * attempts == scaled - rest,
            0 <= rest,
            scaled <= 1000 * attempts,
            attempts >= 1,
    ;
    assert(whole == 1000 ==> rest == 0) by (nonlinear_arith)
        requires
            whole * attempts == scaled - rest,
            0 <= rest,
            scaled <= 1000 * attempts,
    ;
    if failed == 0 {
        assert(whole == 0) by (nonlinear_arith)
            requires
                whole * attempts == 0 - rest,
                0 <= rest < attempts,
                whole >= 0,
        ;
    }
    if successes == 0 {
        assert(whole == 1000) by (nonlinear_arith)
            requires
                whole * attempts == 1000 * attempts - rest,
                0 <= rest < attempts,
        ;
    }
}

/// A lookup passes exactly where an address was found, and takes as long as it
/// took.
pub proof fn lemma_lookups_need_an_address(
    name: Seq<char>,
    found: Result<bool, String>,
    latency_ms: u64,
)
    ensures
        ({
            let stage = probe::lookup_model(name, found, latency_ms);
            &&& stage.status == (if found == Ok::<bool, String>(true) {
                StageStatus::Pass
            } else {
                StageStatus::Fail
            })
            &&& stage.latency_ms == Some(latency_ms)
        }),
{
}

/// Connecting passes exactly where the last address that was tried took the
/// connection, and names it; with nothing to try, it fails.
pub proof fn lemma_connecting_needs_an_answer(
    target: Seq<char>,
    attempts: Result<Vec<Attempt>, String>,
    latency_ms: u64,
)
    ensures
        ({
            let stage = probe::connect_model(target, attempts, latency_ms);
            &&& stage.latency_ms == Some(latency_ms)
            &&& match attempts {
                Ok(list) => if list@.len() > 0 && list@[list@.len() - 1].error is None {
                    stage.status == StageStatus::Pass && stage.evidence == "connected to "@ + target
                        + " via "@ + list@[list@.len() - 1].address@
                } else {
                    stage.status == StageStatus::Fail
                },
                Err(error) => stage.status == StageStatus::Fail && stage.evidence == error@,
            }
        }),
{
}

/// A local address that stands for none, or for the machine itself, is no
/// usable route; any other is.
pub proof fn lemma_routes_need_a_usable_address(outcome: RouteOutcome)
    ensures
        match outcome {
            RouteOutcome::Unresolved => probe::route_model(outcome).status == StageStatus::Unknown,
            RouteOutcome::Failed(_) => probe::route_model(outcome).status == StageStatus::Fail,
            RouteOutcome::Local(local) => match local.ip {
                IpAddress::V4(octets) => probe::route_model(outcome).status == (if octets@[0] == 127
                    || (forall|i: int| 0 <= i < 4 ==> octets@[i] == 0) {
                    StageStatus::Fail
                } else {
                    StageStatus::Pass
                }),
                IpAddress::V6(segments) => probe::route_model(outcome).status == (if (forall|i: int|
                    0 <= i < 7 ==> segments@[i] == 0) && segments@[7] <= 1 {
                    StageStatus::Fail
                } else {
                    StageStatus::Pass
                }),
            },
        },
{
    match outcome {
        RouteOutcome::Local(local) => match local.ip {
            IpAddress::V4(octets) => {
                if forall|i: int| 0 <= i < 4 ==> octets@[i] == 0 {
                    assert(octets@ =~= seq![0u8, 0u8, 0u8, 0u8]);
                }
                if octets@ == seq![0u8, 0u8, 0u8, 0u8] {
                    assert forall|i: int| 0 <= i < 4 implies octets@[i] == 0 by {}
                }
            },
            IpAddress::V6(segments) => {
                let none = seq![0u16, 0u16, 0u16, 0u16, 0u16, 0u16, 0u16, 0u16];
                let own = seq![0u16, 0u16, 0u16, 0u16, 0u16, 0u16, 0u16, 1u16];
                if (forall|i: int| 0 <= i < 7 ==> segments@[i] == 0) && segments@[7] <= 1 {
                    if segments@[7] == 0 {
                        assert(segments@ =~= none);
                    } else {
                        assert(segments@ =~= own);
                    }
                }
                if segments@ == none || segments@ == own {
                    assert forall|i: int| 0 <= i < 7 implies segments@[i] == 0 by {}
                }
            },
        },
        _ => {},
    }
}

/// A portal passes exactly where it answers with the expected status; a
/// redirect, another status and an answer without one all fail.
pub proof fn lemma_portals_answer_as_expected(status: Option<u16>, expected: u16)
    ensures
        (probe::portal_verdict(status, expected).0 == StageStatus::Pass) <==> status == Some(
            expected,
        ),
        (probe::portal_verdict(status, expected).0 == StageStatus::Fail) <==> status != Some(
            expected,
        ),
        status matches Some(code) && code != expected && 300 <= code < 400 ==> probe::portal_verdict(
            status,
            expected,
        ).1 == "captive portal suspected: sentinel redirected with HTTP "@ + text::decimal(
            status->0 as nat,
        ),
{
}

/// A URL of a host is asked for its path, at port 80 unless it names another.
/// Only plain HTTP can be asked.
pub proof fn lemma_portals_are_asked_for_their_path(
    authority: Seq<char>,
    path: Seq<char>,
    version: Seq<char>,
)
    requires
        !authority.contains('/'),
        authority.len() > 0,
    ensures
        ({
            let asked = probe::portal_model("http://"@ + authority + seq!['/'] + path, version);
            let target = if authority.contains(':') {
                authority
            } else {
                authority + ":80"@
            };
            asked == (PortalModel::Fetch {
                target,
                request: "GET /"@ + path + " HTTP/1.1\r\nHost: "@ + authority
                    + "\r\nConnection: close\r\nUser-Agent: radiochron/"@ + version + "\r\n\r\n"@,
            })
        }),
        probe::portal_model("http:///"@ + path, version) is Done,
        probe::portal_model("https://"@ + authority, version) matches PortalModel::Done(stage)
            && stage.status == StageStatus::Unknown,
{
    reveal_strlit("http://");
    reveal_strlit("http:///");
    reveal_strlit("https://");
    let scheme = "http://"@;
    let url = scheme + authority + seq!['/'] + path;
    let rest = authority + seq!['/'] + path;
    assert(url =~= scheme + rest);
    assert(url.take(scheme.len() as int) =~= scheme);
    assert(url.subrange(0, scheme.len() as int) =~= scheme);
    assert(url.skip(scheme.len() as int) =~= rest);
    scan::lemma_position(rest, '/', 0);
    assert(rest[authority.len() as int] == '/');
    assert forall|j: int| 0 <= j < authority.len() implies rest[j] != '/' by {
        assert(rest[j] == authority[j]);
        assert(authority.contains(authority[j]));
    }
    assert(scan::position(rest, '/', 0) == authority.len());
    assert(rest.take(authority.len() as int) =~= authority);
    assert(rest.skip(authority.len() as int + 1) =~= path);
    let bare = "http:///"@ + path;
    assert(bare.subrange(0, scheme.len() as int) =~= scheme);
    let slash = bare.skip(scheme.len() as int);
    scan::lemma_position(slash, '/', 0);
    assert(slash[0] == '/');
    assert(scan::position(slash, '/', 0) == 0);
    assert(slash.take(0) =~= seq![]);
    let secure = "https://"@ + authority;
    assert(secure[4] == 's');
    assert(scheme[4] == ':');
    assert(secure.subrange(0, scheme.len() as int)[4] == secure[4]);
}

// ---------------------------------------------------------------------------
// Where an address is from
// ---------------------------------------------------------------------------

/// An address of `169.254.0.0/16` or `fe80::/10` is one that the machine gave
/// itself, and no other is.
pub proof fn lemma_link_local_ranges(local: LocalAddress)
    ensures
        (ip::route_assignment(Some(local)) == IpAssignment::LinkLocal) <==> match local.ip {
            IpAddress::V4(octets) => octets@[0] == 169 && octets@[1] == 254,
            IpAddress::V6(segments) => segments@[0] / 64 == 0x3fa,
        },
        (ip::route_assignment(Some(local)) == IpAssignment::Unknown) <==>
            ip::route_assignment(Some(local)) != IpAssignment::LinkLocal,
        ip::route_assignment(None) == IpAssignment::Unknown,
{
}

/// On Linux a lease proves DHCP, a profile without DHCP and with an address
/// proves a static one, and without either only a link-local address is known
/// for what it is.
pub proof fn lemma_linux_proves_assignments(
    interface_id: Seq<char>,
    interface_name: Seq<char>,
    selected: Option<LocalAddress>,
    files: linux::LinuxFiles,
)
    ensures
        ({
            let found = linux::configuration(interface_id, interface_name, selected, files);
            &&& (found.assignment == IpAssignment::Dhcp) <==> files.lease is Some
                || linux::lease_matches(files.other_leases@, interface_name, selected)
            &&& found.assignment == IpAssignment::Static ==> files.lease is None
                && files.profile is Some
            &&& files.lease is None && !linux::lease_matches(
                files.other_leases@,
                interface_name,
                selected,
            ) && files.profile is None ==> found.assignment == ip::route_assignment(selected)
            &&& selected matches Some(local) ==> found.addresses.contains(local.text@)
            &&& files.lease is None ==> found.addresses == (match selected {
                Some(local) => seq![local.text@],
                None => Seq::<Seq<char>>::empty(),
            })
        }),
{
    let found = linux::configuration(interface_id, interface_name, selected, files);
    if selected is Some {
        let known = ip::selected_text(selected);
        assert(known[0] == selected->0.text@);
        if files.lease is Some {
            assert(found.addresses[0] == selected->0.text@);
        } else {
            assert(found.addresses == known);
        }
    }
}

/// A lease of another client speaks for the interface where it holds the
/// selected address, and says of what interface it is or that it is an address.
pub proof fn lemma_leases_hold_the_address(
    leases: Seq<String>,
    interface: Seq<char>,
    local: LocalAddress,
    i: int,
)
    requires
        0 <= i < leases.len(),
        scan::holds(leases[i]@, local.text@),
        scan::holds(leases[i]@, "fixed-address"@) || scan::holds(leases[i]@, "ADDRESS="@)
            || scan::holds(leases[i]@, "interface \""@ + interface + "\""@),
    ensures
        linux::lease_matches(leases, interface, Some(local)),
        !linux::lease_matches(leases, interface, None),
{
}

/// A lease that does not hold the selected address speaks for nothing.
pub proof fn lemma_other_leases_do_not_count(
    leases: Seq<String>,
    interface: Seq<char>,
    local: LocalAddress,
)
    requires
        forall|i: int| 0 <= i < leases.len() ==> !scan::holds((#[trigger] leases[i])@, local.text@),
    ensures
        !linux::lease_matches(leases, interface, Some(local)),
{
}

/// On Windows the adapter with the interface's name decides, whatever the case
/// of its letters and with or without braces: by its flag, DHCP or static.
pub proof fn lemma_windows_goes_by_the_adapter(
    interface_id: Seq<char>,
    selected: Option<LocalAddress>,
    adapters: Vec<windows::Adapter>,
    k: int,
)
    requires
        0 <= k < adapters@.len(),
        text::lower_text(scan::trimmed(adapters@[k].name@, Class::Brace)) == text::lower_text(
            scan::trimmed(interface_id, Class::Brace),
        ),
        forall|i: int|
            0 <= i < k ==> text::lower_text(
                scan::trimmed((#[trigger] adapters@[i]).name@, Class::Brace),
            ) != text::lower_text(scan::trimmed(interface_id, Class::Brace)),
    ensures
        ({
            let found = windows::configuration(interface_id, selected, Some(adapters));
            &&& adapters@[k].dhcp_enabled == 0 ==> found.assignment == IpAssignment::Static
            &&& adapters@[k].dhcp_enabled != 0 ==> found.assignment == IpAssignment::Dhcp
            &&& selected matches Some(local) ==> found.addresses.contains(local.text@)
            &&& forall|i: int|
                0 <= i < adapters@[k].addresses@.len() && (
                #[trigger] adapters@[k].addresses@[i])@.len() > 0
                    && adapters@[k].addresses@[i]@ != "0.0.0.0"@ ==> found.addresses.contains(
                    adapters@[k].addresses@[i]@,
                )
            &&& selected is None ==> !found.addresses.contains("0.0.0.0"@)
                && !found.addresses.contains(seq![])
            &&& found.gateway is None <==> forall|i: int|
                0 <= i < adapters@[k].gateways@.len() ==> (
                #[trigger] adapters@[k].gateways@[i])@.len() == 0 || adapters@[k].gateways@[i]@
                    == "0.0.0.0"@
        }),
{
    lemma_adapter(adapters@, interface_id, k, 0);
    let adapter = adapters@[k];
    let own = windows::addresses_in(text::texts(adapter.addresses@));
    let found = windows::configuration(interface_id, selected, Some(adapters));
    assert forall|i: int|
        0 <= i < adapter.addresses@.len() && (#[trigger] adapter.addresses@[i])@.len() > 0
            && adapter.addresses@[i]@ != "0.0.0.0"@ implies found.addresses.contains(
        adapter.addresses@[i]@,
    ) by {
        let t = adapter.addresses@[i]@;
        lemma_listed(text::texts(adapter.addresses@), t);
        assert(text::texts(adapter.addresses@)[i] == t);
        let j = own.index_of(t);
        assert(found.addresses[j] == t);
    }
    if selected is Some {
        let t = selected->0.text@;
        if own.contains(t) {
            assert(found.addresses == own);
        } else {
            assert(found.addresses[own.len() as int] == t);
        }
    }
    lemma_listed(text::texts(adapter.addresses@), "0.0.0.0"@);
    lemma_listed(text::texts(adapter.addresses@), seq![]);
    let gateways = windows::addresses_in(text::texts(adapter.gateways@));
    if gateways.len() > 0 {
        lemma_listed(text::texts(adapter.gateways@), gateways[0]);
        assert(gateways.contains(gateways[0]));
        let i = text::texts(adapter.gateways@).index_of(gateways[0]);
        assert(adapter.gateways@[i]@ == gateways[0]);
    }
    if exists|i: int|
        0 <= i < adapter.gateways@.len() && (#[trigger] adapter.gateways@[i])@.len() > 0
            && adapter.gateways@[i]@ != "0.0.0.0"@ {
        let i = choose|i: int|
            0 <= i < adapter.gateways@.len() && (#[trigger] adapter.gateways@[i])@.len() > 0
                && adapter.gateways@[i]@ != "0.0.0.0"@;
        lemma_listed(text::texts(adapter.gateways@), adapter.gateways@[i]@);
        assert(text::texts(adapter.gateways@)[i] == adapter.gateways@[i]@);
    }
}

proof fn lemma_adapter(adapters: Seq<windows::Adapter>, interface_id: Seq<char>, k: int, from: int)
    requires
        0 <= from <= k < adapters.len(),
        windows::is_adapter(adapters[k].name@, interface_id),
        forall|i: int|
            0 <= i < k ==> !windows::is_adapter((#[trigger] adapters[i]).name@, interface_id),
    ensures
        windows::adapter_of(adapters, interface_id, from) == Some(k),
    decreases k - from,
{
    if from < k {
        assert(!windows::is_adapter(adapters[from].name@, interface_id));
        lemma_adapter(adapters, interface_id, k, from + 1);
    }
}

proof fn lemma_listed(list: Seq<Seq<char>>, t: Seq<char>)
    ensures
        windows::addresses_in(list).contains(t) <==> list.contains(t) && t.len() > 0 && t
            != "0.0.0.0"@,
    decreases list.len(),
{
    if list.len() > 0 {
        let shorter = list.drop_last();
        let before = windows::addresses_in(shorter);
        let after = windows::addresses_in(list);
        lemma_listed(shorter, t);
        assert(list[list.len() - 1] == list.last());
        if shorter.contains(t) {
            let i = shorter.index_of(t);
            assert(list[i] == t);
        }
        if list.contains(t) && t != list.last() {
            let i = list.index_of(t);
            assert(shorter[i] == t);
        }
        if before.contains(t) {
            let i = before.index_of(t);
            assert(after[i] == t);
        }
        if after.contains(t) && !before.contains(t) {
            let i = after.index_of(t);
            if i < before.len() {
                assert(before[i] == t);
            }
            assert(t == list.last());
        }
        if t == list.last() && t.len() > 0 && t != "0.0.0.0"@ {
            assert(after[after.len() - 1] == t);
        }
    }
}

/// On a machine without a list of adapters, or without the adapter in it, only
/// the route is known.
pub proof fn lemma_windows_without_the_adapter(
    interface_id: Seq<char>,
    selected: Option<LocalAddress>,
    adapters: Vec<windows::Adapter>,
)
    ensures
        windows::configuration(interface_id, selected, None).assignment == ip::route_assignment(
            selected,
        ),
        windows::configuration(interface_id, selected, None).gateway is None,
        adapters@.len() == 0 ==> windows::configuration(
            interface_id,
            selected,
            Some(adapters),
        ).assignment == ip::route_assignment(selected),
{
}

/// On macOS the first service of the interface decides: DHCP information or a
/// method that asks for an address is DHCP, the manual method is static, and
/// the router is the gateway.
pub proof fn lemma_macos_goes_by_the_service(
    interface: Seq<char>,
    selected: Option<LocalAddress>,
    services: Vec<macos::ServiceState>,
    k: int,
)
    requires
        0 <= k < services@.len(),
        services@[k].interface_name matches Some(name) && name@ == interface,
        forall|i: int|
            0 <= i < k ==> ((#[trigger] services@[i]).interface_name matches Some(name) ==> name@
                != interface),
    ensures
        ({
            let found = macos::configuration(
                interface,
                selected,
                macos::StoreQuery::Services(services),
            );
            let service = services@[k];
            &&& service.has_dhcp_info ==> found.assignment == IpAssignment::Dhcp
            &&& !service.has_dhcp_info ==> match service.method {
                Some(method) => {
                    &&& (found.assignment == IpAssignment::Dhcp) <==> method@ == "DHCP"@ || method@
                        == "BOOTP"@ || method@ == "INFORM"@
                    &&& (found.assignment == IpAssignment::Static) <==> method@ == "Manual"@
                    &&& found.assignment != IpAssignment::LinkLocal
                },
                None => found.assignment == IpAssignment::Unknown,
            }
            &&& match service.router {
                Some(router) => found.gateway == Some(router@),
                None => found.gateway is None,
            }
            &&& forall|i: int|
                0 <= i < service.addresses@.len() ==> found.addresses.contains(
                    (#[trigger] service.addresses@[i])@,
                )
            &&& selected matches Some(local) ==> found.addresses.contains(local.text@)
        }),
{
    reveal_strlit("DHCP");
    reveal_strlit("BOOTP");
    reveal_strlit("INFORM");
    reveal_strlit("Manual");
    assert("INFORM"@[0] == 'I');
    assert("Manual"@[0] == 'M');
    assert("DHCP"@.len() == 4 && "BOOTP"@.len() == 5);
    lemma_service(services@, interface, k, 0);
    let service = services@[k];
    let own = text::texts(service.addresses@);
    let found = macos::configuration(interface, selected, macos::StoreQuery::Services(services));
    assert forall|i: int| 0 <= i < service.addresses@.len() implies found.addresses.contains(
        (#[trigger] service.addresses@[i])@,
    ) by {
        assert(own[i] == service.addresses@[i]@);
        assert(found.addresses[i] == own[i]);
    }
    if selected is Some {
        let t = selected->0.text@;
        if own.contains(t) {
            assert(found.addresses == own);
        } else {
            assert(found.addresses[own.len() as int] == t);
        }
    }
}

proof fn lemma_service(services: Seq<macos::ServiceState>, interface: Seq<char>, k: int, from: int)
    requires
        0 <= from <= k < services.len(),
        text::opt_text(services[k].interface_name) == Some(interface),
        forall|i: int|
            0 <= i < k ==> text::opt_text((#[trigger] services[i]).interface_name) != Some(
                interface,
            ),
    ensures
        macos::service_of(services, interface, from) == Some(k),
    decreases k - from,
{
    if from < k {
        assert(text::opt_text(services[from].interface_name) != Some(interface));
        lemma_service(services, interface, k, from + 1);
    }
}

/// The selected address is named once.
pub proof fn lemma_selected_addresses_are_added_once(
    addresses: Seq<Seq<char>>,
    local: LocalAddress,
)
    ensures
        ({
            let all = ip::with_selected(addresses, Some(local));
            &&& all.contains(local.text@)
            &&& addresses.contains(local.text@) ==> all == addresses
            &&& !addresses.contains(local.text@) ==> all == addresses + seq![local.text@]
        }),
        ip::with_selected(addresses, None) == addresses,
{
    let all = ip::with_selected(addresses, Some(local));
    if !addresses.contains(local.text@) {
        assert(all[addresses.len() as int] == local.text@);
        assert(all =~= addresses + seq![local.text@]);
    }
}

} // verus!

//! Which probes to run, and what their outcomes add up to.

use super::probe::{join2, quality_stage, stage};
use super::{
    ConnectivityConfig, ConnectivityReport, DiagnosticStage, IpAssignment, IpConfiguration,
    PacketQuality, StageStatus,
};
use crate::connectivity;
use crate::connectivity::probe;
use crate::text;
use crate::text::{append_decimal, as_deref, copied, to_lowercase};
use crate::wlan::sample;
use crate::wlan::{CurrentConnection, WifiStatus};
use vstd::prelude::*;

verus! {

// ---------------------------------------------------------------------------
// The plan
// ---------------------------------------------------------------------------

/// What to do about a stage that needs a target.
#[derive(Debug)]
pub enum Step {
    /// Nothing; this is the stage.
    Skip(DiagnosticStage),
    /// Probe the target.
    Run(String),
}

/// What a [`Step`] says.
#[verifier::ext_equal]
pub enum StepModel {
    Skip(connectivity::StageModel),
    Run(Seq<char>),
}

impl View for Step {
    type V = StepModel;

    open spec fn view(&self) -> StepModel {
        match *self {
            Step::Skip(stage) => StepModel::Skip(stage@),
            Step::Run(target) => StepModel::Run(target@),
        }
    }
}

/// What is known before any probe, and which probes to run.
#[derive(Debug)]
pub struct ProbePlan {
    pub interface_id: Option<String>,
    pub radio: DiagnosticStage,
    pub authentication: DiagnosticStage,
    /// The position of the associated interface, whose configuration is to be
    /// inspected.
    pub associated: Option<usize>,
    /// The target by whose route the local address is selected.
    pub route_target: Option<String>,
    pub dns: Step,
    pub tcp: Step,
    pub captive_portal: Step,
    pub tls: Step,
    pub quality: Step,
    pub internet: Step,
}

/// What a [`ProbePlan`] says.
#[verifier::ext_equal]
pub struct PlanModel {
    pub interface_id: Option<Seq<char>>,
    pub radio: connectivity::StageModel,
    pub authentication: connectivity::StageModel,
    pub associated: Option<int>,
    pub route_target: Option<Seq<char>>,
    pub dns: StepModel,
    pub tcp: StepModel,
    pub captive_portal: StepModel,
    pub tls: StepModel,
    pub quality: StepModel,
    pub internet: StepModel,
}

impl View for ProbePlan {
    type V = PlanModel;

    open spec fn view(&self) -> PlanModel {
        PlanModel {
            interface_id: text::opt_text(self.interface_id),
            radio: self.radio@,
            authentication: self.authentication@,
            associated: match self.associated {
                Some(i) => Some(i as int),
                None => None,
            },
            route_target: text::opt_text(self.route_target),
            dns: self.dns@,
            tcp: self.tcp@,
            captive_portal: self.captive_portal@,
            tls: self.tls@,
            quality: self.quality@,
            internet: self.internet@,
        }
    }
}

/// What to do about a stage: probe its target once there is an association.
pub open spec fn step_for(
    target: Option<Seq<char>>,
    associated: bool,
    missing: Seq<char>,
) -> StepModel {
    match target {
        Some(name) => if associated {
            StepModel::Run(name)
        } else {
            StepModel::Skip(
                connectivity::untimed(StageStatus::Skipped, "association has not completed"@),
            )
        },
        None => StepModel::Skip(connectivity::untimed(StageStatus::Skipped, missing)),
    }
}

/// What the list of interfaces says about the radio.
pub open spec fn radio_for(count: nat) -> connectivity::StageModel {
    if count == 0 {
        connectivity::untimed(StageStatus::Fail, "no Wi-Fi interface reported"@)
    } else {
        connectivity::untimed(
            StageStatus::Pass,
            text::decimal(count) + " Wi-Fi interface(s) reported"@,
        )
    }
}

/// What the association says about authentication.
pub open spec fn authentication_for(
    connection: Option<CurrentConnection>,
    interfaces: nat,
) -> connectivity::StageModel {
    match connection {
        Some(c) => connectivity::untimed(
            StageStatus::Pass,
            "associated with "@ + (match text::opt_text(c.ssid) {
                Some(ssid) => ssid,
                None => "hidden SSID"@,
            }),
        ),
        None => if interfaces == 0 {
            connectivity::untimed(StageStatus::Skipped, "radio unavailable"@)
        } else {
            connectivity::untimed(
                StageStatus::Fail,
                "not associated/authenticated with an AP"@,
            )
        },
    }
}

/// The interface that a diagnosis is about: the associated one, else the first.
pub open spec fn interface_for(statuses: Seq<WifiStatus>) -> Option<Seq<char>> {
    match sample::first_associated(statuses, 0) {
        Some(i) => Some(statuses[i].interface.guid@),
        None => if statuses.len() == 0 {
            None
        } else {
            Some(statuses[0].interface.guid@)
        },
    }
}

/// The first of three targets that is there.
pub open spec fn first_target(
    a: Option<Seq<char>>,
    b: Option<Seq<char>>,
    c: Option<Seq<char>>,
) -> Option<Seq<char>> {
    if a is Some {
        a
    } else if b is Some {
        b
    } else {
        c
    }
}

/// What is known from the interfaces alone, and which probes to run.
pub open spec fn plan_for(config: ConnectivityConfig, statuses: Seq<WifiStatus>) -> PlanModel {
    let associated = sample::first_associated(statuses, 0);
    let up = associated is Some;
    PlanModel {
        interface_id: interface_for(statuses),
        radio: radio_for(statuses.len()),
        authentication: authentication_for(sample::current_association(statuses), statuses.len()),
        associated,
        route_target: first_target(
            text::opt_text(config.tcp_target),
            text::opt_text(config.internet_target),
            text::opt_text(config.quality_target),
        ),
        dns: step_for(text::opt_text(config.dns_name), up, "no DNS name supplied"@),
        tcp: step_for(text::opt_text(config.tcp_target), up, "no TCP target supplied"@),
        captive_portal: step_for(
            text::opt_text(config.captive_portal_url),
            up,
            "no captive portal target supplied"@,
        ),
        tls: step_for(text::opt_text(config.tls_target), up, "no TLS target supplied"@),
        quality: step_for(
            text::opt_text(config.quality_target),
            up,
            "no packet-quality target supplied"@,
        ),
        internet: step_for(text::opt_text(config.internet_target), up, "no Internet target supplied"@),
    }
}

fn step(target: &Option<String>, associated: bool, missing: &str) -> (r: Step)
    ensures
        r@ == step_for(text::opt_text(*target), associated, missing@),
{
    match target {
        Some(name) => if associated {
            Step::Run(name.clone())
        } else {
            Step::Skip(stage(StageStatus::Skipped, "association has not completed".to_owned()))
        },
        None => Step::Skip(stage(StageStatus::Skipped, missing.to_owned())),
    }
}

fn associated_interface(statuses: &Vec<WifiStatus>) -> (r: Option<usize>)
    ensures
        match r {
            Some(i) => sample::first_associated(statuses@, 0) == Some(i as int) && i
                < statuses@.len() && statuses@[i as int].connection is Some,
            None => sample::first_associated(statuses@, 0) is None,
        },
{
    let mut i: usize = 0;
    while i < statuses.len()
        invariant
            i <= statuses@.len(),
            sample::first_associated(statuses@, 0) == sample::first_associated(statuses@, i as int),
        decreases statuses@.len() - i,
    {
        if statuses[i].connection.is_some() {
            return Some(i);
        }
        i = i + 1;
    }
    None
}

fn authentication(connection: Option<&CurrentConnection>, interfaces: usize) -> (r: DiagnosticStage)
    ensures
        r@ == authentication_for(
            match connection {
                Some(c) => Some(*c),
                None => None,
            },
            interfaces as nat,
        ),
{
    match connection {
        Some(c) => {
            let name = match &c.ssid {
                Some(ssid) => ssid.as_str(),
                None => "hidden SSID",
            };
            stage(StageStatus::Pass, join2("associated with ", name))
        },
        None => if interfaces == 0 {
            stage(StageStatus::Skipped, "radio unavailable".to_owned())
        } else {
            stage(StageStatus::Fail, "not associated/authenticated with an AP".to_owned())
        },
    }
}

/// Decide, from the interfaces alone, which probes to run.
pub fn plan(config: &ConnectivityConfig, statuses: &Vec<WifiStatus>) -> (r: ProbePlan)
    ensures
        r@ == plan_for(*config, statuses@),
{
    let associated = associated_interface(statuses);
    let up = associated.is_some();
    let interface_id = match associated {
        Some(i) => Some(statuses[i].interface.guid.clone()),
        None => if statuses.len() == 0 {
            None
        } else {
            Some(statuses[0].interface.guid.clone())
        },
    };
    let radio = if statuses.len() == 0 {
        stage(StageStatus::Fail, "no Wi-Fi interface reported".to_owned())
    } else {
        let mut evidence = String::new();
        append_decimal(&mut evidence, statuses.len() as u64);
        evidence.append(" Wi-Fi interface(s) reported");
        proof {
            assert(evidence@ =~= text::decimal(statuses@.len()) + " Wi-Fi interface(s) reported"@);
        }
        stage(StageStatus::Pass, evidence)
    };
    let connection = match associated {
        Some(i) => statuses[i].connection.as_ref(),
        None => None,
    };
    let route_target = if config.tcp_target.is_some() {
        copied(&config.tcp_target)
    } else if config.internet_target.is_some() {
        copied(&config.internet_target)
    } else {
        copied(&config.quality_target)
    };
    ProbePlan {
        interface_id,
        radio,
        authentication: authentication(connection, statuses.len()),
        associated,
        route_target,
        dns: step(&config.dns_name, up, "no DNS name supplied"),
        tcp: step(&config.tcp_target, up, "no TCP target supplied"),
        captive_portal: step(
            &config.captive_portal_url,
            up,
            "no captive portal target supplied",
        ),
        tls: step(&config.tls_target, up, "no TLS target supplied"),
        quality: step(&config.quality_target, up, "no packet-quality target supplied"),
        internet: step(&config.internet_target, up, "no Internet target supplied"),
    }
}

// ---------------------------------------------------------------------------
// The report
// ---------------------------------------------------------------------------

/// What the probes came to; `None` where one was not run.
#[derive(Debug)]
pub struct ProbeResults {
    pub ip_configuration: Option<IpConfiguration>,
    pub route: Option<DiagnosticStage>,
    pub dns: Option<DiagnosticStage>,
    pub tcp: Option<DiagnosticStage>,
    pub captive_portal: Option<DiagnosticStage>,
    pub tls: Option<DiagnosticStage>,
    pub quality: Option<PacketQuality>,
    pub internet: Option<DiagnosticStage>,
}

/// Whether the route to the plan's target is to be looked up: where there is an
/// association without a known configuration.
pub open spec fn wants_route(
    plan: PlanModel,
    configuration: Option<connectivity::ConfigurationModel>,
) -> bool {
    plan.associated is Some && configuration is None && plan.route_target is Some
}

/// Whether every probe that the plan asks for was run, and the configuration of
/// an associated interface was read.
pub open spec fn answered(plan: PlanModel, results: ProbeResults) -> bool {
    &&& plan.associated is Some ==> results.ip_configuration is Some
    &&& plan.dns is Run ==> results.dns is Some
    &&& plan.tcp is Run ==> results.tcp is Some
    &&& plan.captive_portal is Run ==> results.captive_portal is Some
    &&& plan.tls is Run ==> results.tls is Some
    &&& plan.quality is Run ==> results.quality is Some && probe::is_measurement(results.quality->0)
    &&& plan.internet is Run ==> results.internet is Some
    &&& wants_route(plan, connectivity::configuration_model(results.ip_configuration))
        ==> results.route is Some
}

/// The stage of a step: the probe's, where one was run.
pub open spec fn outcome(step: StepModel, result: Option<DiagnosticStage>) -> connectivity::StageModel {
    match step {
        StepModel::Skip(stage) => stage,
        StepModel::Run(_) => (result->0)@,
    }
}

/// The name of an assignment in evidence.
pub open spec fn assignment_name(assignment: IpAssignment) -> Seq<char> {
    match assignment {
        IpAssignment::Dhcp => "Dhcp"@,
        IpAssignment::Static => "Static"@,
        IpAssignment::LinkLocal => "LinkLocal"@,
        IpAssignment::Unknown => "Unknown"@,
    }
}

/// What is known about the interface's address.
pub open spec fn address_stage(
    plan: PlanModel,
    configuration: Option<connectivity::ConfigurationModel>,
    route: Option<DiagnosticStage>,
) -> connectivity::StageModel {
    if plan.associated is None {
        connectivity::untimed(StageStatus::Skipped, "association has not completed"@)
    } else {
        match configuration {
            Some(known) => connectivity::untimed(
                if known.addresses.len() == 0 {
                    StageStatus::Fail
                } else {
                    StageStatus::Pass
                },
                text::unicode_lower(
                    "IP assignment is "@ + assignment_name(known.assignment) + ": "@
                        + known.evidence,
                ),
            ),
            None => if plan.route_target is Some {
                (route->0)@
            } else {
                connectivity::untimed(
                    StageStatus::Unknown,
                    "no associated interface was available"@,
                )
            },
        }
    }
}

/// What is known about the interface's gateway.
pub open spec fn gateway_stage(
    plan: PlanModel,
    configuration: Option<connectivity::ConfigurationModel>,
) -> connectivity::StageModel {
    if plan.associated is None {
        connectivity::untimed(StageStatus::Skipped, "association has not completed"@)
    } else {
        match configuration {
            Some(known) => match known.gateway {
                Some(address) => connectivity::untimed(
                    StageStatus::Pass,
                    "default gateway is "@ + address,
                ),
                None => connectivity::untimed(
                    StageStatus::Unknown,
                    "platform adapter found no default gateway for this interface"@,
                ),
            },
            None => connectivity::untimed(
                StageStatus::Unknown,
                "platform adapter found no default gateway for this interface"@,
            ),
        }
    }
}

/// What the probes add up to.
pub open spec fn report_for(
    epoch: i64,
    plan: PlanModel,
    results: ProbeResults,
) -> connectivity::ReportModel {
    let configuration = if plan.associated is Some {
        connectivity::configuration_model(results.ip_configuration)
    } else {
        None
    };
    connectivity::ReportModel {
        observed_at_epoch_seconds: epoch,
        interface_id: plan.interface_id,
        radio: plan.radio,
        authentication: plan.authentication,
        dhcp: address_stage(plan, configuration, results.route),
        ip_configuration: configuration,
        gateway: gateway_stage(plan, configuration),
        dns: outcome(plan.dns, results.dns),
        tcp: outcome(plan.tcp, results.tcp),
        captive_portal: outcome(plan.captive_portal, results.captive_portal),
        tls: outcome(plan.tls, results.tls),
        packet_quality: match plan.quality {
            StepModel::Skip(stage) => stage,
            StepModel::Run(_) => probe::quality_model(results.quality->0),
        },
        packet_quality_measurement: match plan.quality {
            StepModel::Skip(_) => None,
            StepModel::Run(_) => connectivity::quality_model(results.quality),
        },
        internet: outcome(plan.internet, results.internet),
    }
}

fn settle(step: Step, result: Option<DiagnosticStage>) -> (r: DiagnosticStage)
    requires
        step@ is Run ==> result is Some,
    ensures
        r@ == outcome(step@, result),
{
    match step {
        Step::Skip(stage) => stage,
        Step::Run(_) => match result {
            Some(stage) => stage,
            None => stage(StageStatus::Unknown, String::new()),
        },
    }
}

fn assignment_text(assignment: IpAssignment) -> (r: &'static str)
    ensures
        r@ == assignment_name(assignment),
{
    match assignment {
        IpAssignment::Dhcp => "Dhcp",
        IpAssignment::Static => "Static",
        IpAssignment::LinkLocal => "LinkLocal",
        IpAssignment::Unknown => "Unknown",
    }
}

/// Add up what the probes came to.
pub fn report(epoch: i64, plan: ProbePlan, results: ProbeResults) -> (r: ConnectivityReport)
    requires
        answered(plan@, results),
    ensures
        r@ == report_for(epoch, plan@, results),
{
    let up = plan.associated.is_some();
    let ip_configuration = if up {
        results.ip_configuration
    } else {
        None
    };
    let dhcp = if !up {
        stage(StageStatus::Skipped, "association has not completed".to_owned())
    } else {
        match &ip_configuration {
            Some(known) => {
                let status = if known.addresses.len() == 0 {
                    StageStatus::Fail
                } else {
                    StageStatus::Pass
                };
                let mut evidence = join2("IP assignment is ", assignment_text(known.assignment));
                evidence.append(": ");
                evidence.append(known.evidence.as_str());
                stage(status, to_lowercase(evidence.as_str()))
            },
            None => match (&plan.route_target, results.route) {
                (Some(_), Some(route)) => route,
                _ => stage(
                    StageStatus::Unknown,
                    "no associated interface was available".to_owned(),
                ),
            },
        }
    };
    let gateway = if !up {
        stage(StageStatus::Skipped, "association has not completed".to_owned())
    } else {
        let address = match &ip_configuration {
            Some(known) => as_deref(&known.gateway),
            None => None,
        };
        match address {
            Some(address) => stage(StageStatus::Pass, join2("default gateway is ", address)),
            None => stage(
                StageStatus::Unknown,
                "platform adapter found no default gateway for this interface".to_owned(),
            ),
        }
    };
    let (packet_quality, packet_quality_measurement) = match plan.quality {
        Step::Skip(skipped) => (skipped, None),
        Step::Run(_) => match results.quality {
            Some(quality) => (quality_stage(&quality), Some(quality)),
            None => (stage(StageStatus::Unknown, String::new()), None),
        },
    };
    ConnectivityReport {
        observed_at_epoch_seconds: epoch,
        interface_id: plan.interface_id,
        radio: plan.radio,
        authentication: plan.authentication,
        dhcp,
        ip_configuration,
        gateway,
        dns: settle(plan.dns, results.dns),
        tcp: settle(plan.tcp, results.tcp),
        captive_portal: settle(plan.captive_portal, results.captive_portal),
        tls: settle(plan.tls, results.tls),
        packet_quality,
        packet_quality_measurement,
        internet: settle(plan.internet, results.internet),
    }
}

// ---------------------------------------------------------------------------
// Laws
// ---------------------------------------------------------------------------

/// Whether a step probes nothing but `target`.
pub open spec fn probes_only(step: StepModel, target: Option<String>) -> bool {
    step matches StepModel::Run(name) ==> text::opt_text(target) == Some(name)
}

/// Nothing is probed before there is an association, and nothing but the
/// targets that the caller chose.
pub proof fn lemma_only_chosen_targets_are_probed(
    config: ConnectivityConfig,
    statuses: Seq<WifiStatus>,
)
    ensures
        ({
            let plan = plan_for(config, statuses);
            &&& plan.associated is None ==> plan.dns is Skip && plan.tcp is Skip
                && plan.captive_portal is Skip && plan.tls is Skip && plan.quality is Skip
                && plan.internet is Skip
            &&& probes_only(plan.dns, config.dns_name)
            &&& probes_only(plan.tcp, config.tcp_target)
            &&& probes_only(plan.captive_portal, config.captive_portal_url)
            &&& probes_only(plan.tls, config.tls_target)
            &&& probes_only(plan.quality, config.quality_target)
            &&& probes_only(plan.internet, config.internet_target)
        }),
{
}

/// Every stage behind authentication is marked as skipped where there is no
/// association, and authentication passes exactly where there is one.
pub proof fn lemma_stages_follow_the_association(
    epoch: i64,
    config: ConnectivityConfig,
    statuses: Seq<WifiStatus>,
    results: ProbeResults,
)
    ensures
        ({
            let plan = plan_for(config, statuses);
            let report = report_for(epoch, plan, results);
            &&& (report.authentication.status == StageStatus::Pass) == (plan.associated is Some)
            &&& plan.associated is None ==> report.dhcp.status == StageStatus::Skipped
                && report.gateway.status == StageStatus::Skipped && report.dns.status
                == StageStatus::Skipped && report.tcp.status == StageStatus::Skipped
                && report.captive_portal.status == StageStatus::Skipped && report.tls.status
                == StageStatus::Skipped && report.packet_quality.status == StageStatus::Skipped
                && report.internet.status == StageStatus::Skipped && report.ip_configuration is None
        }),
{
    lemma_association_is_found(statuses, 0);
}

proof fn lemma_association_is_found(statuses: Seq<WifiStatus>, i: int)
    requires
        0 <= i,
    ensures
        match sample::first_associated(statuses, i) {
            Some(k) => i <= k < statuses.len() && statuses[k].connection is Some,
            None => true,
        },
    decreases statuses.len() - i,
{
    if i < statuses.len() && statuses[i].connection is None {
        lemma_association_is_found(statuses, i + 1);
    }
}

} // verus!

//! Health-check messages and the classification of probe outcomes.
//!
//! A check task periodically probes its target over HTTP under a timeout;
//! the task itself runs outside, and hands the outcome of each probe to
//! `classify_probe_outcome`, which turns it into the message the manager
//! consumes: a 2xx status reports the target healthy, and a timeout, a
//! connection error or any other status reports it unhealthy, with a
//! reason.
use vstd::prelude::*;
use crate::container_id::ContainerId;
use crate::text::{spec_dec, u32_to_dec};

verus! {

/// A probe found its target healthy.
#[derive(Debug)]
pub struct HealthCheckMsgRecvCheckOk {
    pub container_id: ContainerId,
    pub target: String,
}

/// A probe found its target unhealthy, with the reason.
#[derive(Debug)]
pub struct HealthCheckMsgRecvCheckFailed {
    pub container_id: ContainerId,
    pub target: String,
    pub reason: String,
}

/// What a check task reports to the manager.
#[derive(Debug)]
pub enum HealthCheckMsgRecv {
    CheckFailed(HealthCheckMsgRecvCheckFailed),
    CheckOk(HealthCheckMsgRecvCheckOk),
}

/// One HTTP check task's parameters: whom it reports on, the URL it
/// probes, and the probe timeout.
#[derive(Debug)]
pub struct HealthCheckHttpConfig {
    pub container_id: ContainerId,
    pub url: String,
    pub timeout_ms: u32,
}

/// The mathematical model of a `HealthCheckHttpConfig`.
pub struct HealthCheckHttpConfigView {
    pub container_id: Seq<char>,
    pub url: Seq<char>,
    pub timeout_ms: int,
}

impl View for HealthCheckHttpConfig {
    type V = HealthCheckHttpConfigView;

    open spec fn view(&self) -> HealthCheckHttpConfigView {
        HealthCheckHttpConfigView {
            container_id: self.container_id@,
            url: self.url@,
            timeout_ms: self.timeout_ms as int,
        }
    }
}

impl Clone for HealthCheckHttpConfig {
    fn clone(&self) -> (r: Self)
        ensures
            r@ == self@,
    {
        Self {
            container_id: self.container_id.clone(),
            url: self.url.clone(),
            timeout_ms: self.timeout_ms,
        }
    }
}

/// The kinds of check the configuration can declare.
#[derive(Debug)]
pub enum HealthCheckType {
    HealthCheckTypeHttp(HealthCheckHttpConfig),
}

/// The mathematical model of a `HealthCheckType`.
pub enum HealthCheckTypeView {
    Http(HealthCheckHttpConfigView),
}

impl View for HealthCheckType {
    type V = HealthCheckTypeView;

    open spec fn view(&self) -> HealthCheckTypeView {
        match self {
            HealthCheckType::HealthCheckTypeHttp(c) => HealthCheckTypeView::Http(c@),
        }
    }
}

impl Clone for HealthCheckType {
    fn clone(&self) -> (r: Self)
        ensures
            r@ == self@,
    {
        match self {
            HealthCheckType::HealthCheckTypeHttp(c) => HealthCheckType::HealthCheckTypeHttp(
                c.clone(),
            ),
        }
    }
}

/// How one probe of the target ended.
#[derive(Debug)]
pub enum ProbeOutcome {
    /// The probe did not finish within the configured timeout.
    TimedOut,
    /// The probe could not reach the target; the connection error, written
    /// out.
    ConnectionError(String),
    /// The target answered with this HTTP status.
    Status(u16),
}

/// Is this HTTP status a success?
pub open spec fn status_is_success(status: int) -> bool {
    200 <= status <= 299
}

/// The reason string reported for a failed probe.
pub open spec fn spec_fail_reason(outcome: ProbeOutcome) -> Seq<char> {
    match outcome {
        ProbeOutcome::TimedOut => "Timeout"@,
        ProbeOutcome::ConnectionError(e) => "Error: "@ + e@,
        ProbeOutcome::Status(s) => "Unsuccessful response: "@ + spec_dec(s as int),
    }
}

/// Turn one probe outcome into the message the manager consumes: a 2xx
/// status reports the target healthy, anything else — timeout, connection
/// error, or another status — reports it unhealthy with a reason.
pub fn classify_probe_outcome(config: &HealthCheckHttpConfig, outcome: ProbeOutcome) -> (r:
    HealthCheckMsgRecv)
    ensures
        match r {
            HealthCheckMsgRecv::CheckOk(m) => {
                &&& outcome matches ProbeOutcome::Status(s) && status_is_success(s as int)
                &&& m.container_id@ == config@.container_id
                &&& m.target@ == config@.url
            },
            HealthCheckMsgRecv::CheckFailed(m) => {
                &&& !(outcome matches ProbeOutcome::Status(s) && status_is_success(s as int))
                &&& m.container_id@ == config@.container_id
                &&& m.target@ == config@.url
                &&& m.reason@ == spec_fail_reason(outcome)
            },
        },
{
    match outcome {
        ProbeOutcome::Status(s) => {
            if 200 <= s && s <= 299 {
                HealthCheckMsgRecv::CheckOk(
                    HealthCheckMsgRecvCheckOk {
                        container_id: config.container_id.clone(),
                        target: config.url.clone(),
                    },
                )
            } else {
                let mut reason = String::from_str("Unsuccessful response: ");
                let digits = u32_to_dec(s as u32);
                reason.append(digits.as_str());
                proof {
                    assert(reason@ == spec_fail_reason(ProbeOutcome::Status(s)));
                }
                HealthCheckMsgRecv::CheckFailed(
                    HealthCheckMsgRecvCheckFailed {
                        container_id: config.container_id.clone(),
                        target: config.url.clone(),
                        reason,
                    },
                )
            }
        },
        ProbeOutcome::TimedOut => HealthCheckMsgRecv::CheckFailed(
            HealthCheckMsgRecvCheckFailed {
                container_id: config.container_id.clone(),
                target: config.url.clone(),
                reason: String::from_str("Timeout"),
            },
        ),
        ProbeOutcome::ConnectionError(e) => {
            let mut reason = String::from_str("Error: ");
            reason.append(e.as_str());
            HealthCheckMsgRecv::CheckFailed(
                HealthCheckMsgRecvCheckFailed {
                    container_id: config.container_id.clone(),
                    target: config.url.clone(),
                    reason,
                },
            )
        },
    }
}

} // verus!

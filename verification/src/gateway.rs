use crate::access::evaluate;
use crate::access::permits;
use crate::access::AccessPolicy;
use crate::access::AccessPolicyModel;
use crate::decision::AdmissionDecision;
use crate::decision::RejectReason;
use crate::rate_limit::after_attempt;
use crate::rate_limit::attempt_decision;
use crate::rate_limit::remembered;
use crate::rate_limit::swept;
use crate::rate_limit::RateLimiter;
use crate::rate_limit::RateLimiterView;
use crate::rate_limit::RateState;
use crate::settings::Error;
use crate::settings::Settings;
use crate::socket::socket_failure;
use crate::socket::socket_init_tcp;
use crate::socket::socket_settings;
use crate::socket::Socket;
use crate::socket::SocketView;
use vstd::prelude::*;

verus! {

/// A gateway as plain values.
pub struct GatewayView {
    pub enable_ip_rules: bool,
    pub stall_time: u64,
    pub policy: AccessPolicyModel,
    pub limiter: RateLimiterView,
}

/// The gateway that listener settings give before any connection.
pub open spec fn new_gateway(socket: SocketView) -> GatewayView {
    GatewayView {
        enable_ip_rules: socket.enable_ip_rules,
        stall_time: socket.stall_time,
        policy: socket.policy(),
        limiter: RateLimiterView { config: socket.rate_config(), states: Map::empty() },
    }
}

/// Whether the access lists let `addr` pass: they are switched off, or they
/// permit it.
pub open spec fn passes_access(gateway: GatewayView, addr: u32) -> bool {
    !gateway.enable_ip_rules || permits(
        gateway.policy.order,
        gateway.policy.allow,
        gateway.policy.deny,
        addr,
    )
}

/// What the gateway decides of a connection of `addr` at `now`: an address
/// that the access lists turn away is denied; any other is left to the rate
/// limiter.
pub open spec fn admit_decision(gateway: GatewayView, addr: u32, now: u64) -> AdmissionDecision {
    if !passes_access(gateway, addr) {
        AdmissionDecision::Reject(RejectReason::DeniedByAccessList)
    } else {
        attempt_decision(gateway.limiter.config, remembered(gateway.limiter.states, addr), now)
    }
}

/// The gateway after it decided of a connection of `addr` at `now`. An
/// address that the access lists turn away leaves no trace in the rate
/// limiter.
pub open spec fn after_admit(gateway: GatewayView, addr: u32, now: u64) -> GatewayView {
    if !passes_access(gateway, addr) {
        gateway
    } else {
        GatewayView {
            limiter: RateLimiterView {
                config: gateway.limiter.config,
                states: gateway.limiter.states.insert(
                    addr,
                    after_attempt(
                        gateway.limiter.config,
                        remembered(gateway.limiter.states, addr),
                        now,
                    ),
                ),
            },
            ..gateway
        }
    }
}

/// Decides, for each incoming connection, whether it may go on: first by
/// the access lists, then by the rate limiter.
pub struct AdmissionGateway {
    enable_ip_rules: bool,
    stall_time: u64,
    policy: AccessPolicy,
    limiter: RateLimiter,
}

impl View for AdmissionGateway {
    type V = GatewayView;

    closed spec fn view(&self) -> GatewayView {
        GatewayView {
            enable_ip_rules: self.enable_ip_rules,
            stall_time: self.stall_time,
            policy: self.policy@,
            limiter: self.limiter@,
        }
    }
}

impl AdmissionGateway {
    /// A gateway for the given listener settings, which has seen no
    /// connection yet.
    pub fn new(socket: Socket) -> (gateway: AdmissionGateway)
        ensures
            gateway@ == new_gateway(socket@),
    {
        let enable_ip_rules = socket.enable_ip_rules();
        let stall_time = socket.stall_time();
        let limiter = RateLimiter::new(socket.rate_config());
        let policy = socket.into_policy();
        AdmissionGateway { enable_ip_rules, stall_time, policy, limiter }
    }

    /// How many seconds a connection may stay idle before the listener
    /// should close it. The gateway itself does not act on it.
    pub fn stall_time(&self) -> (seconds: u64)
        ensures
            seconds == self@.stall_time,
    {
        self.stall_time
    }

    /// What the rate limiter remembers of `addr`.
    pub fn state_of(&self, addr: u32) -> (state: Option<RateState>)
        ensures
            state == remembered(self@.limiter.states, addr),
    {
        self.limiter.state_of(addr)
    }

    /// Decides whether a connection of `addr` at `now`, in milliseconds on a
    /// clock that does not run backwards, may go on.
    pub fn admit_connection(&mut self, addr: u32, now: u64) -> (decision: AdmissionDecision)
        ensures
            decision == admit_decision(old(self)@, addr, now),
            final(self)@ == after_admit(old(self)@, addr, now),
    {
        if self.enable_ip_rules && !evaluate(&self.policy, addr) {
            return AdmissionDecision::Reject(RejectReason::DeniedByAccessList);
        }
        self.limiter.record_attempt(addr, now)
    }

    /// Lets the rate limiter forget every address whose window is over and
    /// that is not locked out at `now`.
    pub fn sweep(&mut self, now: u64)
        ensures
            final(self)@ == (GatewayView {
                limiter: RateLimiterView {
                    config: old(self)@.limiter.config,
                    states: swept(old(self)@.limiter.config, old(self)@.limiter.states, now),
                },
                ..old(self)@
            }),
    {
        self.limiter.sweep(now);
    }
}

/// Builds the gateway from the settings. Fails, as reading the listener
/// settings does, on the first key that is missing or holds a value of
/// another type.
pub fn build_gateway(settings: &Settings) -> (gateway: Result<AdmissionGateway, Error>)
    ensures
        gateway is Ok <==> socket_failure(settings@) is None,
        gateway matches Ok(g) ==> g@ == new_gateway(socket_settings(settings@)),
        gateway matches Err(e) ==> Some(e@) == socket_failure(settings@),
{
    match socket_init_tcp(settings) {
        Ok(socket) => Ok(AdmissionGateway::new(socket)),
        Err(e) => Err(e),
    }
}

} // verus!

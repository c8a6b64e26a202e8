use crate::access::access_list;
use crate::access::cidrs;
use crate::access::load_access_list;
use crate::access::order_of;
pub use crate::access::AccessOrder;
use crate::access::AccessPolicy;
use crate::access::AccessPolicyModel;
use crate::ip_range::Cidr;
use crate::ip_range::IpRange;
use crate::rate_limit::RateConfig;
use crate::settings::lookup_error;
use crate::settings::Error;
use crate::settings::ErrorView;
use crate::settings::FromValue;
use crate::settings::Settings;
use crate::settings::Value;
use vstd::prelude::*;

verus! {

/// The settings of the TCP listener as plain values. Times are in
/// milliseconds, but for the stall time, which is in seconds.
pub struct SocketView {
    pub enable_ip_rules: bool,
    pub stall_time: u64,
    pub access_order: AccessOrder,
    pub access_allow: Seq<Cidr>,
    pub access_deny: Seq<Cidr>,
    pub connect_count: usize,
    pub connect_interval: u64,
    pub connect_lockout: u64,
}

/// The settings of the TCP listener: whether and how the access lists
/// apply, the thresholds of the rate limiter, and how long a connection may
/// stay idle.
pub struct Socket {
    enable_ip_rules: bool,
    stall_time: u64,
    access_order: AccessOrder,
    access_allow: Vec<IpRange>,
    access_deny: Vec<IpRange>,
    connect_count: usize,
    connect_interval: u64,
    connect_lockout: u64,
}

impl View for Socket {
    type V = SocketView;

    closed spec fn view(&self) -> SocketView {
        SocketView {
            enable_ip_rules: self.enable_ip_rules,
            stall_time: self.stall_time,
            access_order: self.access_order,
            access_allow: cidrs(self.access_allow@),
            access_deny: cidrs(self.access_deny@),
            connect_count: self.connect_count,
            connect_interval: self.connect_interval,
            connect_lockout: self.connect_lockout,
        }
    }
}

impl SocketView {
    /// The access policy among the settings.
    pub open spec fn policy(self) -> AccessPolicyModel {
        AccessPolicyModel {
            order: self.access_order,
            allow: self.access_allow,
            deny: self.access_deny,
        }
    }

    /// The thresholds of the rate limiter among the settings.
    pub open spec fn rate_config(self) -> RateConfig {
        RateConfig {
            connect_count: self.connect_count,
            connect_interval: self.connect_interval,
            connect_lockout: self.connect_lockout,
        }
    }
}

/// The settings that a listener has where nothing else is said: access
/// rules on with empty lists in the order `DenyAllow`, a stall time of 60
/// seconds, and at most 10 connections in 3 seconds, on pain of 10 minutes
/// of lockout.
pub open spec fn default_socket() -> SocketView {
    SocketView {
        enable_ip_rules: true,
        stall_time: 60,
        access_order: AccessOrder::DenyAllow,
        access_allow: Seq::empty(),
        access_deny: Seq::empty(),
        connect_count: 10,
        connect_interval: 3000,
        connect_lockout: 600000,
    }
}

/// Collects the settings of a listener one by one.
pub struct SocketBuilder {
    enable_ip_rules: bool,
    stall_time: u64,
    access_order: AccessOrder,
    access_allow: Vec<IpRange>,
    access_deny: Vec<IpRange>,
    connect_count: usize,
    connect_interval: u64,
    connect_lockout: u64,
}

impl View for SocketBuilder {
    type V = SocketView;

    closed spec fn view(&self) -> SocketView {
        SocketView {
            enable_ip_rules: self.enable_ip_rules,
            stall_time: self.stall_time,
            access_order: self.access_order,
            access_allow: cidrs(self.access_allow@),
            access_deny: cidrs(self.access_deny@),
            connect_count: self.connect_count,
            connect_interval: self.connect_interval,
            connect_lockout: self.connect_lockout,
        }
    }
}

impl SocketBuilder {
    /// A builder that holds the default settings.
    pub fn new() -> (builder: SocketBuilder)
        ensures
            builder@ == default_socket(),
    {
        let builder = SocketBuilder {
            enable_ip_rules: true,
            stall_time: 60,
            access_order: AccessOrder::DenyAllow,
            access_allow: Vec::new(),
            access_deny: Vec::new(),
            connect_count: 10,
            connect_interval: 3000,
            connect_lockout: 600000,
        };
        assert(builder@.access_allow == Seq::<Cidr>::empty());
        assert(builder@.access_deny == Seq::<Cidr>::empty());
        builder
    }

    /// The listener settings that were collected.
    pub fn build(self) -> (socket: Socket)
        ensures
            socket@ == self@,
    {
        Socket {
            enable_ip_rules: self.enable_ip_rules,
            stall_time: self.stall_time,
            access_order: self.access_order,
            access_allow: self.access_allow,
            access_deny: self.access_deny,
            connect_count: self.connect_count,
            connect_interval: self.connect_interval,
            connect_lockout: self.connect_lockout,
        }
    }

    /// Switches the access lists on or off.
    pub fn ip_rules(self, enable: bool) -> (builder: SocketBuilder)
        ensures
            builder@ == (SocketView { enable_ip_rules: enable, ..self@ }),
    {
        let mut builder = self;
        builder.enable_ip_rules = enable;
        builder
    }

    /// Sets how many seconds a connection may stay idle.
    pub fn stall_time(self, n: u64) -> (builder: SocketBuilder)
        ensures
            builder@ == (SocketView { stall_time: n, ..self@ }),
    {
        let mut builder = self;
        builder.stall_time = n;
        builder
    }

    /// Sets the order in which the access lists are consulted.
    pub fn access_order(self, n: AccessOrder) -> (builder: SocketBuilder)
        ensures
            builder@ == (SocketView { access_order: n, ..self@ }),
    {
        let mut builder = self;
        builder.access_order = n;
        builder
    }

    /// Sets the allow list.
    pub fn access_allow(self, n: Vec<IpRange>) -> (builder: SocketBuilder)
        ensures
            builder@ == (SocketView { access_allow: cidrs(n@), ..self@ }),
    {
        let mut builder = self;
        builder.access_allow = n;
        builder
    }

    /// Sets the deny list.
    pub fn access_deny(self, n: Vec<IpRange>) -> (builder: SocketBuilder)
        ensures
            builder@ == (SocketView { access_deny: cidrs(n@), ..self@ }),
    {
        let mut builder = self;
        builder.access_deny = n;
        builder
    }

    /// Sets how many attempts one address may make inside one window.
    pub fn connect_count(self, n: usize) -> (builder: SocketBuilder)
        ensures
            builder@ == (SocketView { connect_count: n, ..self@ }),
    {
        let mut builder = self;
        builder.connect_count = n;
        builder
    }

    /// Sets the length of a window, in milliseconds.
    pub fn connect_interval(self, n: u64) -> (builder: SocketBuilder)
        ensures
            builder@ == (SocketView { connect_interval: n, ..self@ }),
    {
        let mut builder = self;
        builder.connect_interval = n;
        builder
    }

    /// Sets the length of a lockout, in milliseconds.
    pub fn connect_lockout(self, n: u64) -> (builder: SocketBuilder)
        ensures
            builder@ == (SocketView { connect_lockout: n, ..self@ }),
    {
        let mut builder = self;
        builder.connect_lockout = n;
        builder
    }
}

impl Socket {
    /// The listener settings with every value given.
    pub fn new(
        enable_ip_rules: bool,
        stall_time: u64,
        access_order: AccessOrder,
        access_allow: Vec<IpRange>,
        access_deny: Vec<IpRange>,
        connect_count: usize,
        connect_interval: u64,
        connect_lockout: u64,
    ) -> (socket: Socket)
        ensures
            socket@ == (SocketView {
                enable_ip_rules,
                stall_time,
                access_order,
                access_allow: cidrs(access_allow@),
                access_deny: cidrs(access_deny@),
                connect_count,
                connect_interval,
                connect_lockout,
            }),
    {
        Socket {
            enable_ip_rules,
            stall_time,
            access_order,
            access_allow,
            access_deny,
            connect_count,
            connect_interval,
            connect_lockout,
        }
    }

    /// A builder that starts from the default settings.
    pub fn builder() -> (builder: SocketBuilder)
        ensures
            builder@ == default_socket(),
    {
        SocketBuilder::new()
    }

    /// Whether the access lists apply.
    pub fn enable_ip_rules(&self) -> (enabled: bool)
        ensures
            enabled == self@.enable_ip_rules,
    {
        self.enable_ip_rules
    }

    /// How many seconds a connection may stay idle before the listener
    /// should close it.
    pub fn stall_time(&self) -> (seconds: u64)
        ensures
            seconds == self@.stall_time,
    {
        self.stall_time
    }

    /// The thresholds of the rate limiter.
    pub fn rate_config(&self) -> (config: RateConfig)
        ensures
            config == self@.rate_config(),
    {
        RateConfig {
            connect_count: self.connect_count,
            connect_interval: self.connect_interval,
            connect_lockout: self.connect_lockout,
        }
    }

    /// The access policy, taken out of the settings.
    pub fn into_policy(self) -> (policy: AccessPolicy)
        ensures
            policy@ == self@.policy(),
    {
        AccessPolicy { order: self.access_order, allow: self.access_allow, deny: self.access_deny }
    }
}

/// The failure of reading `key` as an `R`, if reading it fails.
pub open spec fn failure<R: FromValue>(settings: Map<Seq<char>, Value>, key: Seq<char>) -> Option<
    ErrorView,
> {
    if settings.contains_key(key) && R::readable(settings[key]) {
        None
    } else {
        Some(lookup_error(settings, key))
    }
}

/// The first of two failures that there is.
pub open spec fn or_else(first: Option<ErrorView>, second: Option<ErrorView>) -> Option<ErrorView> {
    if first is Some {
        first
    } else {
        second
    }
}

/// The failure that reading the listener settings ends with, if it fails:
/// that of the first key, in the order in which they are read, that is
/// missing or holds a value of another type.
pub open spec fn socket_failure(settings: Map<Seq<char>, Value>) -> Option<ErrorView> {
    or_else(
        failure::<u64>(settings, "network.TCP_STALL_TIME"@),
        or_else(
            failure::<bool>(settings, "network.TCP_ENABLE_IP_RULES"@),
            or_else(
                failure::<String>(settings, "network.TCP_ORDER"@),
                or_else(
                    failure::<String>(settings, "network.TCP_ALLOW"@),
                    or_else(
                        failure::<String>(settings, "network.TCP_DENY"@),
                        or_else(
                            failure::<usize>(settings, "network.TCP_CONNECT_COUNT"@),
                            or_else(
                                failure::<u64>(settings, "network.TCP_CONNECT_INTERVAL"@),
                                failure::<u64>(settings, "network.TCP_CONNECT_LOCKOUT"@),
                            ),
                        ),
                    ),
                ),
            ),
        ),
    )
}

/// The listener settings that the settings hold, where reading them does
/// not fail.
pub open spec fn socket_settings(settings: Map<Seq<char>, Value>) -> SocketView {
    SocketView {
        enable_ip_rules: settings["network.TCP_ENABLE_IP_RULES"@]->Bool_0,
        stall_time: settings["network.TCP_STALL_TIME"@]->Int_0 as u64,
        access_order: order_of(settings["network.TCP_ORDER"@]->Text_0),
        access_allow: access_list(settings["network.TCP_ALLOW"@]->Text_0),
        access_deny: access_list(settings["network.TCP_DENY"@]->Text_0),
        connect_count: settings["network.TCP_CONNECT_COUNT"@]->Int_0 as usize,
        connect_interval: settings["network.TCP_CONNECT_INTERVAL"@]->Int_0 as u64,
        connect_lockout: settings["network.TCP_CONNECT_LOCKOUT"@]->Int_0 as u64,
    }
}

/// Reads the listener settings. Fails on the first key that is missing or
/// holds a value of another type; nothing is filled in for it.
pub fn socket_init_tcp(settings: &Settings) -> (socket: Result<Socket, Error>)
    ensures
        socket is Ok <==> socket_failure(settings@) is None,
        socket matches Ok(s) ==> s@ == socket_settings(settings@),
        socket matches Err(e) ==> Some(e@) == socket_failure(settings@),
{
    let stall_time = match settings.try_get::<u64>("network.TCP_STALL_TIME") {
        Ok(v) => v,
        Err(e) => {
            return Err(e);
        },
    };
    let enable_ip_rules = match settings.try_get::<bool>("network.TCP_ENABLE_IP_RULES") {
        Ok(v) => v,
        Err(e) => {
            return Err(e);
        },
    };
    let order = match settings.try_get::<String>("network.TCP_ORDER") {
        Ok(v) => v,
        Err(e) => {
            return Err(e);
        },
    };
    let allow = match settings.try_get::<String>("network.TCP_ALLOW") {
        Ok(v) => v,
        Err(e) => {
            return Err(e);
        },
    };
    let deny = match settings.try_get::<String>("network.TCP_DENY") {
        Ok(v) => v,
        Err(e) => {
            return Err(e);
        },
    };
    let connect_count = match settings.try_get::<usize>("network.TCP_CONNECT_COUNT") {
        Ok(v) => v,
        Err(e) => {
            return Err(e);
        },
    };
    let connect_interval = match settings.try_get::<u64>("network.TCP_CONNECT_INTERVAL") {
        Ok(v) => v,
        Err(e) => {
            return Err(e);
        },
    };
    let connect_lockout = match settings.try_get::<u64>("network.TCP_CONNECT_LOCKOUT") {
        Ok(v) => v,
        Err(e) => {
            return Err(e);
        },
    };
    Ok(
        Socket::builder().stall_time(stall_time).ip_rules(enable_ip_rules).access_order(
            AccessOrder::from_str(order.as_str()),
        ).access_allow(load_access_list(allow.as_str())).access_deny(
            load_access_list(deny.as_str()),
        ).connect_count(connect_count).connect_interval(connect_interval).connect_lockout(
            connect_lockout,
        ).build(),
    )
}

} // verus!

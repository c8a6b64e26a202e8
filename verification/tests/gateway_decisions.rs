use login_server::access::load_access_list;
use login_server::access::AccessOrder;
use login_server::decision::AdmissionDecision;
use login_server::decision::RejectReason;
use login_server::gateway::build_gateway;
use login_server::gateway::AdmissionGateway;
use login_server::layers::EnvVar;
use login_server::layers::Table;
use login_server::rate_limit::RateConfig;
use login_server::rate_limit::RateState;
use login_server::settings::ConfigValue;
use login_server::settings::Error;
use login_server::settings::Setting;
use login_server::settings::Settings;
use login_server::socket::socket_init_tcp;
use login_server::socket::Socket;
use login_server::socket::SocketBuilder;

fn ip(a: u8, b: u8, c: u8, d: u8) -> u32 {
    u32::from_be_bytes([a, b, c, d])
}

fn network(entries: Vec<(&str, ConfigValue)>) -> Settings {
    let settings = entries
        .into_iter()
        .map(|(key, value)| Setting { key: key.to_string(), value })
        .collect();
    let layer = vec![Table { name: "network".to_string(), settings }];
    Settings::new(&layer, &vec![], &Vec::<EnvVar>::new(), "XI")
}

fn text(s: &str) -> ConfigValue {
    ConfigValue::String(s.to_string())
}

fn full() -> Vec<(&'static str, ConfigValue)> {
    vec![
        ("TCP_STALL_TIME", ConfigValue::Int(60)),
        ("TCP_ENABLE_IP_RULES", ConfigValue::Bool(true)),
        ("TCP_ORDER", text("deny,allow")),
        ("TCP_ALLOW", text("127.0.0.1/32")),
        ("TCP_DENY", text("0.0.0.0/0")),
        ("TCP_CONNECT_COUNT", ConfigValue::Int(3)),
        ("TCP_CONNECT_INTERVAL", ConfigValue::Int(1000)),
        ("TCP_CONNECT_LOCKOUT", ConfigValue::Int(5000)),
    ]
}

fn without(key: &str) -> Vec<(&'static str, ConfigValue)> {
    full().into_iter().filter(|(k, _)| *k != key).collect()
}

fn with(key: &'static str, value: ConfigValue) -> Vec<(&'static str, ConfigValue)> {
    let mut entries = without(key);
    entries.push((key, value));
    entries
}

#[test]
fn it_builds_socket() {
    Socket::builder().build();
}

#[test]
fn builder_starts_from_defaults() {
    let socket = SocketBuilder::new().build();
    assert!(socket.enable_ip_rules());
    assert_eq!(socket.stall_time(), 60);
    assert_eq!(
        socket.rate_config(),
        RateConfig { connect_count: 10, connect_interval: 3000, connect_lockout: 600000 }
    );
    let policy = socket.into_policy();
    assert_eq!(policy.order, AccessOrder::DenyAllow);
    assert!(policy.allow.is_empty());
    assert!(policy.deny.is_empty());
}

#[test]
fn builder_sets_each_value() {
    let socket = Socket::builder()
        .ip_rules(false)
        .stall_time(5)
        .access_order(AccessOrder::MutualFailure)
        .access_allow(load_access_list("10.0.0.0/8"))
        .access_deny(load_access_list("10.1.0.0/16,10.2.0.0/16"))
        .connect_count(2)
        .connect_interval(30)
        .connect_lockout(40)
        .build();
    assert!(!socket.enable_ip_rules());
    assert_eq!(socket.stall_time(), 5);
    assert_eq!(
        socket.rate_config(),
        RateConfig { connect_count: 2, connect_interval: 30, connect_lockout: 40 }
    );
    let policy = socket.into_policy();
    assert_eq!(policy.order, AccessOrder::MutualFailure);
    assert_eq!(policy.allow, load_access_list("10.0.0.0/8"));
    assert_eq!(policy.deny, load_access_list("10.1.0.0/16,10.2.0.0/16"));
}

#[test]
fn socket_new_keeps_every_value() {
    let socket = Socket::new(
        true,
        9,
        AccessOrder::AllowDeny,
        load_access_list("all"),
        vec![],
        4,
        5,
        6,
    );
    assert!(socket.enable_ip_rules());
    assert_eq!(socket.stall_time(), 9);
    assert_eq!(
        socket.rate_config(),
        RateConfig { connect_count: 4, connect_interval: 5, connect_lockout: 6 }
    );
    let policy = socket.into_policy();
    assert_eq!(policy.order, AccessOrder::AllowDeny);
    assert_eq!(policy.allow, load_access_list("0.0.0.0/0"));
    assert!(policy.deny.is_empty());
}

#[test]
fn socket_init_reads_the_settings() {
    let socket = socket_init_tcp(&network(full())).ok().unwrap();
    assert!(socket.enable_ip_rules());
    assert_eq!(socket.stall_time(), 60);
    assert_eq!(
        socket.rate_config(),
        RateConfig { connect_count: 3, connect_interval: 1000, connect_lockout: 5000 }
    );
    let policy = socket.into_policy();
    assert_eq!(policy.order, AccessOrder::DenyAllow);
    assert_eq!(policy.allow, load_access_list("127.0.0.1"));
    assert_eq!(policy.deny, load_access_list("all"));
}

#[test]
fn unknown_order_means_deny_allow() {
    let socket = socket_init_tcp(&network(with("TCP_ORDER", text("whatever")))).ok().unwrap();
    assert_eq!(socket.into_policy().order, AccessOrder::DenyAllow);
    let socket = socket_init_tcp(&network(with("TCP_ORDER", text("mutual-failure")))).ok().unwrap();
    assert_eq!(socket.into_policy().order, AccessOrder::MutualFailure);
}

#[test]
fn each_missing_key_fails_construction() {
    for key in [
        "TCP_STALL_TIME",
        "TCP_ENABLE_IP_RULES",
        "TCP_ORDER",
        "TCP_ALLOW",
        "TCP_DENY",
        "TCP_CONNECT_COUNT",
        "TCP_CONNECT_INTERVAL",
        "TCP_CONNECT_LOCKOUT",
    ] {
        match build_gateway(&network(without(key))) {
            Err(Error::MissingKey { key: reported }) => {
                assert_eq!(reported, format!("network.{}", key))
            }
            _ => panic!("{} should be reported missing", key),
        }
    }
}

#[test]
fn each_mistyped_key_fails_construction() {
    for (key, value) in [
        ("TCP_STALL_TIME", text("60")),
        ("TCP_ENABLE_IP_RULES", ConfigValue::Int(1)),
        ("TCP_ORDER", ConfigValue::Bool(true)),
        ("TCP_ALLOW", ConfigValue::RawBytes(vec![0xff])),
        ("TCP_DENY", ConfigValue::Int(0)),
        ("TCP_CONNECT_COUNT", ConfigValue::Int(-1)),
        ("TCP_CONNECT_INTERVAL", ConfigValue::Float(1f64.to_bits())),
        ("TCP_CONNECT_LOCKOUT", ConfigValue::Int(-5000)),
    ] {
        match build_gateway(&network(with(key, value))) {
            Err(Error::ParseValueError { key: reported }) => {
                assert_eq!(reported, format!("network.{}", key))
            }
            _ => panic!("{} should be reported mistyped", key),
        }
    }
}

#[test]
fn first_failing_key_is_the_one_reported() {
    let entries: Vec<(&'static str, ConfigValue)> = full()
        .into_iter()
        .filter(|(k, _)| *k != "TCP_ORDER" && *k != "TCP_CONNECT_LOCKOUT")
        .map(|(k, v)| if k == "TCP_DENY" { (k, ConfigValue::Int(0)) } else { (k, v) })
        .collect();
    match socket_init_tcp(&network(entries)) {
        Err(Error::MissingKey { key }) => assert_eq!(key, "network.TCP_ORDER"),
        _ => panic!("the order is read before the deny list and the lockout"),
    }
    match socket_init_tcp(&network(vec![])) {
        Err(Error::MissingKey { key }) => assert_eq!(key, "network.TCP_STALL_TIME"),
        _ => panic!("the stall time is read first"),
    }
}

#[test]
fn end_to_end_access_lists() {
    let mut gateway = build_gateway(&network(full())).ok().unwrap();
    assert_eq!(gateway.admit_connection(ip(127, 0, 0, 1), 0), AdmissionDecision::Admit);
    assert_eq!(
        gateway.admit_connection(ip(8, 8, 8, 8), 0),
        AdmissionDecision::Reject(RejectReason::DeniedByAccessList)
    );
}

#[test]
fn end_to_end_rate_limit() {
    let mut gateway = build_gateway(&network(with("TCP_ENABLE_IP_RULES", ConfigValue::Bool(false))))
        .ok()
        .unwrap();
    let addr = ip(8, 8, 8, 8);
    assert_eq!(gateway.admit_connection(addr, 0), AdmissionDecision::Admit);
    assert_eq!(gateway.admit_connection(addr, 100), AdmissionDecision::Admit);
    assert_eq!(gateway.admit_connection(addr, 200), AdmissionDecision::Admit);
    assert_eq!(
        gateway.admit_connection(addr, 300),
        AdmissionDecision::Reject(RejectReason::RateLimited(5000))
    );
    assert_eq!(
        gateway.admit_connection(addr, 600),
        AdmissionDecision::Reject(RejectReason::RateLimited(4700))
    );
    assert_eq!(gateway.admit_connection(addr, 6000), AdmissionDecision::Admit);
}

#[test]
fn denied_address_uses_no_rate_limiter_slot() {
    let mut gateway = build_gateway(&network(full())).ok().unwrap();
    let denied = ip(8, 8, 8, 8);
    for t in 0..10 {
        assert_eq!(
            gateway.admit_connection(denied, t),
            AdmissionDecision::Reject(RejectReason::DeniedByAccessList)
        );
    }
    assert_eq!(gateway.state_of(denied), None);
    let allowed = ip(127, 0, 0, 1);
    assert_eq!(gateway.admit_connection(allowed, 0), AdmissionDecision::Admit);
    assert_eq!(
        gateway.state_of(allowed),
        Some(RateState { count: 1, window_start: 0, lockout_expiry: None })
    );
}

#[test]
fn disabled_rules_skip_the_access_lists() {
    let mut gateway = build_gateway(&network(with("TCP_ENABLE_IP_RULES", ConfigValue::Bool(false))))
        .ok()
        .unwrap();
    assert_eq!(gateway.admit_connection(ip(8, 8, 8, 8), 0), AdmissionDecision::Admit);
}

#[test]
fn gateway_exports_the_stall_time() {
    let gateway = build_gateway(&network(with("TCP_STALL_TIME", ConfigValue::Int(42)))).ok().unwrap();
    assert_eq!(gateway.stall_time(), 42);
}

#[test]
fn gateway_sweep_forgets_idle_addresses() {
    let mut gateway = AdmissionGateway::new(
        Socket::builder().connect_count(1).connect_interval(10).connect_lockout(100).build(),
    );
    assert_eq!(gateway.admit_connection(1, 0), AdmissionDecision::Admit);
    assert_eq!(gateway.admit_connection(2, 0), AdmissionDecision::Admit);
    assert_eq!(
        gateway.admit_connection(2, 1),
        AdmissionDecision::Reject(RejectReason::RateLimited(100))
    );
    gateway.sweep(50);
    assert_eq!(gateway.state_of(1), None);
    assert!(gateway.state_of(2).is_some());
    assert_eq!(
        gateway.admit_connection(2, 60),
        AdmissionDecision::Reject(RejectReason::RateLimited(41))
    );
    gateway.sweep(101);
    assert_eq!(gateway.state_of(2), None);
}

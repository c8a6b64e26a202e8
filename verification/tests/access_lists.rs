use login_server::access::access_ipmask;
use login_server::access::evaluate;
use login_server::access::load_access_list;
use login_server::access::matches_any;
use login_server::access::AccessOrder;
use login_server::access::AccessPolicy;
use login_server::ip_range::IpRange;

fn ip(a: u8, b: u8, c: u8, d: u8) -> u32 {
    u32::from_be_bytes([a, b, c, d])
}

fn range(text: &str) -> IpRange {
    access_ipmask(text).unwrap()
}

fn policy(order: AccessOrder, allow: &str, deny: &str) -> AccessPolicy {
    AccessPolicy { order, allow: load_access_list(allow), deny: load_access_list(deny) }
}

#[test]
fn it_parses_access_list() {
    assert_eq!(
        load_access_list("127.0.0.1,192.168.0.0/16"),
        vec!(
            access_ipmask("127.0.0.1").unwrap(),
            access_ipmask("192.168.0.0/16").unwrap(),
        )
    );
}

#[test]
fn it_parses_ip_range() {
    assert_eq!(access_ipmask("all"), Some(IpRange::new(ip(0, 0, 0, 0), 0).unwrap()));

    assert!(access_ipmask("127.0.0.1").is_some());
    assert_eq!(access_ipmask("127.0.0.1").unwrap().mask(), ip(255, 255, 255, 255));

    assert!(access_ipmask("192.168.0.0/16").is_some());
    assert!(access_ipmask("10.0.0.0/255.0.0.0").is_some());
}

#[test]
fn parsed_range_holds_address_and_prefix() {
    let r = range("192.168.1.5/16");
    assert_eq!(r.ip(), ip(192, 168, 1, 5));
    assert_eq!(r.prefix(), 16);
    assert_eq!(r.mask(), ip(255, 255, 0, 0));
    assert_eq!(r.network(), ip(192, 168, 0, 0));
    assert_eq!(r, IpRange::new(ip(192, 168, 1, 5), 16).unwrap());
}

#[test]
fn bare_address_is_a_host_range() {
    let r = range("127.0.0.1");
    assert_eq!(r.prefix(), 32);
    assert!(r.contains(ip(127, 0, 0, 1)));
    assert!(!r.contains(ip(127, 0, 0, 2)));
}

#[test]
fn netmask_form_gives_prefix() {
    let r = range("10.0.0.0/255.0.0.0");
    assert_eq!(r.prefix(), 8);
    assert_eq!(r.ip(), ip(10, 0, 0, 0));
    assert!(r.contains(ip(10, 200, 3, 4)));
    assert!(!r.contains(ip(11, 0, 0, 0)));
}

#[test]
fn all_holds_every_address() {
    let r = range("all");
    assert_eq!(r, IpRange::all());
    assert_eq!(r.prefix(), 0);
    assert_eq!(r.mask(), 0);
    assert!(r.contains(0));
    assert!(r.contains(u32::MAX));
    assert!(r.contains(ip(8, 8, 8, 8)));
}

#[test]
fn new_rejects_long_prefix() {
    assert!(IpRange::new(0, 32).is_some());
    assert!(IpRange::new(0, 33).is_none());
    assert!(IpRange::new(ip(1, 2, 3, 4), 255).is_none());
}

#[test]
fn invalid_tokens_name_no_range() {
    assert_eq!(access_ipmask(""), None);
    assert_eq!(access_ipmask("ALL"), None);
    assert_eq!(access_ipmask("localhost"), None);
    assert_eq!(access_ipmask("256.0.0.1"), None);
    assert_eq!(access_ipmask("10.0.0.0/33"), None);
    assert_eq!(access_ipmask("10.0.0.0/8/8"), None);
    assert_eq!(access_ipmask(" 10.0.0.1"), None);
    assert_eq!(access_ipmask("10.0.0.0/255.0.255.0"), None);
    assert_eq!(IpRange::parse("all"), None);
}

#[test]
fn list_skips_empty_and_invalid_pieces() {
    assert_eq!(load_access_list(""), vec![]);
    assert_eq!(load_access_list(",,,"), vec![]);
    assert_eq!(load_access_list("nonsense,also nonsense"), vec![]);
    assert_eq!(
        load_access_list(",10.0.0.0/8,,bogus,all,127.0.0.1,"),
        vec![range("10.0.0.0/8"), range("all"), range("127.0.0.1")]
    );
}

#[test]
fn render_round_trips() {
    for text in ["10.1.9.32/16", "0.0.0.0/0", "255.255.255.255/32", "192.168.0.0/24", "1.2.3.4/7"] {
        let r = IpRange::parse(text).unwrap();
        assert_eq!(r.render(), text);
        let back = IpRange::parse(&r.render()).unwrap();
        assert!(back.same_network(&r));
        assert_eq!(back, r);
        assert_eq!(back.network(), r.network());
        assert_eq!(back.prefix(), r.prefix());
    }
    assert_eq!(range("127.0.0.1").render(), "127.0.0.1/32");
    assert_eq!(range("10.0.0.0/255.0.0.0").render(), "10.0.0.0/8");
    assert_eq!(range("all").render(), "0.0.0.0/0");
    assert_eq!(IpRange::new(ip(172, 16, 254, 1), 12).unwrap().render(), "172.16.254.1/12");
}

#[test]
fn render_round_trips_for_every_prefix() {
    for prefix in 0..=32u8 {
        for addr in [0u32, 1, ip(10, 20, 30, 40), ip(100, 0, 0, 9), u32::MAX] {
            let r = IpRange::new(addr, prefix).unwrap();
            assert_eq!(IpRange::parse(&r.render()), Some(r));
        }
    }
}

#[test]
fn same_network_ignores_host_bits() {
    assert!(range("10.1.9.32/16").same_network(&range("10.1.0.0/16")));
    assert!(range("10.1.9.32/16").same_network(&range("10.1.0.0/255.255.0.0")));
    assert!(!range("10.1.9.32/16").same_network(&range("10.2.0.0/16")));
    assert!(!range("10.1.0.0/16").same_network(&range("10.1.0.0/17")));
    assert!(range("all").same_network(&range("200.1.2.3/0")));
}

#[test]
fn mask_has_prefix_leading_ones() {
    for prefix in 0..=32u8 {
        let r = IpRange::new(ip(1, 2, 3, 4), prefix).unwrap();
        assert_eq!(r.mask().leading_ones(), prefix as u32);
        assert_eq!(r.mask().count_ones(), prefix as u32);
        assert_eq!(r.network(), ip(1, 2, 3, 4) & r.mask());
        assert!(r.contains(r.network()));
    }
}

#[test]
fn order_from_str() {
    assert_eq!(AccessOrder::from_str("deny,allow"), AccessOrder::DenyAllow);
    assert_eq!(AccessOrder::from_str("allow,deny"), AccessOrder::AllowDeny);
    assert_eq!(AccessOrder::from_str("mutual-failure"), AccessOrder::MutualFailure);
    assert_eq!(AccessOrder::from_str(""), AccessOrder::DenyAllow);
    assert_eq!(AccessOrder::from_str("Allow,Deny"), AccessOrder::DenyAllow);
    assert_eq!(AccessOrder::from_str("allow, deny"), AccessOrder::DenyAllow);
}

#[test]
fn matches_any_of_empty_list_is_false() {
    assert!(!matches_any(&vec![], ip(1, 2, 3, 4)));
    assert!(matches_any(&load_access_list("10.0.0.0/8,192.168.0.0/16"), ip(192, 168, 3, 4)));
    assert!(!matches_any(&load_access_list("10.0.0.0/8,192.168.0.0/16"), ip(192, 169, 3, 4)));
}

#[test]
fn deny_allow_with_empty_deny_permits_everything() {
    for allow in ["", "10.0.0.0/8", "all"] {
        let p = policy(AccessOrder::DenyAllow, allow, "");
        for addr in [0, ip(10, 0, 0, 1), ip(8, 8, 8, 8), u32::MAX] {
            assert!(evaluate(&p, addr));
        }
    }
}

#[test]
fn allow_deny_with_empty_allow_rejects_everything() {
    for deny in ["", "10.0.0.0/8", "all"] {
        let p = policy(AccessOrder::AllowDeny, "", deny);
        for addr in [0, ip(10, 0, 0, 1), ip(8, 8, 8, 8), u32::MAX] {
            assert!(!evaluate(&p, addr));
        }
    }
}

#[test]
fn mutual_failure_needs_allow_and_no_deny() {
    let p = policy(AccessOrder::MutualFailure, "10.0.0.0/8,192.168.0.0/16", "10.1.0.0/16");
    assert!(evaluate(&p, ip(10, 0, 0, 1)));
    assert!(evaluate(&p, ip(192, 168, 9, 9)));
    assert!(!evaluate(&p, ip(10, 1, 0, 1)));
    assert!(!evaluate(&p, ip(8, 8, 8, 8)));
    for addr in [ip(10, 0, 0, 1), ip(10, 1, 2, 3), ip(192, 168, 1, 1), ip(1, 1, 1, 1)] {
        assert_eq!(
            evaluate(&p, addr),
            matches_any(&p.allow, addr) && !matches_any(&p.deny, addr)
        );
    }
}

#[test]
fn deny_allow_lets_allow_override_deny() {
    let p = policy(AccessOrder::DenyAllow, "127.0.0.1", "all");
    assert!(evaluate(&p, ip(127, 0, 0, 1)));
    assert!(!evaluate(&p, ip(8, 8, 8, 8)));
    let q = policy(AccessOrder::DenyAllow, "", "10.0.0.0/8");
    assert!(!evaluate(&q, ip(10, 0, 0, 1)));
    assert!(evaluate(&q, ip(11, 0, 0, 1)));
}

#[test]
fn allow_deny_lets_deny_override_allow() {
    let p = policy(AccessOrder::AllowDeny, "10.0.0.0/8", "10.1.0.0/16");
    assert!(evaluate(&p, ip(10, 0, 0, 1)));
    assert!(!evaluate(&p, ip(10, 1, 0, 1)));
    assert!(!evaluate(&p, ip(11, 0, 0, 1)));
}

use dns_updater::addr::{address_to_text, Address};
use dns_updater::dyn_dns::{
    parse_dns_tuples, update_outcome, ConfigError, DuckDns, FreeDns, Ovh, PersistsToFile, Provider,
};
use dns_updater::IpVersion;

fn v6_2001db8_1() -> Address {
    Address::v6(vec![0x2001, 0x0db8, 0, 0, 0, 0, 0, 1])
}

#[test]
fn persistence_keys_are_distinct_per_identity_and_version() {
    let fd = FreeDns::new("TOK".to_string(), IpVersion::V6, 10);
    assert_eq!(fd.file_name(), "FreeDNS_TOK_ipv6");

    let dd4 = DuckDns::new("TOK".to_string(), "name".to_string(), IpVersion::V4, 10);
    let dd6 = DuckDns::new("TOK".to_string(), "name".to_string(), IpVersion::V6, 10);
    assert_eq!(dd4.file_name(), "DuckDNS_TOK_name_ipv4");
    assert_eq!(dd6.file_name(), "DuckDNS_TOK_name_ipv6");
    assert_ne!(dd4.file_name(), dd6.file_name());

    let ovh = Ovh::new(
        "user".to_string(),
        "pass".to_string(),
        "sub.example.org".to_string(),
        IpVersion::V4,
        60,
    );
    assert_eq!(ovh.file_name(), "OVH_user_sub.example.org_ipv4");
}

#[test]
fn free_dns_url_carries_v6_address_and_omits_v4() {
    let p = Provider::FreeDns(FreeDns::new("TOK".to_string(), IpVersion::V6, 10));
    let req = p.update_request(&v6_2001db8_1());
    assert_eq!(
        req.url,
        "https://freedns.afraid.org/dynamic/update.php?TOK&address=2001:db8:0:0:0:0:0:1"
    );
    assert!(req.basic_auth_user.is_none());
    assert!(req.timeout_secs.is_none());

    let p_v4 = Provider::FreeDns(FreeDns::new("TOK".to_string(), IpVersion::V4, 10));
    let req_v4 = p_v4.update_request(&Address::v4(1, 2, 3, 4));
    assert_eq!(req_v4.url, "https://freedns.afraid.org/dynamic/update.php?TOK");
    assert!(!req_v4.url.contains("&address="));
}

#[test]
fn duck_dns_url_carries_v6_address_and_omits_v4() {
    let p = Provider::DuckDns(DuckDns::new(
        "TOK".to_string(),
        "myhome".to_string(),
        IpVersion::V6,
        10,
    ));
    let req = p.update_request(&v6_2001db8_1());
    assert_eq!(
        req.url,
        "https://www.duckdns.org/update?domains=myhome&token=TOK&ipv6=2001:db8:0:0:0:0:0:1"
    );

    let p_v4 = Provider::DuckDns(DuckDns::new(
        "TOK".to_string(),
        "myhome".to_string(),
        IpVersion::V4,
        10,
    ));
    let req_v4 = p_v4.update_request(&Address::v4(9, 8, 7, 6));
    assert_eq!(req_v4.url, "https://www.duckdns.org/update?domains=myhome&token=TOK");
    assert!(!req_v4.url.contains("ipv6="));
}

#[test]
fn ovh_request_always_carries_address_auth_and_bounds() {
    let p = Provider::Ovh(Ovh::new(
        "user".to_string(),
        "pass".to_string(),
        "home.example.com".to_string(),
        IpVersion::V4,
        60,
    ));
    let req = p.update_request(&Address::v4(1, 2, 3, 4));
    assert_eq!(
        req.url,
        "https://www.ovh.com/nic/update?system=dyndns&hostname=home.example.com&myip=1.2.3.4"
    );
    assert_eq!(req.basic_auth_user.as_deref(), Some("user"));
    assert_eq!(req.basic_auth_password.as_deref(), Some("pass"));
    assert_eq!(req.timeout_secs, Some(5));
    assert_eq!(req.max_redirects, Some(10));
}

#[test]
fn address_text_exact_forms() {
    assert_eq!(address_to_text(&Address::v4(1, 2, 3, 4)), "1.2.3.4");
    assert_eq!(address_to_text(&Address::v4(255, 0, 10, 99)), "255.0.10.99");
    assert_eq!(
        address_to_text(&Address::v6(vec![0, 0, 0, 0, 0, 0, 0, 0])),
        "0:0:0:0:0:0:0:0"
    );
    assert_eq!(
        address_to_text(&Address::v6(vec![0xabcd, 0xef01, 0x1, 0x23, 0x456, 0, 0xffff, 0x10])),
        "abcd:ef01:1:23:456:0:ffff:10"
    );
}

#[test]
fn update_outcome_is_success_exactly_on_2xx() {
    assert!(update_outcome(200).is_ok());
    assert!(update_outcome(204).is_ok());
    assert!(update_outcome(299).is_ok());
    for status in [0u16, 100, 199, 300, 301, 404, 500] {
        match update_outcome(status) {
            Ok(()) => panic!("status {} must not be a success", status),
            Err(e) => {
                let dbg = format!("{:?}", e);
                assert!(dbg.contains(&format!("{}", status)));
            }
        }
    }
}

#[test]
fn each_config_error_has_an_input() {
    let err = |s: &str| parse_dns_tuples(s).unwrap_err();
    assert_eq!(err("FD"), ConfigError::NoToken);
    assert_eq!(err("FD;tok"), ConfigError::NoVersion);
    assert_eq!(err("FD;tok;ipv5;1"), ConfigError::BadVersion);
    assert_eq!(err("FD;tok;;"), ConfigError::BadVersion);
    assert_eq!(err("FD;tok;ipv4"), ConfigError::NoPollSecs);
    assert_eq!(err("FD;tok;ipv4;abc"), ConfigError::BadPollSecs);
    assert_eq!(err("FD;tok;ipv4;99999999999999999999"), ConfigError::BadPollSecs);
    assert_eq!(err("DD;tok;ipv4;5"), ConfigError::NoName);
    assert_eq!(err("OVH"), ConfigError::NoUsername);
    assert_eq!(err("OVH;u"), ConfigError::NoPassword);
    assert_eq!(err("OVH;u;p"), ConfigError::NoSubdomain);
    assert_eq!(err("OVH;u;p;s"), ConfigError::NoVersion);
    assert_eq!(err("OVH;u;p;s;ipv4;x"), ConfigError::BadPollSecs);
    assert_eq!(err("ZZZ;a;b"), ConfigError::UnknownTag);
    assert_eq!(err(""), ConfigError::EmptyBatch);
    assert_eq!(err("()"), ConfigError::EmptyBatch);
}

#[test]
fn poll_secs_parses_like_a_plain_integer() {
    let ps = parse_dns_tuples("FD;tok;ipv4;+60").unwrap();
    assert_eq!(ps[0].get_poll_secs(), 60);
    let ps0 = parse_dns_tuples("FD;tok;ipv4;0").unwrap();
    assert_eq!(ps0[0].get_poll_secs(), 0);
}

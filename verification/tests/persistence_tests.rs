use dns_updater::addr::{address_to_text, Address};
use dns_updater::dyn_dns::{parse_dns_tuples, PersistsToFile};
use dns_updater::persistence::{CreateError, Error, Persistence};
use dns_updater::runner::Runner;
use dns_updater::IpVersion;

#[test]
fn store_round_trip_returns_the_address_unchanged() {
    // What replace writes is the address's text; load trims and parses it.
    let cases = vec![
        Address::v4(0, 0, 0, 0),
        Address::v4(255, 255, 255, 255),
        Address::v4(93, 184, 216, 34),
        Address::v6(vec![0, 0, 0, 0, 0, 0, 0, 0]),
        Address::v6(vec![0x2001, 0x0db8, 0, 0, 0, 0, 0, 1]),
        Address::v6(vec![0xfe80, 0xffff, 0xabcd, 0x1234, 1, 2, 3, 4]),
    ];
    for a in cases {
        let text = address_to_text(&a);
        let loaded = Persistence::parse_stored_ip(&text).expect("stored text must parse");
        assert!(loaded.same_as(&a));
        // The loader trims, as whole-file content may end in a newline.
        let padded = format!("  {}\n", text);
        let loaded2 = Persistence::parse_stored_ip(&padded).unwrap();
        assert!(loaded2.same_as(&a));
    }
}

#[test]
fn stored_compressed_v6_text_is_read() {
    // State files written with the conventional compressed form load to
    // the same value as the full form.
    let cases: Vec<(&str, Vec<u16>)> = vec![
        ("2001:db8::1", vec![0x2001, 0x0db8, 0, 0, 0, 0, 0, 1]),
        ("::1", vec![0, 0, 0, 0, 0, 0, 0, 1]),
        ("1::", vec![1, 0, 0, 0, 0, 0, 0, 0]),
        ("::", vec![0, 0, 0, 0, 0, 0, 0, 0]),
        ("fe80::ffff:1:2", vec![0xfe80, 0, 0, 0, 0, 0xffff, 1, 2]),
        ("1:2:3:4:5:6:7::", vec![1, 2, 3, 4, 5, 6, 7, 0]),
        ("::1:2:3:4:5:6:7", vec![0, 1, 2, 3, 4, 5, 6, 7]),
    ];
    for (text, groups) in cases {
        let a = Persistence::parse_stored_ip(text).expect(text);
        assert!(a.same_as(&Address::v6(groups)));
    }
    for bad in [":::", "1:::2", "1::2::3", "1:2:3:4:5:6:7:8::", "::1:2:3:4:5:6:7:8", ":", "::ffff:1.2.3.4"] {
        assert!(Persistence::parse_stored_ip(bad).is_err(), "{} must not parse", bad);
    }
}

#[test]
fn stored_zero_prefixed_quads_are_rejected() {
    assert!(matches!(Persistence::parse_stored_ip("01.2.3.4"), Err(Error::Parse)));
    assert!(matches!(Persistence::parse_stored_ip("1.2.3.04"), Err(Error::Parse)));
}

#[test]
fn stored_content_must_be_a_single_address() {
    assert!(matches!(Persistence::parse_stored_ip(""), Err(Error::Parse)));
    assert!(matches!(Persistence::parse_stored_ip("   \n"), Err(Error::Parse)));
    assert!(matches!(Persistence::parse_stored_ip("hello"), Err(Error::Parse)));
    assert!(matches!(Persistence::parse_stored_ip("1.2.3"), Err(Error::Parse)));
}

#[test]
fn store_construction_is_all_or_nothing() {
    assert!(matches!(
        Persistence::new(vec![]),
        Err(Error::CE(CreateError::NoFileNames))
    ));
    let p = Persistence::new(vec!["a".to_string(), "b".to_string()]).unwrap();
    assert_eq!(p.file_paths.len(), 2);
}

#[test]
fn key_to_path_resolution_is_exact() {
    let p = Persistence::new(vec![
        "FreeDNS_tok_ipv4".to_string(),
        "DuckDNS_t_n_ipv6".to_string(),
    ])
    .unwrap();
    assert_eq!(p.match_file_name("FreeDNS_tok_ipv4").unwrap(), 0);
    assert_eq!(p.match_file_name("DuckDNS_t_n_ipv6").unwrap(), 1);
    // A proper suffix of a key is not that key.
    assert!(matches!(p.match_file_name("_ipv4"), Err(Error::NoFileNames)));
    assert!(matches!(p.match_file_name("nope"), Err(Error::NoFileNames)));
}

#[test]
fn runner_pairs_each_provider_with_its_own_grabber() {
    let providers = parse_dns_tuples("FD;tok;ipv4;30,DD;t;ipv6;60;home").unwrap();
    let runner = Runner::new("wlan0".to_string(), providers).unwrap();
    assert_eq!(runner.dyn_dnss.len(), 2);
    assert_eq!(runner.pers.file_paths.len(), 2);
    assert_eq!(runner.pers.file_paths[0], "FreeDNS_tok_ipv4");
    assert_eq!(runner.pers.file_paths[1], "DuckDNS_t_home_ipv6");
    for (dns, grabber) in &runner.dyn_dnss {
        assert_eq!(grabber.iface, "wlan0");
        assert_eq!(grabber.ip_version, dns.get_ip_version());
        assert_eq!(grabber.poll_secs, dns.get_poll_secs());
        assert!(grabber.last_ip.is_none());
    }
}

#[test]
fn runner_with_no_providers_fails_at_the_store() {
    let r = Runner::new("eth0".to_string(), vec![]);
    assert!(matches!(r, Err(dns_updater::runner::Error::PersistenceError(_))));
}

#[test]
fn equal_entries_share_one_key_and_resolve_to_the_first_path() {
    // Two identical batches give two providers with the same persistence
    // key; resolution picks the first matching path.
    let providers = parse_dns_tuples("FD;tok;ipv4;5,FD;tok;ipv4;5").unwrap();
    assert_eq!(providers[0].file_name(), providers[1].file_name());
    let runner = Runner::new("eth0".to_string(), providers).unwrap();
    assert_eq!(runner.pers.file_paths[0], runner.pers.file_paths[1]);
    assert_eq!(runner.pers.match_file_name("FreeDNS_tok_ipv4").unwrap(), 0);
}

#[test]
fn poll_secs_at_the_integer_boundary() {
    let ok = parse_dns_tuples("FD;t;ipv4;18446744073709551615").unwrap();
    assert_eq!(ok[0].get_poll_secs(), u64::MAX);
    assert!(parse_dns_tuples("FD;t;ipv4;18446744073709551616").is_err());
}

#[test]
fn ip_version_simple_names() {
    assert_eq!(IpVersion::V4.simple_name(), "ipv4");
    assert_eq!(IpVersion::V6.simple_name(), "ipv6");
}

use dns_updater::dyn_dns::{parse_dns_tuples, PersistsToFile};

#[test]
fn test_parse() {
    assert!(parse_dns_tuples("").is_err());

    let fd_example = "(FD;8709122eruoi189014h;ipv4;0),FD;8709122eruoi189014h;ipv6;125;";
    parse_dns_tuples(fd_example).expect("Not fail");
    assert!(parse_dns_tuples(fd_example).is_ok_and(|e| {
        assert_eq!(e[0].get_ip_version().simple_name(), "ipv4");
        assert_eq!(e[1].get_ip_version().simple_name(), "ipv6");
        e.get(2).is_none()
    }));

    let fd_fails = "(FD;8709122eruoi189014h;),FD;8709122eruoi189014h;ipv6";
    assert!(parse_dns_tuples(fd_fails).is_err());

    let dd_example =
        "(DD;8709122eruoi189014h;ipv4;123;jejejej),DD;8709122eruoi189014h;ipv6;0;jheadwwj";
    parse_dns_tuples(dd_example).expect("Not fail");
    assert!(parse_dns_tuples(dd_example).is_ok_and(|e| {
        assert_eq!(e[0].get_ip_version().simple_name(), "ipv4");
        assert_eq!(e[1].get_ip_version().simple_name(), "ipv6");
        e.get(3).is_none()
    }));

    let dd_fails = "(DD;jejejej;;),DD;jajajaj;;ipv6";
    assert!(parse_dns_tuples(dd_fails).is_err());
}

#[test]
fn test_ovh_parsing() {
    // Format: OVH;USERNAME;PASSWORD;SUBDOMAIN;VERSION;POLL_SECS
    let input = "OVH;user123;pass456;home.example.com;ipv4;60";
    let results = parse_dns_tuples(input).expect("Should parse valid OVH string");

    assert_eq!(results.len(), 1);
    assert_eq!(results[0].get_ip_version().simple_name(), "ipv4");
    assert_eq!(results[0].get_poll_secs(), 60);
    assert!(results[0].file_name().contains("user123"));
    assert!(results[0].file_name().contains("home.example.com"));
}

#[test]
fn test_mixed_batch_parsing() {
    let input = "OVH;user;pass;host;ipv4;30, DD;tok;ipv6;60;name, (FD;tok2;ipv4;0)";
    let results = parse_dns_tuples(input).expect("Should parse mixed types");

    assert_eq!(results.len(), 3);
}

#[test]
fn test_ovh_missing_parts() {
    // Missing the last part (POLL_SECS)
    let input = "OVH;user123;pass456;home.example.com;ipv4";
    let result = parse_dns_tuples(input);
    assert!(result.is_err(), "Should fail when parts are missing");
    assert!(result.unwrap_err().message().contains("No POLL_SECS"));
}

#[test]
fn test_invalid_type() {
    let input = "UNKNOWN;data1;data2";
    let result = parse_dns_tuples(input);
    assert!(result.is_err());
    assert!(result.unwrap_err().message().contains("Invalid Dynamic Dns Type"));
}

#[test]
fn test_empty_segments() {
    // Testing trailing commas or empty segments
    let input = "OVH;u;p;s;ipv4;10,,FD;t;ipv4;0";
    let result = parse_dns_tuples(input);
    assert!(result.is_err(), "Empty segment between commas should fail");
}

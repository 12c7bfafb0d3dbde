use dns_updater::addr::Address;
use dns_updater::ip_grabber::{Error, IpGrabber, ParseError, PollStep};
use dns_updater::IpVersion;

fn new_grabber(iface: &str, v: IpVersion) -> IpGrabber {
    IpGrabber::new(iface.to_string(), v, 30).unwrap()
}

#[test]
fn grabber_emits_only_genuine_changes() {
    let mut g = new_grabber("eth0", IpVersion::V4);
    let first = g.on_poll(Ok(Address::v4(1, 2, 3, 4)));
    match first {
        PollStep::Emit(a) => assert!(a.same_as(&Address::v4(1, 2, 3, 4))),
        _ => panic!("the first observed address must be emitted"),
    }
    // The identical address again: no emission, just the normal wait.
    assert!(matches!(g.on_poll(Ok(Address::v4(1, 2, 3, 4))), PollStep::WaitNormal));
    assert!(matches!(g.on_poll(Ok(Address::v4(1, 2, 3, 4))), PollStep::WaitNormal));
    // A distinct address: emitted exactly once, cache updated.
    match g.on_poll(Ok(Address::v4(5, 6, 7, 8))) {
        PollStep::Emit(a) => assert!(a.same_as(&Address::v4(5, 6, 7, 8))),
        _ => panic!("a changed address must be emitted"),
    }
    assert!(matches!(g.on_poll(Ok(Address::v4(5, 6, 7, 8))), PollStep::WaitNormal));
}

#[test]
fn grabber_failure_keeps_cache_and_retries_fast() {
    let mut g = new_grabber("eth0", IpVersion::V4);
    match g.on_poll(Ok(Address::v4(1, 2, 3, 4))) {
        PollStep::Emit(_) => {}
        _ => panic!("first address must be emitted"),
    }
    assert!(matches!(g.on_poll(Err(Error::NoneMatched)), PollStep::WaitFast));
    // The cache survived the failure: the same address is still unchanged.
    assert!(matches!(g.on_poll(Ok(Address::v4(1, 2, 3, 4))), PollStep::WaitNormal));
}

#[test]
fn v6_selection_takes_first_stable_global_line_for_the_interface() {
    let g = new_grabber("eth0", IpVersion::V6);
    let table = "\
00000000000000000000000000000001 01 80 00 00 lo
20010db8000000000000000000000002 02 40 20 00 eth0
20010db8000000000000000000000003 03 40 00 01 eth0
20010db8000000000000000000000004 04 40 00 20 eth0
20010db8000000000000000000000005 05 40 zz 00 eth0
20010db8000000000000000000000006 06 40 00 00 eth0
20010db8000000000000000000000007 07 40 00 00 eth0
";
    let got = g.get_stable_global_ipv6(table).expect("one line is eligible");
    // Line order decides: the first line that has the right interface,
    // global scope, and neither the temporary nor the deprecated flag.
    let want = Address::v6(vec![0x2001, 0x0db8, 0, 0, 0, 0, 0, 6]);
    assert!(got.same_as(&want));
}

#[test]
fn v6_selection_without_eligible_line_is_none_matched() {
    let g = new_grabber("eth0", IpVersion::V6);
    let table = "\
00000000000000000000000000000001 01 80 10 80 lo
20010db8000000000000000000000002 02 40 00 00 wlan1
";
    match g.get_stable_global_ipv6(table) {
        Err(Error::NoneMatched) => {}
        other => panic!("expected the none-matched failure, got {:?}", other),
    }
}

#[test]
fn v6_selection_short_lines_are_skipped() {
    let g = new_grabber("eth0", IpVersion::V6);
    let table = "garbage\n\n20010db8000000000000000000000001 02 40 00 00 eth0\n";
    let got = g.get_stable_global_ipv6(table).unwrap();
    assert!(got.same_as(&Address::v6(vec![0x2001, 0x0db8, 0, 0, 0, 0, 0, 1])));
}

#[test]
fn v6_first_eligible_line_decides_even_when_malformed() {
    // The first eligible line has a bad address field: its parse failure is
    // the poll's outcome, later good lines are not consulted.
    let g = new_grabber("eth0", IpVersion::V6);
    let table = "\
20010db80000000000000000000000zz 02 40 00 00 eth0
20010db8000000000000000000000001 03 40 00 00 eth0
";
    match g.get_stable_global_ipv6(table) {
        Err(Error::ParseError(ParseError::InvalidStr)) => {}
        other => panic!("expected the invalid-hex failure, got {:?}", other),
    }
}

#[test]
fn parse_ipv6_length_and_content_failures_are_distinct() {
    assert!(matches!(
        IpGrabber::parse_ipv6("20010db800000000000000000000000"),
        Err(ParseError::LenMismatch)
    ));
    assert!(matches!(
        IpGrabber::parse_ipv6("20010db80000000000000000000000050"),
        Err(ParseError::LenMismatch)
    ));
    assert!(matches!(
        IpGrabber::parse_ipv6("20010db800000000000000000000000g"),
        Err(ParseError::InvalidStr)
    ));
    let a = IpGrabber::parse_ipv6("20010db8000000000000000000000005").unwrap();
    assert!(a.same_as(&Address::v6(vec![0x2001, 0x0db8, 0, 0, 0, 0, 0, 5])));
}

#[test]
fn echo_body_is_trimmed_and_must_be_dotted_quad() {
    let a = IpGrabber::parse_echo_body("  93.184.216.34\n").unwrap();
    assert!(a.same_as(&Address::v4(93, 184, 216, 34)));
    assert!(IpGrabber::parse_echo_body("not an address").is_err());
    assert!(IpGrabber::parse_echo_body("").is_err());
    assert!(IpGrabber::parse_echo_body("1.2.3.456").is_err());
    assert!(IpGrabber::parse_echo_body("2001:db8:0:0:0:0:0:1").is_err());
    // Zero-prefixed octets are rejected, as std's address parser rejects
    // them; a lone zero octet is fine.
    assert!(IpGrabber::parse_echo_body("01.2.3.4").is_err());
    assert!(IpGrabber::parse_echo_body("1.02.3.4").is_err());
    let zero = IpGrabber::parse_echo_body("0.0.0.0").unwrap();
    assert!(zero.same_as(&Address::v4(0, 0, 0, 0)));
}

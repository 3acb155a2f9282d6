use flit::BloomFilter;
use socks5_configurator::address::{Address, IpAddr, SockAddr};
use socks5_configurator::route::{ConfigError, Router, Tag};

fn lines(items: &[&str]) -> Vec<String> {
    items.iter().map(|s| s.to_string()).collect()
}

fn filter_for(n: usize) -> BloomFilter<String> {
    BloomFilter::new(0.01, n.max(1))
}

fn router(v4: &[&str], v6: &[&str], domains: &[&str]) -> Router {
    let d = lines(domains);
    Router::init(&lines(v4), &lines(v6), &d, filter_for(d.len())).unwrap()
}

fn v4(a: u8, b: u8, c: u8, d: u8) -> Address {
    Address::SocketAddr(SockAddr { ip: IpAddr::V4(u32::from_be_bytes([a, b, c, d])), port: 443 })
}

fn v6(x: u128) -> Address {
    Address::SocketAddr(SockAddr { ip: IpAddr::V6(x), port: 443 })
}

fn domain(s: &str) -> Address {
    Address::Domain(s.to_string(), 80)
}

#[test]
fn from_bool_maps_true_to_direct() {
    assert_eq!(Tag::from_bool(true), Tag::Direct);
    assert_eq!(Tag::from_bool(false), Tag::Proxy);
}

#[test]
fn ipv4_inside_block_is_direct() {
    let r = router(&["10.0.0.0/8", "192.168.1.0/24"], &[], &["x.y"]);
    assert_eq!(r.match_tag(&v4(10, 1, 2, 3)), Tag::Direct);
    assert_eq!(r.match_tag(&v4(192, 168, 1, 255)), Tag::Direct);
    assert_eq!(r.match_tag(&v4(192, 168, 2, 0)), Tag::Proxy);
    assert_eq!(r.match_tag(&v4(8, 8, 8, 8)), Tag::Proxy);
}

#[test]
fn ipv4_block_with_host_bits_covers_its_network() {
    let r = router(&["172.16.5.7/16"], &[], &["x.y"]);
    assert_eq!(r.match_tag(&v4(172, 16, 200, 1)), Tag::Direct);
    assert_eq!(r.match_tag(&v4(172, 17, 0, 1)), Tag::Proxy);
}

#[test]
fn ipv6_inside_block_is_direct() {
    let r = router(&[], &["2001:db8::/32"], &["x.y"]);
    assert_eq!(r.match_tag(&v6(0x2001_0db8_0000_0000_0000_0000_0000_0001)), Tag::Direct);
    assert_eq!(r.match_tag(&v6(0x2001_0db9_0000_0000_0000_0000_0000_0001)), Tag::Proxy);
}

#[test]
fn address_families_are_kept_apart() {
    let r = router(&["0.0.0.0/0"], &[], &["x.y"]);
    assert_eq!(r.match_tag(&v4(1, 2, 3, 4)), Tag::Direct);
    assert_eq!(r.match_tag(&v6(1)), Tag::Proxy);
}

#[test]
fn empty_lists_route_everything_through_proxy() {
    let r = router(&[], &[], &["x.y"]);
    assert_eq!(r.match_tag(&v4(10, 0, 0, 1)), Tag::Proxy);
    assert_eq!(r.match_tag(&v6(1)), Tag::Proxy);
}

#[test]
fn bad_ipv4_line_names_its_index() {
    let d = lines(&["a.b"]);
    let e = Router::init(&lines(&["10.0.0.0/8", "not a block", "nope"]), &lines(&[]), &d, filter_for(1));
    assert_eq!(e.err(), Some(ConfigError::InvalidCidr4(1)));
}

#[test]
fn bad_ipv6_line_names_its_index() {
    let d = lines(&["a.b"]);
    let e = Router::init(&lines(&["10.0.0.0/8"]), &lines(&["::/0", "1.2.3.4/8"]), &d, filter_for(1));
    assert_eq!(e.err(), Some(ConfigError::InvalidCidr6(1)));
}

#[test]
fn ipv4_errors_come_before_ipv6_errors() {
    let d = lines(&["a.b"]);
    let e = Router::init(&lines(&["bad"]), &lines(&["bad"]), &d, filter_for(1));
    assert_eq!(e.err(), Some(ConfigError::InvalidCidr4(0)));
}

#[test]
fn prefix_too_long_is_rejected() {
    let d = lines(&["a.b"]);
    let e = Router::init(&lines(&["10.0.0.0/33"]), &lines(&[]), &d, filter_for(1));
    assert_eq!(e.err(), Some(ConfigError::InvalidCidr4(0)));
}

#[test]
fn top_level_suffix_matches_subdomain() {
    let r = router(&[], &[], &["com"]);
    assert_eq!(r.match_tag(&domain("evil.com")), Tag::Direct);
}

#[test]
fn full_domain_is_never_probed_itself() {
    let d = lines(&["evil.com"]);
    let r = Router::init(&lines(&[]), &lines(&[]), &d, BloomFilter::new(0.000_000_1, 1)).unwrap();
    assert_eq!(r.match_tag(&domain("evil.com")), Tag::Proxy);
    assert_eq!(r.match_tag(&domain("www.evil.com")), Tag::Direct);
}

#[test]
fn parent_zone_matches_deep_subdomain() {
    let r = router(&[], &[], &["example.com"]);
    assert_eq!(r.match_tag(&domain("a.b.example.com")), Tag::Direct);
}

#[test]
fn domain_without_dot_is_proxy() {
    let r = router(&[], &[], &["localhost", "com"]);
    assert_eq!(r.match_tag(&domain("localhost")), Tag::Proxy);
    assert_eq!(r.match_tag(&domain("")), Tag::Proxy);
}

#[test]
fn every_listed_domain_is_found_as_suffix() {
    let names = ["cn", "baidu.com", "qq.com", "163.com", "xn--fiqs8s", "example.org"];
    let r = router(&[], &[], &names);
    for n in names.iter() {
        assert_eq!(r.match_tag(&domain(&format!("host.{}", n))), Tag::Direct);
    }
}

#[test]
fn non_ascii_domain_is_scanned() {
    let r = router(&[], &[], &["中国"]);
    assert_eq!(r.match_tag(&domain("例子.中国")), Tag::Direct);
}

#[test]
fn unlisted_domain_is_proxy_with_strict_filter() {
    let d = lines(&["example.com"]);
    let r = Router::init(&lines(&[]), &lines(&[]), &d, BloomFilter::new(0.000_000_1, 1)).unwrap();
    assert_eq!(r.match_tag(&domain("www.google.com")), Tag::Proxy);
}

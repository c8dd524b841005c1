use mywifistats::addr::{ip_string, is_link_local, parse_ip, IpAddr};
use mywifistats::lan::{
    discover_neighbors, hostname_local, name_device, neigh_error, parse_neigh_line, question_of,
    reverse_dns,
};
use mywifistats::model::{DeviceSource, LinkKind, TrafficCounters};
use mywifistats::oui::lookup_vendor;
use mywifistats::rate::{per_second_of, RateTracker};

#[test]
fn addresses_in_text() {
    let cases = [
        ("0.0.0.0", "0.0.0.0"),
        ("255.255.255.255", "255.255.255.255"),
        ("192.168.1.1", "192.168.1.1"),
        ("::", "::"),
        ("::1", "::1"),
        ("1::", "1::"),
        ("fe80::1", "fe80::1"),
        ("2001:DB8:0:0:1:0:0:1", "2001:db8::1:0:0:1"),
        ("1:2:3:4:5:6:7:8", "1:2:3:4:5:6:7:8"),
        ("1:0:3:4:5:6:7:8", "1:0:3:4:5:6:7:8"),
        ("0:0:0:1:0:0:0:0", "0:0:0:1::"),
        ("::ffff:1.2.3.4", "::ffff:1.2.3.4"),
        ("::1.2.3.4", "::102:304"),
        ("1:2:3:4:5:6:7::", "1:2:3:4:5:6:7:0"),
        ("1:2:3:4:5:6:1.2.3.4", "1:2:3:4:5:6:102:304"),
    ];
    for (text, shown) in cases {
        let ip = parse_ip(text).unwrap();
        assert_eq!(ip_string(ip), shown);
        assert_eq!(parse_ip(&ip_string(ip)), Some(ip));
    }
}

#[test]
fn texts_that_are_no_addresses() {
    let cases = [
        "", "1", "1.2.3", "1.2.3.4.5", "256.1.1.1", "01.2.3.4", "1.2.3.4 ", "+1.2.3.4", ":", ":::",
        "1:2:3:4:5:6:7", "1:2:3:4:5:6:7:8:9", "1::2::3", "12345::", "g::", "::1.2.3", "fe80::1%eth0",
        "1:2:3:4:5:6:7::8",
    ];
    for text in cases {
        assert_eq!(parse_ip(text), None, "{text}");
    }
}

#[test]
fn link_local_addresses() {
    assert!(is_link_local(parse_ip("fe80::1").unwrap()));
    assert!(is_link_local(parse_ip("febf::1").unwrap()));
    assert!(!is_link_local(parse_ip("fec0::1").unwrap()));
    assert!(!is_link_local(parse_ip("169.254.0.1").unwrap()));
}

#[test]
fn neighbours() {
    let gw = Some(IpAddr::V4(192, 168, 1, 1));
    let d = parse_neigh_line("192.168.1.1 lladdr 34:24:3E:b3:91:b4 REACHABLE", gw).unwrap();
    assert_eq!(d.hostname.as_deref(), Some("gateway"));
    assert_eq!(d.mac.as_deref(), Some("34:24:3e:b3:91:b4"));
    assert!(d.online && d.is_gateway && !d.is_self);
    assert_eq!(d.source, DeviceSource::Lan);
    assert_eq!(d.link, LinkKind::Unknown);
    let s = parse_neigh_line("10.0.0.2 dev x lladdr 00:11:22:33:44:55 router STALE", gw).unwrap();
    assert!(!s.online && !s.is_gateway);
    assert_eq!(s.hostname, None);
    assert!(parse_neigh_line("fe80::1 lladdr 00:11:22:33:44:55 REACHABLE", gw).is_none());
    assert!(parse_neigh_line("10.0.0.3 FAILED", gw).is_none());
    assert!(parse_neigh_line("10.0.0.3", gw).is_none());
    assert!(parse_neigh_line("10.0.0.3 INCOMPLETE", gw).is_none());
    assert!(parse_neigh_line("10.0.0.3 NOARP", gw).is_some());
    assert!(parse_neigh_line("10.0.0.3 lladdr", gw).is_none());
    assert!(parse_neigh_line("", gw).is_none());
    assert!(parse_neigh_line("host lladdr 00:11:22:33:44:55 REACHABLE", gw).is_none());
    let failed = parse_neigh_line("10.0.0.4 lladdr 00:11:22:33:44:55 FAILED", gw).unwrap();
    assert!(!failed.online);
    // A second address that is none takes the first away.
    assert!(parse_neigh_line("10.0.0.4 lladdr 00:11:22:33:44:55 lladdr x", gw).is_none());
}

#[test]
fn this_machine_is_listed() {
    let out = "192.168.1.1 lladdr 34:24:3e:b3:91:b4 REACHABLE\nfe80::1 lladdr x STALE\n";
    let ip = Some(IpAddr::V4(192, 168, 1, 7));
    let mac = Some("dc:a6:32:00:00:01".to_owned());
    let v = discover_neighbors(out, None, ip, &mac, &Some(" box\n".to_owned()));
    assert_eq!(v.len(), 2);
    assert!(v[1].is_self && v[1].online);
    assert_eq!(v[1].hostname.as_deref(), Some("box"));
    assert_eq!(v[1].source, DeviceSource::Local);
    assert_eq!(v[1].link, LinkKind::Wifi);
    assert_eq!(v[1].vendor.as_deref(), lookup_vendor("dc:a6:32:00:00:01"));
    assert_eq!(discover_neighbors(out, None, None, &mac, &None).len(), 1);
    assert_eq!(hostname_local(&None), "this-machine");
    assert_eq!(hostname_local(&Some(" \n".to_owned())), "this-machine");
}

#[test]
fn names_of_hosts() {
    let ip = IpAddr::V4(192, 168, 1, 7);
    let name = reverse_dns(ip, &Some("192.168.1.7  host.local.. alias\n".to_owned()));
    assert_eq!(name.as_deref(), Some("host.local"));
    assert_eq!(reverse_dns(ip, &Some("192.168.1.7 192.168.1.7".to_owned())), None);
    assert_eq!(reverse_dns(ip, &Some("192.168.1.7".to_owned())), None);
    assert_eq!(reverse_dns(ip, &None), None);
    let mut d = parse_neigh_line("192.168.1.7 lladdr 00:11:22:33:44:55", None).unwrap();
    assert_eq!(question_of(&d).as_deref(), Some("192.168.1.7"));
    name_device(&mut d, &Some("192.168.1.7 tv".to_owned()));
    assert_eq!(d.hostname.as_deref(), Some("tv"));
    assert_eq!(question_of(&d), None);
    name_device(&mut d, &Some("192.168.1.7 other".to_owned()));
    assert_eq!(d.hostname.as_deref(), Some("tv"));
    assert_eq!(neigh_error(&None), "running ip neigh");
    assert_eq!(neigh_error(&Some("x".to_owned())), "ip neigh failed: x");
}

#[test]
fn rates_agree_with_double_arithmetic() {
    let mut x: u64 = 0x2545_f491_4f6c_dd1d;
    for i in 0..100_000u64 {
        x ^= x << 13;
        x ^= x >> 7;
        x ^= x << 17;
        let bytes = x >> (i % 64);
        let nanos = x.rotate_left(29) >> ((i / 7) % 64);
        let secs = std::time::Duration::from_nanos(nanos).as_secs_f64().max(0.001);
        assert_eq!(per_second_of(bytes, nanos), (bytes as f64 / secs) as u64);
    }
}

fn counters(rx: u64, tx: u64) -> TrafficCounters {
    TrafficCounters { rx_bytes: rx, tx_bytes: tx }
}

#[test]
fn local_rates() {
    let mut t = RateTracker::new();
    let first = t.update_local(&counters(100, 200), 5_000_000_000);
    assert_eq!((first.rx_bps, first.tx_bps), (0, 0));
    let second = t.update_local(&counters(1100, 700), 7_000_000_000);
    assert_eq!((second.rx_bps, second.tx_bps), (500, 250));
    // A counter that fell has no rate.
    let third = t.update_local(&counters(0, 800), 7_500_000_000);
    assert_eq!((third.rx_bps, third.tx_bps), (0, 200));
    let same = t.update_local(&counters(1, 800), 7_500_000_000);
    assert_eq!((same.rx_bps, same.tx_bps), (1000, 0));
}

#[test]
fn device_rates() {
    let mut t = RateTracker::new();
    assert_eq!(t.update_device("a", None, Some(1), 0), (None, None));
    assert_eq!(t.update_device("a", Some(1), Some(1), 0), (None, None));
    assert_eq!(t.update_device("b", Some(9), Some(9), 0), (None, None));
    assert_eq!(t.update_device("a", Some(3), Some(2), 1_000_000_000), (Some(2), Some(1)));
    assert_eq!(t.update_device("a", Some(3), None, 2_000_000_000), (None, None));
    assert_eq!(t.update_device("a", Some(3), Some(12), 3_000_000_000), (Some(0), Some(5)));
}

#[test]
fn vendors() {
    assert_eq!(lookup_vendor("b8-27-eb-00-00-00"), Some("Raspberry Pi"));
    assert_eq!(lookup_vendor("B827EB"), Some("Raspberry Pi"));
    assert_eq!(lookup_vendor("b827e"), None);
    assert_eq!(lookup_vendor("ff:ff:ff:00:00:00"), None);
}

use mywifistats::addr::IpAddr;
use mywifistats::merge::merge_devices;
use mywifistats::model::{Device, DeviceSource, LinkKind, SortKey};
use mywifistats::sort::sort_devices;

fn device(name: &str) -> Device {
    Device {
        hostname: if name.is_empty() { None } else { Some(name.to_owned()) },
        ip: None,
        mac: None,
        vendor: None,
        link: LinkKind::Unknown,
        online: false,
        is_self: false,
        is_gateway: false,
        blocked: false,
        bytes_rx: None,
        bytes_tx: None,
        rate_rx_bps: None,
        rate_tx_bps: None,
        source: DeviceSource::Lan,
    }
}

fn names(v: &[Device]) -> Vec<String> {
    v.iter().map(|d| d.hostname.clone().unwrap_or_default()).collect()
}

#[test]
fn self_then_gateway_then_names() {
    let mut v = vec![device("b"), device(""), device("a"), device("z"), device("y"), device("é")];
    v[3].is_gateway = true;
    v[4].is_self = true;
    sort_devices(&mut v, SortKey::Hostname);
    assert_eq!(names(&v), ["y", "z", "a", "b", "", "é"]);
}

#[test]
fn other_keys() {
    let mut v = vec![device("a"), device("b"), device("c")];
    v[0].ip = Some(IpAddr::V4(10, 0, 0, 9));
    v[1].ip = Some(IpAddr::V4(10, 0, 0, 10));
    sort_devices(&mut v, SortKey::Ip);
    assert_eq!(names(&v), ["c", "b", "a"]);
    v[0].mac = Some("02".to_owned());
    v[1].mac = Some("01".to_owned());
    sort_devices(&mut v, SortKey::Mac);
    assert_eq!(names(&v), ["a", "b", "c"]);
    v[1].bytes_rx = Some(u64::MAX);
    v[1].bytes_tx = Some(u64::MAX);
    v[2].bytes_tx = Some(5);
    sort_devices(&mut v, SortKey::Usage);
    assert_eq!(names(&v), ["b", "c", "a"]);
    v[0].link = LinkKind::Wifi;
    v[1].link = LinkKind::Ethernet;
    sort_devices(&mut v, SortKey::Link);
    let mut links: Vec<String> = v.iter().map(|d| d.link.as_str().to_owned()).collect();
    let shown = links.clone();
    links.sort();
    assert_eq!(shown, links);
}

#[test]
fn sorting_agrees_with_a_stable_sort() {
    let mut x: u64 = 88172645463325252;
    for key in [SortKey::Hostname, SortKey::Ip, SortKey::Mac, SortKey::Usage, SortKey::Link] {
        let mut v = Vec::new();
        for i in 0..60u64 {
            x ^= x << 13;
            x ^= x >> 7;
            x ^= x << 17;
            let mut d = device(["", "a", "ab", "b", "ß"][(x % 5) as usize]);
            d.vendor = Some(i.to_string());
            d.is_self = x % 17 == 0;
            d.is_gateway = x % 13 == 0;
            if x % 3 == 0 {
                d.mac = Some(format!("{:02}", x % 7));
                d.bytes_rx = Some(x % 4);
            }
            if x % 2 == 0 {
                d.ip = Some(IpAddr::V4(10, 0, 0, (x % 12) as u8));
                d.link = LinkKind::Wifi;
            }
            v.push(d);
        }
        let mut expected: Vec<usize> = (0..v.len()).collect();
        expected.sort_by_key(|&i| {
            let d = &v[i];
            let text = match key {
                SortKey::Hostname => d.hostname.clone().unwrap_or("~".to_owned()),
                SortKey::Ip => match d.ip {
                    Some(IpAddr::V4(a, b, c, e)) => format!("{a}.{b}.{c}.{e}"),
                    _ => String::new(),
                },
                SortKey::Mac => d.mac.clone().unwrap_or_default(),
                SortKey::Usage => String::new(),
                SortKey::Link => d.link.as_str().to_owned(),
            };
            let used = if key == SortKey::Usage { d.bytes_rx.unwrap_or(0) } else { 0 };
            (!d.is_self, !d.is_gateway, text, u64::MAX - used)
        });
        let want: Vec<String> = expected.iter().map(|&i| v[i].vendor.clone().unwrap()).collect();
        sort_devices(&mut v, key);
        let got: Vec<String> = v.iter().map(|d| d.vendor.clone().unwrap()).collect();
        assert_eq!(got, want);
    }
}

#[test]
fn merging() {
    let mut a = device("old");
    a.mac = Some("aa".to_owned());
    a.ip = Some(IpAddr::V4(10, 0, 0, 2));
    a.vendor = Some("V".to_owned());
    let mut b = device("");
    b.ip = Some(IpAddr::V4(10, 0, 0, 1));
    let mut r = device("new");
    r.mac = Some("aa".to_owned());
    r.ip = Some(IpAddr::V4(10, 0, 0, 3));
    r.link = LinkKind::Ethernet;
    r.online = true;
    r.bytes_rx = Some(7);
    r.vendor = Some("W".to_owned());
    r.source = DeviceSource::Router;
    let mut s = device("only");
    s.source = DeviceSource::Router;
    let out = merge_devices(
        vec![a, b],
        vec![r, s],
        Some(IpAddr::V4(10, 0, 0, 1)),
        &Some("aa".to_owned()),
    );
    assert_eq!(out.len(), 3);
    assert_eq!(out[0].hostname.as_deref(), Some("new"));
    assert_eq!(out[0].ip, Some(IpAddr::V4(10, 0, 0, 2)));
    assert_eq!(out[0].vendor.as_deref(), Some("V"));
    assert_eq!(out[0].link, LinkKind::Ethernet);
    assert_eq!(out[0].bytes_rx, Some(7));
    assert_eq!(out[0].source, DeviceSource::Merged);
    assert!(out[0].online && out[0].is_self && !out[0].is_gateway);
    assert_eq!(out[1].hostname.as_deref(), Some("gateway"));
    assert!(out[1].is_gateway && !out[1].is_self);
    assert_eq!(out[2].hostname.as_deref(), Some("only"));
    assert_eq!(out[2].source, DeviceSource::Router);
}

#[test]
fn merging_by_address_and_name() {
    let mut a = device("x");
    a.ip = Some(IpAddr::V4(10, 0, 0, 5));
    let mut r = device("y");
    r.ip = Some(IpAddr::V4(10, 0, 0, 5));
    let out = merge_devices(vec![a, device("n"), device("n")], vec![r, device("n")], None, &None);
    assert_eq!(names(&out), ["y", "n"]);
    assert_eq!(out[1].source, DeviceSource::Merged);
}

use mywifistats::addr::IpAddr;
use mywifistats::model::{Reading, WifiLink};
use mywifistats::wifi::{
    collect_wifi, command_error_of, default_gateway, detect_interface, fraction_tokens_of,
    interface_names, is_wireless, local_mac, parse_bitrate, parse_iw_info, parse_iw_link,
    parse_station_dump, primary_ipv4, read_traffic, WifiOutputs,
};

fn readings(outputs: &[&str]) -> Vec<Reading> {
    let mut table = Vec::new();
    for out in outputs {
        for token in fraction_tokens_of(out) {
            if let Ok(n) = token.parse::<f64>() {
                table.push(Reading {
                    token: token.clone(),
                    positive: n > 0.0,
                    nearest: n.round() as u32,
                    shown: format!("{n:.0}"),
                });
            }
        }
    }
    table
}

const LINK: &str = "Connected to 34:24:3e:b3:91:b4 (on wlan0)\n\
    \tSSID: Home Net 5G\n\
    \tfreq: 5320.0\n\
    \tRX: 1234 bytes (12 packets)\n\
    \tsignal: -53 dBm\n\
    \trx bitrate: 866.7 MBit/s VHT-MCS 9\n\
    \ttx bitrate: 780.5 MBit/s\n";

const INFO: &str = "Interface wlan0\n\
    \tifindex 3\n\
    \tssid Other\n\
    \tchannel 64 (5320 MHz), width: 80 MHz, center1: 5290 MHz\n";

const STATION: &str = "Station 34:24:3e:b3:91:b4 (on wlan0)\n\
    \tinactive time:\t10 ms\n\
    \tsignal:  \t-52 [-52, -55] dBm\n\
    \ttx bitrate:\t650.0 MBit/s\n\
    \trx bitrate:\t(unknown)\n\
    \tconnected time:\t3661 seconds\n";

fn empty() -> WifiLink {
    let none = WifiOutputs { link: None, info: None, station: None, addr: None, route: None };
    collect_wifi("wlan0", &none, &Vec::new())
}

#[test]
fn the_link() {
    let mut link = empty();
    parse_iw_link(LINK, &readings(&[LINK]), &mut link);
    assert_eq!(link.bssid.as_deref(), Some("34:24:3e:b3:91:b4"));
    assert_eq!(link.ssid.as_deref(), Some("Home Net 5G"));
    assert_eq!(link.freq_mhz, Some(5320));
    assert_eq!(link.signal_dbm, Some(-53));
    assert_eq!(link.rx_bitrate_mbps.unwrap().shown, "867");
    assert_eq!(link.tx_bitrate_mbps.unwrap().shown, "780");
}

#[test]
fn no_link() {
    let mut link = empty();
    let out = "Not connected.\nfreq: 0\nfreq: x\nsignal: strong\nConnected to \n";
    parse_iw_link(out, &readings(&[out]), &mut link);
    assert_eq!(link.bssid, None);
    assert_eq!(link.freq_mhz, None);
    assert_eq!(link.signal_dbm, None);
}

#[test]
fn the_channel() {
    let mut link = empty();
    parse_iw_info(INFO, &mut link);
    assert_eq!(link.ssid.as_deref(), Some("Other"));
    assert_eq!(link.channel, Some(64));
    assert_eq!(link.channel_width_mhz, Some(80));
    assert_eq!(link.freq_mhz, Some(5320));
    let mut known = empty();
    parse_iw_link(LINK, &readings(&[LINK]), &mut known);
    parse_iw_info("ssid x\nchannel y (1 MHz), width: z", &mut known);
    assert_eq!(known.ssid.as_deref(), Some("Home Net 5G"));
    assert_eq!(known.channel, None);
    assert_eq!(known.channel_width_mhz, None);
    assert_eq!(known.freq_mhz, Some(5320));
}

#[test]
fn the_station() {
    let mut link = empty();
    parse_iw_link(LINK, &readings(&[LINK]), &mut link);
    parse_station_dump(STATION, &readings(&[STATION]), &mut link);
    assert_eq!(link.signal_dbm, Some(-52));
    assert_eq!(link.connected_secs, Some(3661));
    assert_eq!(link.tx_bitrate_mbps.unwrap().shown, "650");
    // A line without a number takes the bitrate away.
    assert!(link.rx_bitrate_mbps.is_none());
}

#[test]
fn bitrates() {
    let table = readings(&["rx bitrate: 6.5 MBit/s"]);
    assert_eq!(parse_bitrate(&table, " 6.5 MBit/s").unwrap().token, "6.5");
    assert!(parse_bitrate(&table, "7.5").is_none());
    assert!(parse_bitrate(&table, "  ").is_none());
}

#[test]
fn the_whole_link() {
    let outputs = WifiOutputs {
        link: Some(LINK.to_owned()),
        info: Some(INFO.to_owned()),
        station: Some(STATION.to_owned()),
        addr: Some("3: wlan0    inet 192.168.1.7/24 brd 192.168.1.255 scope global".to_owned()),
        route: Some("default via 10.0.0.1 dev eth0\ndefault via 192.168.1.1 dev wlan0".to_owned()),
    };
    let link = collect_wifi("wlan0", &outputs, &readings(&[LINK, STATION]));
    assert_eq!(link.iface, "wlan0");
    assert_eq!(link.ip, Some(IpAddr::V4(192, 168, 1, 7)));
    assert_eq!(link.gateway, Some(IpAddr::V4(192, 168, 1, 1)));
    assert_eq!(link.channel, Some(64));
    assert_eq!(link.signal_dbm, Some(-52));
    // Without a route of its own the interface has any default gateway.
    let other = collect_wifi("wlan9", &outputs, &Vec::new());
    assert_eq!(other.gateway, Some(IpAddr::V4(10, 0, 0, 1)));
}

#[test]
fn addresses_and_gateways() {
    assert_eq!(primary_ipv4("1: lo inet 127.0.0.1/8\n2: x inet 10.0.0.1/8"), Some(IpAddr::V4(127, 0, 0, 1)));
    assert_eq!(primary_ipv4("1: lo inet x/8\n2: x inet 10.0.0.1/8"), None);
    assert_eq!(primary_ipv4("inet"), None);
    assert_eq!(default_gateway("default dev x\ndefault via 10.0.0.1", None), Some(IpAddr::V4(10, 0, 0, 1)));
    assert_eq!(default_gateway("default via nowhere\ndefault via 10.0.0.1", None), None);
    assert_eq!(default_gateway("10.0.0.0/8 via 10.0.0.1 dev x", None), None);
    assert_eq!(default_gateway("default via 10.0.0.1 dev x", Some("y")), None);
    assert_eq!(local_mac(&Some(" AA:BB\n".to_owned())).as_deref(), Some("aa:bb"));
    assert_eq!(local_mac(&None), None);
}

#[test]
fn choosing_an_interface() {
    let links: Result<String, String> = Ok(
        "lo UNKNOWN 00\nwlan0 DOWN aa\neth0 UP bb\nwlp2s0 UP cc\nwlx1@phy UP dd\nx\n".to_owned(),
    );
    let route = Some("default via 1.2.3.4 dev eth9 proto dhcp".to_owned());
    let none: Vec<String> = Vec::new();
    assert_eq!(detect_interface(Some("eth0"), true, &links, &none, &route).unwrap(), "eth0");
    assert_eq!(
        detect_interface(Some("eth0"), false, &links, &none, &route).unwrap_err(),
        "interface 'eth0' not found"
    );
    assert_eq!(detect_interface(None, false, &links, &none, &route).unwrap(), "wlp2s0");
    let listed = vec!["wlx1".to_owned()];
    assert_eq!(detect_interface(None, false, &links, &listed, &route).unwrap(), "wlx1");
    let down: Result<String, String> = Ok("wlan1 DOWN\nwlan0 DOWN".to_owned());
    assert_eq!(detect_interface(None, false, &down, &none, &route).unwrap(), "wlan1");
    let wired: Result<String, String> = Ok("eth0 UP".to_owned());
    assert_eq!(detect_interface(None, false, &wired, &none, &route).unwrap(), "eth9");
    assert_eq!(
        detect_interface(None, false, &wired, &none, &None).unwrap_err(),
        "no wireless interface found; pass --interface"
    );
    let failed: Result<String, String> = Err(command_error_of("ip", &None));
    assert_eq!(detect_interface(None, false, &failed, &none, &route).unwrap_err(), "running ip");
    assert_eq!(interface_names("a@b UP\nc\nd DOWN"), ["a", "d"]);
    assert!(is_wireless("wlan7", &none) && is_wireless("wlx1", &listed));
    assert!(!is_wireless("eth0", &listed));
    assert_eq!(command_error_of("iw", &Some("no\n".to_owned())), "iw failed: no\n");
}

#[test]
fn counters() {
    let t = read_traffic("wlan0", &Some("12\n".to_owned()), &Some(" 34 ".to_owned())).unwrap();
    assert_eq!((t.rx_bytes, t.tx_bytes), (12, 34));
    let max = u64::MAX.to_string();
    assert_eq!(read_traffic("w", &Some(max.clone()), &Some(max)).unwrap().tx_bytes, u64::MAX);
    assert_eq!(
        read_traffic("wlan0", &None, &None).unwrap_err(),
        "reading /sys/class/net/wlan0/statistics/rx_bytes"
    );
    assert_eq!(
        read_traffic("wlan0", &Some("1".to_owned()), &Some("-1".to_owned())).unwrap_err(),
        "parsing /sys/class/net/wlan0/statistics/tx_bytes"
    );
    let over = Some("18446744073709551616".to_owned());
    assert_eq!(
        read_traffic("w", &over, &None).unwrap_err(),
        "parsing /sys/class/net/w/statistics/rx_bytes"
    );
}

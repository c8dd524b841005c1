use mywifistats::addr::IpAddr;
use mywifistats::cli::{Cli, Commands, Mode};
use mywifistats::collect::{
    next_visit, preferred_interface, Collector, Findings, InterfaceFacts, RouterReport, Visit,
};
use mywifistats::config::{Config, Environment};
use mywifistats::model::{BlockedDevice, Device, DeviceSource, LinkKind, NetworkSnapshot};
use mywifistats::report::{doctor_report, once_text, print_once};
use mywifistats::router::RouterCaps;
use mywifistats::wifi::WifiOutputs;

fn no_environment() -> Environment {
    Environment { interface: None, router_url: None, router_user: None, router_enabled: None }
}

#[test]
fn default_settings() {
    let c = Config::load(None, &no_environment());
    assert_eq!(c.interface, None);
    assert!(c.router.enabled);
    assert_eq!(c.router.base_url, "http://192.168.1.1");
    assert_eq!(c.router.username, "admin");
    assert_eq!(c.router.backend, "zte_f670l");
    assert_eq!(c.router.password, None);
    assert_eq!(c.password_variable(), "MYWIFISTATS_ROUTER_PASSWORD");
    assert_eq!(c.router_password(&None), None);
    assert!(c.needs_setup_hint(&None));
    assert!(!c.needs_setup_hint(&Some("x".to_owned())));
}

#[test]
fn settings_of_the_environment() {
    let env = Environment {
        interface: Some("wlan3".to_owned()),
        router_url: Some("".to_owned()),
        router_user: Some("me".to_owned()),
        router_enabled: Some("YES".to_owned()),
    };
    let mut stored = Config::load(None, &no_environment());
    stored.router.enabled = false;
    stored.router.password = Some("p".to_owned());
    stored.router.password_env = Some("PW".to_owned());
    let c = Config::load(Some(stored), &env);
    assert_eq!(c.interface.as_deref(), Some("wlan3"));
    assert_eq!(c.router.base_url, "http://192.168.1.1");
    assert_eq!(c.router.username, "me");
    assert!(c.router.enabled);
    assert_eq!(c.password_variable(), "PW");
    assert_eq!(c.router_password(&Some("q".to_owned())).as_deref(), Some("q"));
    assert_eq!(c.router_password(&Some("".to_owned())).as_deref(), Some("p"));
    for (text, yes) in [("1", true), ("True", true), ("on", false), ("", false), ("0", false)] {
        let mut e = no_environment();
        e.router_enabled = Some(text.to_owned());
        assert_eq!(Config::load(None, &e).router.enabled, yes);
    }
}

fn cli() -> Cli {
    Cli { once: false, json: false, interval_ms: 1500, interface: None, no_router: false, command: None }
}

#[test]
fn modes() {
    let mut c = cli();
    assert!(matches!(c.mode("p", true), Mode::Dashboard { interval_ms: 1500 }));
    c.once = true;
    assert!(matches!(c.mode("p", true), Mode::Once { pause_ms: 800 }));
    c.json = true;
    assert!(matches!(c.mode("p", true), Mode::Json { pause_ms: 1500 }));
    c.interval_ms = 9000;
    assert!(matches!(c.mode("p", true), Mode::Json { pause_ms: 2000 }));
    c.command = Some(Commands::Doctor);
    assert!(matches!(c.mode("p", true), Mode::Doctor));
    c.command = Some(Commands::Setup);
    assert!(matches!(c.mode("p", true), Mode::Setup));
    c.command = Some(Commands::InitConfig { force: false });
    assert!(matches!(c.mode("p", false), Mode::WriteConfig));
    match c.mode("/x", true) {
        Mode::Refuse(m) => assert_eq!(
            m,
            "config already exists at /x (pass --force to overwrite, or run `mywifistats setup`)"
        ),
        _ => panic!("not refused"),
    }
    c.command = Some(Commands::InitConfig { force: true });
    assert!(matches!(c.mode("p", true), Mode::WriteConfig));
}

#[test]
fn options_override_settings() {
    let mut config = Config::load(None, &no_environment());
    config.interface = Some("a".to_owned());
    cli().override_config(&mut config);
    assert_eq!(config.interface.as_deref(), Some("a"));
    assert!(config.router.enabled);
    let mut c = cli();
    c.no_router = true;
    c.interface = Some("b".to_owned());
    c.override_config(&mut config);
    assert_eq!(config.interface.as_deref(), Some("b"));
    assert!(!config.router.enabled);
}

fn facts(exists: bool) -> InterfaceFacts {
    InterfaceFacts {
        exists,
        links: Ok("wlan0 UP".to_owned()),
        wireless: Vec::new(),
        route: None,
    }
}

fn collector(no_router: bool) -> Collector {
    let config = Config::load(None, &no_environment());
    match Collector::new(config, None, no_router, &facts(false)) {
        Ok(c) => c,
        Err(e) => panic!("{e}"),
    }
}

#[test]
fn making_a_collector() {
    let config = Config::load(None, &no_environment());
    assert_eq!(preferred_interface(&config, &Some("x".to_owned())).as_deref(), Some("x"));
    assert_eq!(preferred_interface(&config, &None), None);
    let c = collector(false);
    assert_eq!(c.interface(), "wlan0");
    assert!(c.config().router.enabled);
    match Collector::new(config, Some("nope".to_owned()), false, &facts(false)) {
        Ok(_) => panic!("no such interface"),
        Err(e) => assert_eq!(e, "interface 'nope' not found"),
    }
}

#[test]
fn opening_the_router_once() {
    let pw = Some("pw".to_owned());
    let mut c = collector(false);
    let o = c.ensure_router(&pw).unwrap();
    assert_eq!((o.base_url.as_str(), o.username.as_str(), o.password.as_str()), ("http://192.168.1.1", "admin", "pw"));
    assert!(c.ensure_router(&pw).is_none());
    let mut fresh = Config::load(None, &no_environment());
    fresh.interface = Some("eth1".to_owned());
    assert!(c.reconfigure(fresh.copy(), &facts(false)).is_err());
    assert_eq!(c.interface(), "wlan0");
    assert!(c.reconfigure(fresh, &facts(true)).is_ok());
    assert_eq!(c.interface(), "eth1");
    assert!(c.ensure_router(&pw).is_some());
    c.router_opened();
    assert!(c.ensure_router(&pw).is_none());
    assert!(collector(true).ensure_router(&pw).is_none());
    let mut without = collector(false);
    assert!(without.ensure_router(&None).is_none());
    assert!(without.ensure_router(&pw).is_none());
    let mut config = Config::load(None, &no_environment());
    config.router.backend = "other".to_owned();
    let mut unknown = Collector::new(config, None, false, &facts(false)).ok().unwrap();
    assert!(unknown.ensure_router(&pw).is_none());
}

#[test]
fn visits() {
    assert_eq!(next_visit(false, false, false, false, false), Visit::Login);
    assert_eq!(next_visit(false, true, false, false, true), Visit::Leave);
    assert_eq!(next_visit(true, true, false, false, true), Visit::ListDevices);
    assert_eq!(next_visit(true, false, false, false, false), Visit::ListDevices);
    assert_eq!(next_visit(true, false, true, false, true), Visit::ListBlocked);
    assert_eq!(next_visit(true, false, true, false, false), Visit::Leave);
    assert_eq!(next_visit(true, false, true, true, true), Visit::Leave);
    assert_eq!(next_visit(false, false, true, false, true), Visit::Leave);
    assert_eq!(next_visit(false, false, true, true, true), Visit::Leave);
}

#[test]
fn where_the_settings_are() {
    let path = |dir: &str| Config::config_path(&Some(dir.to_owned()));
    assert_eq!(Config::config_path(&None), "./mywifistats/config.toml");
    assert_eq!(path("/home/u/.config"), "/home/u/.config/mywifistats/config.toml");
    assert_eq!(path("/home/u/.config/"), "/home/u/.config/mywifistats/config.toml");
    assert_eq!(path("/"), "/mywifistats/config.toml");
    assert_eq!(path(""), "mywifistats/config.toml");
}

#[test]
fn a_router_without_a_block_list() {
    let mut c = collector(false);
    let s = c.survey(&findings("1", "1"), 0);
    let report = RouterReport {
        name: "R".to_owned(),
        login_error: None,
        devices: Some(Ok(vec![listed("phone", "00:11:22:33:44:55", None)])),
        blocked: None,
        caps: RouterCaps { can_block: false, ..caps() },
    };
    let snap = c.collect(s, Some(report), true, 0, 0);
    assert!(snap.errors.is_empty());
    assert!(snap.router.connected && !snap.router.can_block);
    assert!(snap.blocked.is_empty() && snap.devices.iter().all(|d| !d.blocked));
}

fn findings(rx: &str, tx: &str) -> Findings {
    Findings {
        wifi: WifiOutputs {
            link: Some("SSID: net".to_owned()),
            info: None,
            station: None,
            addr: Some("3: wlan0 inet 192.168.1.7/24".to_owned()),
            route: Some("default via 192.168.1.1 dev wlan0".to_owned()),
        },
        readings: Vec::new(),
        rx_file: Some(rx.to_owned()),
        tx_file: Some(tx.to_owned()),
        address_file: Some("AA:BB:CC:DD:EE:FF\n".to_owned()),
        neighbors: Ok("192.168.1.1 lladdr 34:24:3e:b3:91:b4 REACHABLE".to_owned()),
        hostname: Some("box".to_owned()),
    }
}

fn caps() -> RouterCaps {
    RouterCaps { per_host_traffic: false, can_block: true, message: "fine".to_owned() }
}

fn listed(name: &str, mac: &str, rx: Option<u64>) -> Device {
    Device {
        hostname: Some(name.to_owned()),
        ip: None,
        mac: Some(mac.to_owned()),
        vendor: None,
        link: LinkKind::Wifi,
        online: true,
        is_self: false,
        is_gateway: false,
        blocked: false,
        bytes_rx: rx,
        bytes_tx: rx,
        rate_rx_bps: None,
        rate_tx_bps: None,
        source: DeviceSource::Router,
    }
}

#[test]
fn a_snapshot() {
    let mut c = collector(false);
    let s = c.survey(&findings("100", "50"), 1_000_000_000);
    assert_eq!((s.rates.rx_bps, s.rates.tx_bps), (0, 0));
    let report = RouterReport {
        name: "R".to_owned(),
        login_error: None,
        devices: Some(Ok(vec![listed("phone", "00:11:22:33:44:55", Some(10))])),
        blocked: None,
        caps: caps(),
    };
    let snap = c.collect(s, Some(report), true, 77, 1_000_000_000);
    assert_eq!(snap.collected_at, 77);
    assert_eq!(snap.devices.len(), 3);
    assert_eq!(snap.devices[0].hostname.as_deref(), Some("box"));
    assert!(snap.devices[0].is_self);
    assert_eq!(snap.devices[0].bytes_rx, Some(100));
    assert!(snap.devices[1].is_gateway);
    assert_eq!(snap.devices[2].hostname.as_deref(), Some("phone"));
    assert_eq!(snap.devices[2].rate_rx_bps, None);
    assert!(snap.router.connected && snap.router.can_block);
    assert_eq!(snap.router.device_count, 1);
    assert_eq!(snap.router.message, "fine");
    assert!(snap.errors.is_empty());

    let s = c.survey(&findings("1100", "50"), 3_000_000_000);
    assert_eq!((s.rates.rx_bps, s.rates.tx_bps), (500, 0));
    let report = RouterReport {
        name: "R".to_owned(),
        login_error: None,
        devices: Some(Ok(vec![listed("phone", "00:11:22:33:44:55", Some(30))])),
        blocked: None,
        caps: caps(),
    };
    let snap = c.collect(s, Some(report), true, 79, 3_000_000_000);
    assert_eq!(snap.devices[0].rate_rx_bps, Some(500));
    assert_eq!(snap.devices[2].rate_rx_bps, Some(10));
}

fn rule(mac: &str) -> BlockedDevice {
    BlockedDevice {
        inst_id: "DEV.FW.CHAIN1.MACF1".to_owned(),
        name: "rule".to_owned(),
        mac: mac.to_owned(),
        protocol: None,
        filter_type: None,
    }
}

#[test]
fn blocked_devices_are_marked() {
    let mut c = collector(false);
    let s = c.survey(&findings("1", "1"), 0);
    let mut stale = listed("tablet", "00:11:22:33:44:66", None);
    stale.blocked = true;
    let mut nameless = listed("printer", "", None);
    nameless.mac = None;
    let report = RouterReport {
        name: "R".to_owned(),
        login_error: None,
        devices: Some(Ok(vec![listed("phone", "00:11:22:33:44:55", None), stale, nameless])),
        blocked: Some(Ok(vec![
            rule("00:11:22:33:44:55"),
            rule("34:24:3e:b3:91:b4"),
            rule("de:ad:be:ef:00:00"),
        ])),
        caps: RouterCaps { can_block: false, ..caps() },
    };
    let snap = c.collect(s, Some(report), true, 0, 0);
    let marks: Vec<(&str, bool)> =
        snap.devices.iter().map(|d| (d.hostname.as_deref().unwrap(), d.blocked)).collect();
    assert_eq!(
        marks,
        [("box", false), ("gateway", true), ("phone", true), ("printer", false), ("tablet", false)]
    );
    assert_eq!(snap.blocked.len(), 3);
    assert_eq!(snap.blocked[2].mac, "de:ad:be:ef:00:00");
    assert!(snap.router.can_block);
    assert!(snap.errors.is_empty());
}

#[test]
fn a_block_list_that_does_not_come() {
    let mut c = collector(false);
    let s = c.survey(&findings("1", "1"), 0);
    let report = RouterReport {
        name: "R".to_owned(),
        login_error: None,
        devices: Some(Ok(vec![listed("phone", "00:11:22:33:44:55", None)])),
        blocked: Some(Err("session timeout fetching MAC filter".to_owned())),
        caps: caps(),
    };
    let snap = c.collect(s, Some(report), true, 0, 0);
    assert_eq!(snap.errors, ["router block list: session timeout fetching MAC filter"]);
    assert!(snap.router.connected && !snap.router.can_block);
    assert_eq!(snap.router.message, "fine");
    assert!(snap.blocked.is_empty());
    assert!(snap.devices.iter().all(|d| !d.blocked));
}

#[test]
fn this_machine_comes_first_and_once() {
    let mut c = collector(false);
    let mut f = findings("100", "50");
    f.neighbors = Ok("192.168.1.1 lladdr 34:24:3e:b3:91:b4 REACHABLE\n\
                      192.168.1.9 lladdr aa:bb:cc:dd:ee:ff STALE"
        .to_owned());
    let s = c.survey(&f, 0);
    let report = RouterReport {
        name: "R".to_owned(),
        login_error: None,
        devices: Some(Ok(vec![listed("zed", "aa:bb:cc:dd:ee:ff", None)])),
        blocked: Some(Ok(vec![])),
        caps: caps(),
    };
    let snap = c.collect(s, Some(report), true, 0, 0);
    assert_eq!(snap.devices.len(), 2);
    assert_eq!(snap.devices[0].hostname.as_deref(), Some("zed"));
    assert!(snap.devices[0].is_self && !snap.devices[1].is_self);
    assert_eq!((snap.devices[0].bytes_rx, snap.devices[0].bytes_tx), (Some(100), Some(50)));
}

#[test]
fn what_goes_wrong_is_said() {
    let mut c = collector(false);
    let mut f = findings("x", "1");
    f.neighbors = Err("running ip neigh".to_owned());
    let s = c.survey(&f, 5);
    assert_eq!(
        s.errors,
        ["traffic: parsing /sys/class/net/wlan0/statistics/rx_bytes", "lan: running ip neigh"]
    );
    let report = RouterReport {
        name: "R".to_owned(),
        login_error: Some("bad".to_owned()),
        devices: None,
        blocked: None,
        caps: caps(),
    };
    let snap = c.collect(s, Some(report), true, 0, 5);
    assert_eq!(snap.errors.len(), 3);
    assert_eq!(snap.errors[2], "router login: bad");
    assert_eq!(snap.router.message, "login failed: bad");
    assert!(!snap.router.connected && snap.router.enabled);
    assert_eq!(snap.router.name.as_deref(), Some("R"));

    let s = c.survey(&findings("1", "1"), 6);
    let report = RouterReport {
        name: "R".to_owned(),
        login_error: None,
        devices: Some(Err("lost".to_owned())),
        blocked: Some(Err("gone".to_owned())),
        caps: caps(),
    };
    let snap = c.collect(s, Some(report), true, 0, 6);
    assert_eq!(snap.errors, ["router devices: lost", "router block list: gone"]);
    assert!(snap.blocked.is_empty());
    assert_eq!(snap.router.message, "device list failed: lost");

    let s = c.survey(&findings("1", "1"), 7);
    let report = RouterReport {
        name: "R".to_owned(),
        login_error: None,
        devices: None,
        blocked: None,
        caps: caps(),
    };
    assert_eq!(c.collect(s, Some(report), true, 0, 7).router.message, "fine");
}

#[test]
fn a_router_that_is_not_asked() {
    let mut c = collector(false);
    let s = c.survey(&findings("1", "1"), 0);
    let snap = c.collect(s, None, false, 0, 0);
    assert_eq!(snap.router.message, "no password (set MYWIFISTATS_ROUTER_PASSWORD or config)");
    assert_eq!(snap.router.name.as_deref(), Some("ZTE F670L"));
    let s = c.survey(&findings("1", "1"), 0);
    assert_eq!(c.collect(s, None, true, 0, 0).router.message, "connecting…");
    let mut off = collector(true);
    let s = off.survey(&findings("1", "1"), 0);
    let snap = off.collect(s, None, true, 0, 0);
    assert_eq!(snap.router.message, "disabled (--no-router)");
    assert!(!snap.router.enabled);
    let mut config = Config::load(None, &no_environment());
    config.router.enabled = false;
    let mut c = Collector::new(config, None, false, &facts(false)).ok().unwrap();
    let s = c.survey(&findings("1", "1"), 0);
    assert_eq!(c.collect(s, None, true, 0, 0).router.message, "disabled in config");
}

fn sample() -> NetworkSnapshot {
    let mut c = collector(false);
    let s = c.survey(&findings("2048", "1"), 0);
    c.collect(s, None, false, 0, 0)
}

#[test]
fn the_diagnosis() {
    let mut snap = sample();
    let text = doctor_report("wlan0", &snap, "/c", true);
    assert_eq!(
        text,
        "Interface: wlan0 \n  SSID: net\n  BSSID: -\n\
         \u{20} Signal: -  Channel: -  Width: - MHz  Freq: - MHz\n\
         \u{20} Bitrate RX/TX: - / - MBit/s\n\
         \u{20} IP: 192.168.1.7  Gateway: 192.168.1.1\n\
         Local traffic: ↓ 2.0 KiB  ↑ 1 B\n\
         Devices discovered: 2 (LAN+router merge)\n\
         Router: enabled=true  connected=false  name=ZTE F670L  per-host-traffic=false\n\
         \u{20} no password (set MYWIFISTATS_ROUTER_PASSWORD or config)\n\
         Config: /c\n\
         Hint: run `mywifistats setup` or press c in the TUI to add router password."
    );
    let c = collector(false);
    assert_eq!(c.doctor_report(&snap, "/c", &None), text);
    let known = c.doctor_report(&snap, "/c", &Some("pw".to_owned()));
    assert!(known.ends_with("\nConfig: /c"));
    snap.wifi = None;
    snap.errors = vec!["e1".to_owned(), "e2".to_owned()];
    let text = doctor_report("wlan0", &snap, "/c", false);
    assert!(text.contains("\n  (no wifi link info)\nLocal"));
    assert!(text.ends_with("\nErrors:\n  - e1\n  - e2\nConfig: /c"));
}

#[test]
fn a_printed_snapshot() {
    let mut snap = sample();
    snap.wifi.as_mut().unwrap().signal_dbm = Some(-40);
    snap.wifi.as_mut().unwrap().connected_secs = Some(61);
    let text = once_text(&snap, "TABLE");
    assert_eq!(
        text,
        "=== WiFi ===\nSSID: net  iface: wlan0  signal: -40 dBm\n\
         Channel: -  Width: - MHz  Freq: - MHz\n\
         Bitrate RX/TX: - / - MBit/s  BSSID: -\n\
         IP: 192.168.1.7  Gateway: 192.168.1.1  Connected: 1m01s\n\
         Local traffic live ↓0 B/s ↑0 B/s  total ↓2.0 KiB ↑1 B\n\
         \n=== Router: no password (set MYWIFISTATS_ROUTER_PASSWORD or config) ===\n\nTABLE"
    );
    snap.wifi = None;
    snap.errors = vec!["e".to_owned()];
    assert!(once_text(&snap, "T").starts_with("=== WiFi ===\n(no link)\nLocal"));
    assert!(once_text(&snap, "T").ends_with("\nT\n\nWarnings:\n  - e"));
    let full = print_once(&snap);
    let mut table = comfy_table::Table::new();
    table.set_header(vec![
        "#", "Hostname", "IP", "MAC", "Vendor", "Link", "State", "↓ Data", "↑ Data", "↓ Rate",
        "↑ Rate",
    ]);
    let wifi = LinkKind::Wifi.as_str();
    table.add_row(vec![
        "1", "box *", "192.168.1.7", "aa:bb:cc:dd:ee:ff", "-", wifi, "online", "2.0 KiB", "1 B",
        "0 B/s", "0 B/s",
    ]);
    let gateway_mac = "34:24:3e:b3:91:b4";
    let vendor = mywifistats::oui::lookup_vendor(gateway_mac).unwrap_or("-");
    let gateway_link = snap.devices[1].link.as_str();
    table.add_row(vec![
        "2", "gateway", "192.168.1.1", gateway_mac, vendor, gateway_link, "online", "-", "-", "-",
        "-",
    ]);
    assert_eq!(full, once_text(&snap, &table.to_string()));
    assert_eq!(snap.devices[1].ip, Some(IpAddr::V4(192, 168, 1, 1)));
}

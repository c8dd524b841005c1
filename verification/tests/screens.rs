use mywifistats::config::{Config, Environment};
use mywifistats::dashboard;
use mywifistats::dashboard::{
    devices_title_of, draw_devices, draw_footer, draw_help, draw_router_strip, draw_traffic_card,
    draw_wifi_card, is_due, signal_bars, tick_ms, wait_ns, Dashboard,
};
use mywifistats::keys::Key;
use mywifistats::model::{
    Device, DeviceSource, LinkKind, NetworkSnapshot, SortKey, TrafficRates,
};
use mywifistats::setup;
use mywifistats::setup::{draw_setup, fields_of, Field, SetupState, TestOutcome};
use mywifistats::view::{Span, Tint};
use mywifistats::wifi::{collect_wifi, WifiOutputs};

fn plain(line: &[Span]) -> String {
    line.iter().map(|s| s.text.as_str()).collect()
}

#[test]
fn dashboard_keys() {
    let mut d = Dashboard::new();
    assert_eq!(d.press(Key::Char('r'), 3), dashboard::Action::Refresh);
    assert_eq!(d.press(Key::Char('c'), 3), dashboard::Action::Setup);
    assert_eq!(d.press(Key::Char('s'), 3), dashboard::Action::Sort);
    assert_eq!(d.sort, SortKey::Ip);
    for expected in [1, 2, 2] {
        d.press(Key::Down, 3);
        assert_eq!(d.selected, Some(expected));
    }
    for expected in [1, 0, 0] {
        d.press(Key::Char('k'), 3);
        assert_eq!(d.selected, Some(expected));
    }
    d.selected = None;
    d.press(Key::Char('j'), 5);
    assert_eq!(d.selected, Some(1));
    d.press(Key::Char('j'), 0);
    assert_eq!(d.selected, Some(0));
    d.press(Key::Char('?'), 0);
    assert!(d.show_help);
    assert_eq!(d.press(Key::Char('q'), 0), dashboard::Action::Nothing);
    assert!(!d.show_help);
    assert_eq!(d.press(Key::Tab, 0), dashboard::Action::Nothing);
    assert_eq!(d.press(Key::Esc, 0), dashboard::Action::Quit);
}

#[test]
fn times() {
    assert_eq!(tick_ms(0), 500);
    assert_eq!(tick_ms(501), 501);
    assert!(!is_due(10, 9));
    assert!(is_due(10, 10) && is_due(10, 11));
    assert_eq!(wait_ns(10, 3), 7);
    assert_eq!(wait_ns(10, 10), 0);
    assert_eq!(wait_ns(10, 11), 50_000_000);
}

#[test]
fn bars() {
    assert_eq!(signal_bars(None), ("····", Tint::DarkGray));
    assert_eq!(signal_bars(Some(-50)), ("████", Tint::Green));
    assert_eq!(signal_bars(Some(-51)), ("███·", Tint::Green));
    assert_eq!(signal_bars(Some(-70)), ("██··", Tint::Yellow));
    assert_eq!(signal_bars(Some(-80)), ("█···", Tint::Red));
    assert_eq!(signal_bars(Some(-81)), ("····", Tint::Red));
}

fn link_outputs() -> WifiOutputs {
    WifiOutputs {
        link: Some("Connected to aa:bb:cc:dd:ee:ff (on w)\nsignal: -60 dBm".to_owned()),
        info: Some("channel 6 (2437 MHz), width: 20 MHz".to_owned()),
        station: Some("connected time: 59 seconds".to_owned()),
        addr: None,
        route: Some("default via 10.0.0.1 dev w".to_owned()),
    }
}

#[test]
fn the_card_of_the_link() {
    let w = Some(collect_wifi("w", &link_outputs(), &Vec::new()));
    let lines = draw_wifi_card(&w);
    let texts: Vec<String> = lines.iter().map(|l| plain(l)).collect();
    assert_eq!(
        texts,
        [
            "  SSID     (disconnected)",
            "  Signal   ███· -60 dBm  ·  w",
            "  Channel  6 · 20 MHz · 2437 MHz",
            "  Bitrate  ↓ -  ↑ - Mbit/s",
            "  Address  -  →  10.0.0.1",
            "  BSSID    aa:bb:cc:dd:ee:ff  ·  up 59s",
        ]
    );
    assert_eq!(lines[0][1].style.fg, Tint::Cyan);
    let none = draw_wifi_card(&None);
    assert_eq!(plain(&none[0]), "  No WiFi link info");
    assert_eq!(none[0][0].style.fg, Tint::Red);
    let mut narrow = collect_wifi("w", &link_outputs(), &Vec::new());
    narrow.freq_mhz = None;
    assert_eq!(plain(&draw_wifi_card(&Some(narrow))[2]), "  Channel  6 · 20 MHz");
    let mut odd = collect_wifi("w", &link_outputs(), &Vec::new());
    odd.channel_width_mhz = None;
    assert_eq!(plain(&draw_wifi_card(&Some(odd))[2]), "  Channel  6");
    let mut unknown = collect_wifi("w", &link_outputs(), &Vec::new());
    unknown.channel = None;
    assert_eq!(plain(&draw_wifi_card(&Some(unknown))[2]), "  Channel  n/a");
}

#[test]
fn the_card_of_the_traffic() {
    let mut s = NetworkSnapshot::empty(0);
    s.local_rates = TrafficRates { rx_bps: 1024, tx_bps: 3 };
    s.local_traffic.tx_bytes = 7;
    let texts: Vec<String> = draw_traffic_card(&s).iter().map(|l| plain(l)).collect();
    assert_eq!(
        texts,
        [
            "",
            "  Live      ↓ 1.0 KiB/s",
            "            ↑ 3 B/s",
            "",
            "  Total     ↓ 0 B",
            "            ↑ 7 B",
        ]
    );
}

#[test]
fn the_strip_of_the_router() {
    let mut s = NetworkSnapshot::empty(0);
    assert_eq!(plain(&draw_router_strip(&s)), " Router   OFF   none  ·  ");
    s.router.enabled = true;
    s.router.message = "not connected".to_owned();
    assert_eq!(
        plain(&draw_router_strip(&s)),
        " Router   SETUP   none  ·  not connected  →  press c for setup"
    );
    s.router.message = "login failed: x".to_owned();
    s.errors = vec!["first".to_owned(), "second".to_owned()];
    assert_eq!(
        plain(&draw_router_strip(&s)),
        " Router   ERROR   none  ·  login failed: x  →  press c for setup  ! first"
    );
    s.router.connected = true;
    s.router.device_count = 4;
    s.router.name = Some("Z".to_owned());
    s.errors.clear();
    assert_eq!(
        plain(&draw_router_strip(&s)),
        " Router   ONLINE   Z  ·  login failed: x  ·  4 clients"
    );
}

fn device(name: Option<&str>) -> Device {
    Device {
        hostname: name.map(|s| s.to_owned()),
        ip: None,
        mac: None,
        vendor: None,
        link: LinkKind::Unknown,
        online: false,
        is_self: false,
        is_gateway: false,
        blocked: false,
        bytes_rx: None,
        bytes_tx: Some(5),
        rate_rx_bps: None,
        rate_tx_bps: Some(6),
        source: DeviceSource::Lan,
    }
}

#[test]
fn the_table_of_devices() {
    let mut v = vec![device(Some("a")), device(None), device(Some("c"))];
    v[0].is_self = true;
    v[1].is_gateway = true;
    v[2].online = true;
    let rows = draw_devices(&v);
    let unknown = LinkKind::Unknown.as_str();
    assert_eq!(rows[0].cells, ["1", "★ a", "—", "—", "—", unknown, "stale", "—", "5 B", "—", "6 B/s"]);
    assert_eq!(rows[1].cells[1], "⌂ —");
    assert_eq!(rows[2].cells[1], "c");
    assert_eq!(rows[2].cells[6], "online");
    assert_eq!(rows[0].style.fg, Tint::Cyan);
    assert_eq!(rows[1].style.fg, Tint::DarkGray);
    assert_eq!(rows[2].style.fg, Tint::Green);
    assert_eq!(rows[2].state_style.fg, Tint::Green);
    assert_eq!(devices_title_of(3, SortKey::Mac), " Devices (3)  ·  sort: mac ");
}

#[test]
fn the_footer_and_the_help() {
    assert_eq!(
        plain(&draw_footer(2, SortKey::Usage)),
        " q  quit   r  refresh   s  sort   c  setup   ↑↓  move   ?  help  · sort=usage · 2 device(s)"
    );
    let help = draw_help("/c");
    assert_eq!(help.len(), 20);
    assert_eq!(plain(&help[0]), "mywifistats help");
    assert_eq!(plain(&help[17]), "  Config: /c");
}

fn config() -> Config {
    Config::load(
        None,
        &Environment { interface: None, router_url: None, router_user: None, router_enabled: None },
    )
}

fn state() -> SetupState {
    SetupState::from_config(&config(), &None, &Ok("wlan0".to_owned()))
}

#[test]
fn fields_in_a_circle() {
    let all = fields_of();
    assert_eq!(all.len(), 6);
    for i in 0..6 {
        assert_eq!(all[i].next(), all[(i + 1) % 6]);
        assert_eq!(all[(i + 1) % 6].prev(), all[i]);
        assert_eq!(all[i].is_text(), i != 1);
    }
    assert_eq!(Field::BaseUrl.label(), "Router URL");
    assert_eq!(Field::BaseUrl.help(), "Usually http://192.168.1.1");
}

#[test]
fn opening_the_setup() {
    let s = state();
    assert_eq!(s.status, "Detected interface: wlan0 · Tab fields · Enter edit · s save");
    assert!(!s.password_was_set);
    assert_eq!(s.field_value(Field::Interface), "(auto)");
    assert_eq!(s.field_value(Field::Password), "(empty)");
    let e = SetupState::from_config(&config(), &Some("x".to_owned()), &Err("no".to_owned()));
    assert_eq!(e.status, "Password currently set via environment variable.");
    assert_eq!(e.field_value(Field::Password), "(set — enter to change)");
    let mut c = config();
    c.router.password = Some("abc".to_owned());
    c.router.base_url = String::new();
    c.router.username = String::new();
    c.router.backend = String::new();
    let p = SetupState::from_config(&c, &None, &Err("no".to_owned()));
    assert_eq!(p.status, "Detected interface: wlan0 · Tab fields · Enter edit · s save");
    assert_eq!(p.field_value(Field::Password), "••••");
    assert_eq!(p.field_value(Field::BaseUrl), "http://192.168.1.1");
    assert_eq!(p.field_value(Field::Username), "admin");
    assert_eq!(p.field_value(Field::Backend), "zte_f670l");
    assert_eq!(p.field_value(Field::RouterEnabled), "Yes");
}

fn type_text(s: &mut SetupState, text: &str) {
    for c in text.chars() {
        s.press(Key::Char(c));
    }
}

#[test]
fn editing_fields() {
    let mut s = state();
    s.press(Key::Enter);
    assert!(s.editing);
    assert_eq!(s.status, "Editing Interface — Enter confirm · Esc cancel");
    type_text(&mut s, "qx");
    s.press(Key::Backspace);
    type_text(&mut s, "w");
    assert_eq!(s.interface, "qw");
    assert_eq!(s.press(Key::Enter), setup::Action::Nothing);
    assert_eq!(s.status, "Interface updated");
    s.press(Key::Tab);
    assert_eq!(s.focus, Field::RouterEnabled);
    s.press(Key::Char(' '));
    assert!(!s.router_enabled);
    s.press(Key::Enter);
    assert!(s.router_enabled && !s.editing);
    s.press(Key::Up);
    assert_eq!(s.focus, Field::Interface);
    s.press(Key::BackTab);
    assert_eq!(s.focus, Field::Backend);
    s.press(Key::Char('k'));
    assert_eq!(s.focus, Field::Password);
    s.press(Key::Enter);
    s.press(Key::Backspace);
    type_text(&mut s, "1234567890123456789012345678");
    assert_eq!(s.field_value(Field::Password), "1234567890123456789012345678");
    s.press(Key::Esc);
    assert_eq!(s.status, "Edit cancelled");
    assert!(!s.password_was_set);
    assert_eq!(s.field_value(Field::Password), "••••••••••••••••••••••••");
    s.press(Key::Enter);
    s.press(Key::Enter);
    assert!(s.password_was_set);
    assert_eq!(s.press(Key::Char('T')), setup::Action::Test);
    assert_eq!(s.press(Key::Char('s')), setup::Action::Save);
    assert_eq!(s.press(Key::Char('W')), setup::Action::SaveAndQuit);
    assert_eq!(s.press(Key::Char('q')), setup::Action::Quit { saved: false });
    s.written("/c");
    assert_eq!(s.press(Key::Esc), setup::Action::Quit { saved: true });
}

#[test]
fn the_settings_of_the_form() {
    let mut s = state();
    s.interface = " wlan1 ".to_owned();
    s.backend = " ".to_owned();
    s.username = " me".to_owned();
    let mut stored = config();
    stored.router.password = Some("kept".to_owned());
    stored.router.password_env = Some("X".to_owned());
    let c = s.to_config(&Some(stored));
    assert_eq!(c.interface.as_deref(), Some("wlan1"));
    assert_eq!(c.router.username, "me");
    assert_eq!(c.router.backend, "zte_f670l");
    assert_eq!(c.router.password.as_deref(), Some("kept"));
    assert_eq!(c.router.password_env, None);
    assert_eq!(s.to_config(&None).router.password, None);
    s.password = "new".to_owned();
    assert_eq!(s.to_config(&None).router.password.as_deref(), Some("new"));
}

#[test]
fn testing_the_connection() {
    let mut s = state();
    s.router_enabled = false;
    assert!(s.test_connection(&None, &None).is_none());
    assert_eq!(s.status, "Router disabled — enable it to test.");
    s.router_enabled = true;
    assert!(s.test_connection(&None, &None).is_none());
    assert_eq!(s.status, "No password set — enter password first.");
    assert!(!s.status_ok);
    let o = s.test_connection(&None, &Some("pw".to_owned())).unwrap();
    assert_eq!(o.password, "pw");
    assert_eq!(s.status, "Testing login…");
    assert!(s.status_ok);
    s.tested(&TestOutcome::NoClient("a".to_owned()));
    assert_eq!(s.status, "Client error: a");
    s.tested(&TestOutcome::NoLogin("b".to_owned()));
    assert_eq!(s.status, "Login failed: b");
    s.tested(&TestOutcome::NoDevices("c".to_owned()));
    assert_eq!(s.status, "Login OK but device list failed: c");
    assert!(!s.status_ok);
    s.tested(&TestOutcome::Listed { devices: 3, per_host_traffic: false });
    assert_eq!(s.status, "OK — ZTE F670L · 3 device(s) · device list only (no per-host traffic)");
    s.tested(&TestOutcome::Listed { devices: 0, per_host_traffic: true });
    assert_eq!(s.status, "OK — ZTE F670L · 0 device(s) · per-host traffic available");
    assert!(s.status_ok);
}

#[test]
fn saving() {
    let mut s = state();
    assert_eq!(s.interface_path(), None);
    assert!(s.save(&None, false).is_ok());
    s.interface = "wlan9".to_owned();
    assert_eq!(s.interface_path().as_deref(), Some("/sys/class/net/wlan9"));
    assert_eq!(s.save(&None, false).err().as_deref(), Some("interface not found"));
    assert_eq!(s.status, "Interface 'wlan9' not found");
    s.save_failed("interface not found", false);
    assert_eq!(s.status, "Interface 'wlan9' not found");
    s.save_failed("interface not found", true);
    assert_eq!(s.status, "Save failed: interface not found");
    s.status = "x".to_owned();
    s.save_failed("disk", false);
    assert_eq!(s.status, "Save failed: disk");
    assert!(s.save(&None, true).is_ok());
    s.password = "p".to_owned();
    s.written("/c");
    assert_eq!(s.status, "Saved /c");
    assert!(s.saved && s.status_ok && s.password_was_set);
}

#[test]
fn the_form() {
    let mut s = state();
    s.password = "hunter".to_owned();
    let screen = draw_setup(&s, "/c");
    let fields: Vec<String> = screen.fields.iter().map(|l| plain(l)).collect();
    assert_eq!(
        fields,
        [
            "› Interface        (auto) ",
            "  Router enabled   ● Yes ",
            "  Router URL       http://192.168.1.1 ",
            "  Username         admin ",
            "  Password         •••••• ",
            "  Backend          zte_f670l ",
        ]
    );
    assert_eq!(plain(&screen.intro[1]), "Config file: /c");
    assert_eq!(plain(&screen.help), "  Wireless interface (empty = auto-detect)");
    assert!(plain(&screen.status).starts_with(" Status   Detected interface"));
    assert_eq!(screen.status[0].style.bg, Tint::Green);
    assert_eq!(plain(&screen.actions[0]), " t  Test login    s  Save    w  Save & quit    q  Quit");
    s.press(Key::Enter);
    type_text(&mut s, "w");
    assert_eq!(plain(&draw_setup(&s, "/c").fields[0]), "▸ Interface        w█ ");
    s.router_enabled = false;
    assert_eq!(plain(&draw_setup(&s, "/c").fields[1]), "  Router enabled   ○ No  ");
}

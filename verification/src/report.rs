//! Snapshots as plain text.

use crate::addr;
use crate::addr::IpAddr;
use crate::model;
use crate::model::{Device, LinkKind, NetworkSnapshot, Reading, WifiLink};
use crate::number;
use crate::text;
use vstd::prelude::*;

verus! {

// ---------------------------------------------------------------------------------------------
// Values that may be missing

/// A number, or `other`.
pub open spec fn number_or(o: Option<u32>, other: Seq<char>) -> Seq<char> {
    match o {
        Some(n) => number::decimal(n as nat),
        None => other,
    }
}

/// An address, or `other`.
pub open spec fn ip_or(o: Option<IpAddr>, other: Seq<char>) -> Seq<char> {
    match o {
        Some(a) => addr::ip_text(a),
        None => other,
    }
}

/// The strength of a signal, or `other`.
pub open spec fn signal_or(o: Option<i32>, other: Seq<char>) -> Seq<char> {
    match o {
        Some(s) => number::signed_decimal(s as int) + " dBm"@,
        None => other,
    }
}

/// A bitrate without its fraction, or `other`.
pub open spec fn bitrate_or(o: Option<model::ReadingView>, other: Seq<char>) -> Seq<char> {
    match o {
        Some(r) => r.shown,
        None => other,
    }
}

/// A duration, or `other`.
pub open spec fn duration_or(o: Option<u64>, other: Seq<char>) -> Seq<char> {
    match o {
        Some(n) => model::duration_text(n as nat),
        None => other,
    }
}

/// A number of bytes, or `other`.
pub open spec fn bytes_or(o: Option<u64>, other: Seq<char>) -> Seq<char> {
    match o {
        Some(n) => model::bytes_text(n as nat),
        None => other,
    }
}

/// A rate, or `other`.
pub open spec fn bps_or(o: Option<u64>, other: Seq<char>) -> Seq<char> {
    match o {
        Some(n) => model::bps_text(n as nat),
        None => other,
    }
}

/// `true` or `false`.
pub open spec fn bool_text(b: bool) -> Seq<char> {
    if b {
        "true"@
    } else {
        "false"@
    }
}

/// A number, or `other`.
pub fn number_or_of(o: Option<u32>, other: &str) -> (r: String)
    ensures
        r@ == number_or(o, other@),
{
    match o {
        Some(n) => number::decimal_of(n as u64),
        None => other.to_owned(),
    }
}

/// An address, or `other`.
pub fn ip_or_of(o: Option<IpAddr>, other: &str) -> (r: String)
    ensures
        r@ == ip_or(o, other@),
{
    match o {
        Some(a) => addr::ip_string(a),
        None => other.to_owned(),
    }
}

/// The strength of a signal, or `other`.
pub fn signal_or_of(o: Option<i32>, other: &str) -> (r: String)
    ensures
        r@ == signal_or(o, other@),
{
    match o {
        Some(s) => text::join2(number::signed_decimal_of(s).as_str(), " dBm"),
        None => other.to_owned(),
    }
}

/// A bitrate without its fraction, or `other`.
pub fn bitrate_or_of(o: &Option<Reading>, other: &str) -> (r: String)
    ensures
        r@ == bitrate_or(model::opt_reading(*o), other@),
{
    match o {
        Some(b) => b.shown.clone(),
        None => other.to_owned(),
    }
}

/// A duration, or `other`.
pub fn duration_or_of(o: Option<u64>, other: &str) -> (r: String)
    ensures
        r@ == duration_or(o, other@),
{
    match o {
        Some(n) => model::format_duration(n),
        None => other.to_owned(),
    }
}

/// A number of bytes, or `other`.
pub fn bytes_or_of(o: Option<u64>, other: &str) -> (r: String)
    ensures
        r@ == bytes_or(o, other@),
{
    match o {
        Some(n) => model::format_bytes(n),
        None => other.to_owned(),
    }
}

/// A rate, or `other`.
pub fn bps_or_of(o: Option<u64>, other: &str) -> (r: String)
    ensures
        r@ == bps_or(o, other@),
{
    match o {
        Some(n) => model::format_bps(n),
        None => other.to_owned(),
    }
}

fn bool_string(b: bool) -> (r: &'static str)
    ensures
        r@ == bool_text(b),
{
    if b {
        "true"
    } else {
        "false"
    }
}

// ---------------------------------------------------------------------------------------------
// The diagnosis

/// The lines of the diagnosis on the link.
pub open spec fn doctor_link(wifi: Option<model::WifiLinkView>) -> Seq<Seq<char>> {
    match wifi {
        None => seq!["  (no wifi link info)"@],
        Some(w) => {
            let lines = seq![
                "  SSID: "@ + text::given_or(w.ssid, "(not associated)"@),
                "  BSSID: "@ + text::given_or(w.bssid, "-"@),
                "  Signal: "@ + signal_or(w.signal_dbm, "-"@) + "  Channel: "@ + number_or(
                    w.channel,
                    "-"@,
                ) + "  Width: "@ + number_or(w.channel_width_mhz, "-"@) + " MHz  Freq: "@
                    + number_or(w.freq_mhz, "-"@) + " MHz"@,
                "  Bitrate RX/TX: "@ + bitrate_or(w.rx_bitrate_mbps, "-"@) + " / "@ + bitrate_or(
                    w.tx_bitrate_mbps,
                    "-"@,
                ) + " MBit/s"@,
                "  IP: "@ + ip_or(w.ip, "-"@) + "  Gateway: "@ + ip_or(w.gateway, "-"@),
            ];
            match w.connected_secs {
                Some(secs) => lines.push("  Connected: "@ + model::duration_text(secs as nat)),
                None => lines,
            }
        },
    }
}

/// The lines of the diagnosis on what was collected.
pub open spec fn doctor_totals(s: model::NetworkSnapshotView) -> Seq<Seq<char>> {
    seq![
        "Local traffic: ↓ "@ + model::bytes_text(s.local_traffic.rx_bytes as nat) + "  ↑ "@
            + model::bytes_text(s.local_traffic.tx_bytes as nat),
        "Devices discovered: "@ + number::decimal(s.devices.len()) + " (LAN+router merge)"@,
        "Router: enabled="@ + bool_text(s.router.enabled) + "  connected="@ + bool_text(
            s.router.connected,
        ) + "  name="@ + text::given_or(s.router.name, "-"@) + "  per-host-traffic="@ + bool_text(
            s.router.per_host_traffic,
        ),
        "  "@ + s.router.message,
    ]
}

/// The messages as an indented list.
pub open spec fn bullets(errors: Seq<Seq<char>>) -> Seq<Seq<char>> {
    errors.map_values(|e: Seq<char>| "  - "@ + e)
}

/// The lines of the diagnosis on errors.
pub open spec fn doctor_errors(errors: Seq<Seq<char>>) -> Seq<Seq<char>> {
    if errors.len() == 0 {
        seq![]
    } else {
        seq!["Errors:"@] + bullets(errors)
    }
}

/// The last lines of the diagnosis.
pub open spec fn doctor_end(config_path: Seq<char>, hint: bool) -> Seq<Seq<char>> {
    let path = seq!["Config: "@ + config_path];
    if hint {
        path.push(
            "Hint: run `mywifistats setup` or press c in the TUI to add router password."@,
        )
    } else {
        path
    }
}

/// The lines of the diagnosis.
pub open spec fn doctor_lines(
    iface: Seq<char>,
    s: model::NetworkSnapshotView,
    config_path: Seq<char>,
    hint: bool,
) -> Seq<Seq<char>> {
    seq!["Interface: "@ + iface + " "@] + doctor_link(s.wifi) + doctor_totals(s) + doctor_errors(
        s.errors,
    ) + doctor_end(config_path, hint)
}

fn doctor_link_of(wifi: &Option<WifiLink>) -> (lines: Vec<String>)
    ensures
        text::texts(lines@) == doctor_link(model::opt_link(*wifi)),
{
    match wifi {
        None => {
            let lines: Vec<String> = vec!["  (no wifi link info)".to_owned()];
            assert(text::texts(lines@) =~= seq!["  (no wifi link info)"@]);
            lines
        },
        Some(w) => {
            let mut lines: Vec<String> = vec![
                text::join2("  SSID: ", text::text_or(&w.ssid, "(not associated)").as_str()),
                text::join2("  BSSID: ", text::text_or(&w.bssid, "-").as_str()),
                "  Signal: ".to_owned().concat(signal_or_of(w.signal_dbm, "-").as_str()).concat(
                    "  Channel: ",
                ).concat(number_or_of(w.channel, "-").as_str()).concat("  Width: ").concat(
                    number_or_of(w.channel_width_mhz, "-").as_str(),
                ).concat(" MHz  Freq: ").concat(number_or_of(w.freq_mhz, "-").as_str()).concat(
                    " MHz",
                ),
                "  Bitrate RX/TX: ".to_owned().concat(
                    bitrate_or_of(&w.rx_bitrate_mbps, "-").as_str(),
                ).concat(" / ").concat(bitrate_or_of(&w.tx_bitrate_mbps, "-").as_str()).concat(
                    " MBit/s",
                ),
                "  IP: ".to_owned().concat(ip_or_of(w.ip, "-").as_str()).concat(
                    "  Gateway: ",
                ).concat(ip_or_of(w.gateway, "-").as_str()),
            ];
            if let Some(secs) = w.connected_secs {
                lines.push(text::join2("  Connected: ", model::format_duration(secs).as_str()));
            }
            assert(text::texts(lines@) =~= doctor_link(model::opt_link(*wifi)));
            lines
        },
    }
}

fn doctor_totals_of(s: &NetworkSnapshot) -> (lines: Vec<String>)
    ensures
        text::texts(lines@) == doctor_totals(s@),
{
    assert(s@.devices.len() == s.devices@.len());
    let lines: Vec<String> = vec![
        "Local traffic: ↓ ".to_owned().concat(
            model::format_bytes(s.local_traffic.rx_bytes).as_str(),
        ).concat("  ↑ ").concat(model::format_bytes(s.local_traffic.tx_bytes).as_str()),
        text::join3(
            "Devices discovered: ",
            number::decimal_of(s.devices.len() as u64).as_str(),
            " (LAN+router merge)",
        ),
        "Router: enabled=".to_owned().concat(bool_string(s.router.enabled)).concat(
            "  connected=",
        ).concat(bool_string(s.router.connected)).concat("  name=").concat(
            text::text_or(&s.router.name, "-").as_str(),
        ).concat("  per-host-traffic=").concat(bool_string(s.router.per_host_traffic)),
        text::join2("  ", s.router.message.as_str()),
    ];
    assert(text::texts(lines@) =~= doctor_totals(s@));
    lines
}

fn bullets_of(errors: &Vec<String>) -> (lines: Vec<String>)
    ensures
        text::texts(lines@) == bullets(text::texts(errors@)),
{
    let mut lines: Vec<String> = Vec::new();
    let mut i: usize = 0;
    while i < errors.len()
        invariant
            i <= errors@.len(),
            lines@.len() == i,
            forall|k: int| 0 <= k < i ==> (#[trigger] lines@[k])@ == "  - "@ + errors@[k]@,
        decreases errors@.len() - i,
    {
        lines.push(text::join2("  - ", errors[i].as_str()));
        i = i + 1;
    }
    assert(text::texts(lines@) =~= bullets(text::texts(errors@)));
    lines
}

/// Appends lines to a text of several lines.
fn append_lines(lines: &mut Vec<String>, more: Vec<String>)
    ensures
        text::texts(final(lines)@) == text::texts(old(lines)@) + text::texts(more@),
{
    let ghost before = lines@;
    let ghost added = more@;
    let mut more: Vec<String> = more;
    lines.append(&mut more);
    assert(text::texts(lines@) =~= text::texts(before) + text::texts(added));
}

/// The lines of the diagnosis as one text.
pub open spec fn doctor_text(
    iface: Seq<char>,
    s: model::NetworkSnapshotView,
    config_path: Seq<char>,
    hint: bool,
) -> Seq<char> {
    text::joined(doctor_lines(iface, s, config_path, hint), "\n"@)
}

/// The diagnosis of the interface `iface` and the snapshot `s`. `config_path` is where the settings
/// are kept, and `hint` says whether the user should be told to set a password.
pub fn doctor_report(iface: &str, s: &NetworkSnapshot, config_path: &str, hint: bool) -> (r: String)
    ensures
        r@ == doctor_text(iface@, s@, config_path@, hint),
{
    let mut lines: Vec<String> = vec![text::join3("Interface: ", iface, " ")];
    assert(text::texts(lines@) =~= seq!["Interface: "@ + iface@ + " "@]);
    append_lines(&mut lines, doctor_link_of(&s.wifi));
    append_lines(&mut lines, doctor_totals_of(s));
    let mut errors: Vec<String> = Vec::new();
    assert(text::texts(errors@) =~= seq![]);
    assert(text::texts(s.errors@).len() == s.errors@.len());
    if s.errors.len() > 0 {
        errors.push("Errors:".to_owned());
        assert(text::texts(errors@) =~= seq!["Errors:"@]);
        append_lines(&mut errors, bullets_of(&s.errors));
    }
    append_lines(&mut lines, errors);
    let mut end: Vec<String> = vec![text::join2("Config: ", config_path)];
    if hint {
        end.push(
            "Hint: run `mywifistats setup` or press c in the TUI to add router password.".to_owned(),
        );
    }
    assert(text::texts(end@) =~= doctor_end(config_path@, hint));
    append_lines(&mut lines, end);
    text::join_all(&lines, "\n")
}

// ---------------------------------------------------------------------------------------------
// Tables

/// The columns of the table of devices.
pub open spec fn table_header() -> Seq<Seq<char>> {
    seq![
        "#"@,
        "Hostname"@,
        "IP"@,
        "MAC"@,
        "Vendor"@,
        "Link"@,
        "State"@,
        "↓ Data"@,
        "↑ Data"@,
        "↓ Rate"@,
        "↑ Rate"@,
    ]
}

/// The state of a device.
pub open spec fn state_text(d: model::DeviceView) -> Seq<char> {
    if d.online {
        "online"@
    } else {
        "stale"@
    }
}

/// The cells of the device number `n` under the name `name`; `none` stands for a missing value.
pub open spec fn device_cells(
    n: nat,
    name: Seq<char>,
    d: model::DeviceView,
    none: Seq<char>,
) -> Seq<Seq<char>> {
    seq![
        number::decimal(n),
        name,
        ip_or(d.ip, none),
        text::given_or(d.mac, none),
        text::given_or(d.vendor, none),
        d.link.name(),
        state_text(d),
        bytes_or(d.bytes_rx, none),
        bytes_or(d.bytes_tx, none),
        bps_or(d.rate_rx_bps, none),
        bps_or(d.rate_tx_bps, none),
    ]
}

/// The name of a device in a printed table: with an asterisk for this machine.
pub open spec fn printed_name(d: model::DeviceView) -> Seq<char> {
    let name = text::given_or(d.hostname, "-"@);
    if d.is_self {
        name + " *"@
    } else {
        name
    }
}

/// The cells of a printed table.
pub open spec fn printed_rows(devices: Seq<model::DeviceView>) -> Seq<Seq<Seq<char>>> {
    Seq::new(
        devices.len(),
        |i: int| device_cells((i + 1) as nat, printed_name(devices[i]), devices[i], "-"@),
    )
}

/// The texts of the cells of a table.
pub open spec fn table_texts(rows: Seq<Vec<String>>) -> Seq<Seq<Seq<char>>> {
    rows.map_values(|r: Vec<String>| text::texts(r@))
}

/// The columns of the table of devices.
pub fn table_header_of() -> (r: Vec<String>)
    ensures
        text::texts(r@) == table_header(),
{
    let r: Vec<String> = vec![
        "#".to_owned(),
        "Hostname".to_owned(),
        "IP".to_owned(),
        "MAC".to_owned(),
        "Vendor".to_owned(),
        "Link".to_owned(),
        "State".to_owned(),
        "↓ Data".to_owned(),
        "↑ Data".to_owned(),
        "↓ Rate".to_owned(),
        "↑ Rate".to_owned(),
    ];
    assert(text::texts(r@) =~= table_header());
    r
}

/// The cells of the device number `n` under the name `name`.
pub fn device_cells_of(n: u64, name: &str, d: &Device, none: &str) -> (r: Vec<String>)
    ensures
        text::texts(r@) == device_cells(n as nat, name@, d@, none@),
{
    let state: &'static str = if d.online {
        "online"
    } else {
        "stale"
    };
    let r: Vec<String> = vec![
        number::decimal_of(n),
        name.to_owned(),
        ip_or_of(d.ip, none),
        text::text_or(&d.mac, none),
        text::text_or(&d.vendor, none),
        d.link.as_str().to_owned(),
        state.to_owned(),
        bytes_or_of(d.bytes_rx, none),
        bytes_or_of(d.bytes_tx, none),
        bps_or_of(d.rate_rx_bps, none),
        bps_or_of(d.rate_tx_bps, none),
    ];
    assert(text::texts(r@) =~= device_cells(n as nat, name@, d@, none@));
    r
}

fn printed_name_of(d: &Device) -> (r: String)
    ensures
        r@ == printed_name(d@),
{
    let name: String = text::text_or(&d.hostname, "-");
    if d.is_self {
        name.concat(" *")
    } else {
        name
    }
}

/// The cells of a printed table.
pub fn printed_rows_of(devices: &Vec<Device>) -> (rows: Vec<Vec<String>>)
    ensures
        table_texts(rows@) == printed_rows(model::device_views(devices@)),
{
    let mut rows: Vec<Vec<String>> = Vec::new();
    let n: usize = devices.len();
    let mut i: usize = 0;
    while i < n
        invariant
            i <= n == devices@.len(),
            rows@.len() == i,
            forall|k: int|
                0 <= k < i ==> text::texts((#[trigger] rows@[k])@) == device_cells(
                    (k + 1) as nat,
                    printed_name(devices@[k]@),
                    devices@[k]@,
                    "-"@,
                ),
        decreases n - i,
    {
        let name: String = printed_name_of(&devices[i]);
        rows.push(device_cells_of(i as u64 + 1, name.as_str(), &devices[i], "-"));
        i = i + 1;
    }
    assert(table_texts(rows@) =~= printed_rows(model::device_views(devices@)));
    rows
}

/// The table with the columns `header` and the cells `rows` as a text.
pub uninterp spec fn table_text(header: Seq<Seq<char>>, rows: Seq<Seq<Seq<char>>>) -> Seq<char>;

/// `comfy_table::Table` with the given header and rows in its default style, written out.
///
/// What is claimed is that the text depends on the header and the cells alone: without dynamic
/// arrangement the width of the terminal plays no part, and without styles its colours do not.
#[verifier::external_body]
fn render_table(header: &Vec<String>, rows: &Vec<Vec<String>>) -> (r: String)
    ensures
        r@ == table_text(text::texts(header@), table_texts(rows@)),
{
    let mut table = comfy_table::Table::new();
    table.set_header(header.clone());
    table.add_rows(rows.clone());
    format!("{table}")
}

// ---------------------------------------------------------------------------------------------
// One snapshot

/// The printed lines on the link.
pub open spec fn once_link(wifi: Option<model::WifiLinkView>) -> Seq<Seq<char>> {
    match wifi {
        None => seq!["(no link)"@],
        Some(w) => seq![
            "SSID: "@ + text::given_or(w.ssid, "-"@) + "  iface: "@ + w.iface + "  signal: "@
                + signal_or(w.signal_dbm, "-"@),
            "Channel: "@ + number_or(w.channel, "-"@) + "  Width: "@ + number_or(
                w.channel_width_mhz,
                "-"@,
            ) + " MHz  Freq: "@ + number_or(w.freq_mhz, "-"@) + " MHz"@,
            "Bitrate RX/TX: "@ + bitrate_or(w.rx_bitrate_mbps, "-"@) + " / "@ + bitrate_or(
                w.tx_bitrate_mbps,
                "-"@,
            ) + " MBit/s  BSSID: "@ + text::given_or(w.bssid, "-"@),
            "IP: "@ + ip_or(w.ip, "-"@) + "  Gateway: "@ + ip_or(w.gateway, "-"@)
                + "  Connected: "@ + duration_or(w.connected_secs, "-"@),
        ],
    }
}

/// The printed lines on traffic and router.
pub open spec fn once_totals(s: model::NetworkSnapshotView) -> Seq<Seq<char>> {
    seq![
        "Local traffic live ↓"@ + model::bps_text(s.local_rates.rx_bps as nat) + " ↑"@
            + model::bps_text(s.local_rates.tx_bps as nat) + "  total ↓"@ + model::bytes_text(
            s.local_traffic.rx_bytes as nat,
        ) + " ↑"@ + model::bytes_text(s.local_traffic.tx_bytes as nat),
        ""@,
        "=== Router: "@ + s.router.message + " ==="@,
        ""@,
    ]
}

/// The printed lines on errors.
pub open spec fn once_errors(errors: Seq<Seq<char>>) -> Seq<Seq<char>> {
    if errors.len() == 0 {
        seq![]
    } else {
        seq![""@, "Warnings:"@] + bullets(errors)
    }
}

/// The printed lines of a snapshot, whose devices stand in the table `table`.
pub open spec fn once_lines(s: model::NetworkSnapshotView, table: Seq<char>) -> Seq<Seq<char>> {
    seq!["=== WiFi ==="@] + once_link(s.wifi) + once_totals(s) + seq![table] + once_errors(s.errors)
}

fn once_link_of(wifi: &Option<WifiLink>) -> (lines: Vec<String>)
    ensures
        text::texts(lines@) == once_link(model::opt_link(*wifi)),
{
    match wifi {
        None => {
            let lines: Vec<String> = vec!["(no link)".to_owned()];
            assert(text::texts(lines@) =~= seq!["(no link)"@]);
            lines
        },
        Some(w) => {
            let lines: Vec<String> = vec![
                "SSID: ".to_owned().concat(text::text_or(&w.ssid, "-").as_str()).concat(
                    "  iface: ",
                ).concat(w.iface.as_str()).concat("  signal: ").concat(
                    signal_or_of(w.signal_dbm, "-").as_str(),
                ),
                "Channel: ".to_owned().concat(number_or_of(w.channel, "-").as_str()).concat(
                    "  Width: ",
                ).concat(number_or_of(w.channel_width_mhz, "-").as_str()).concat(
                    " MHz  Freq: ",
                ).concat(number_or_of(w.freq_mhz, "-").as_str()).concat(" MHz"),
                "Bitrate RX/TX: ".to_owned().concat(
                    bitrate_or_of(&w.rx_bitrate_mbps, "-").as_str(),
                ).concat(" / ").concat(bitrate_or_of(&w.tx_bitrate_mbps, "-").as_str()).concat(
                    " MBit/s  BSSID: ",
                ).concat(text::text_or(&w.bssid, "-").as_str()),
                "IP: ".to_owned().concat(ip_or_of(w.ip, "-").as_str()).concat(
                    "  Gateway: ",
                ).concat(ip_or_of(w.gateway, "-").as_str()).concat("  Connected: ").concat(
                    duration_or_of(w.connected_secs, "-").as_str(),
                ),
            ];
            assert(text::texts(lines@) =~= once_link(model::opt_link(*wifi)));
            lines
        },
    }
}

fn once_totals_of(s: &NetworkSnapshot) -> (lines: Vec<String>)
    ensures
        text::texts(lines@) == once_totals(s@),
{
    let lines: Vec<String> = vec![
        "Local traffic live ↓".to_owned().concat(
            model::format_bps(s.local_rates.rx_bps).as_str(),
        ).concat(" ↑").concat(model::format_bps(s.local_rates.tx_bps).as_str()).concat(
            "  total ↓",
        ).concat(model::format_bytes(s.local_traffic.rx_bytes).as_str()).concat(" ↑").concat(
            model::format_bytes(s.local_traffic.tx_bytes).as_str(),
        ),
        "".to_owned(),
        text::join3("=== Router: ", s.router.message.as_str(), " ==="),
        "".to_owned(),
    ];
    assert(text::texts(lines@) =~= once_totals(s@));
    lines
}

/// The text of a snapshot, whose devices stand in the table `table`.
pub fn once_text(s: &NetworkSnapshot, table: &str) -> (r: String)
    ensures
        r@ == text::joined(once_lines(s@, table@), "\n"@),
{
    let mut lines: Vec<String> = vec!["=== WiFi ===".to_owned()];
    assert(text::texts(lines@) =~= seq!["=== WiFi ==="@]);
    append_lines(&mut lines, once_link_of(&s.wifi));
    append_lines(&mut lines, once_totals_of(s));
    let ghost before = text::texts(lines@);
    let t: String = table.to_owned();
    proof {
        text::lemma_texts_push(lines@, t);
        assert(before.push(table@) =~= before + seq![table@]);
    }
    lines.push(t);
    let mut errors: Vec<String> = Vec::new();
    assert(text::texts(errors@) =~= seq![]);
    assert(text::texts(s.errors@).len() == s.errors@.len());
    if s.errors.len() > 0 {
        errors.push("".to_owned());
        errors.push("Warnings:".to_owned());
        assert(text::texts(errors@) =~= seq![""@, "Warnings:"@]);
        append_lines(&mut errors, bullets_of(&s.errors));
    }
    append_lines(&mut lines, errors);
    text::join_all(&lines, "\n")
}

/// The text of a snapshot.
pub fn print_once(s: &NetworkSnapshot) -> (r: String)
    ensures
        r@ == text::joined(
            once_lines(s@, table_text(table_header(), printed_rows(s@.devices))),
            "\n"@,
        ),
{
    let table: String = render_table(&table_header_of(), &printed_rows_of(&s.devices));
    once_text(s, table.as_str())
}

/// Every row has a cell for every column.
pub proof fn law_rows_fit(n: nat, name: Seq<char>, d: model::DeviceView, none: Seq<char>)
    ensures
        device_cells(n, name, d, none).len() == table_header().len(),
{
}

/// A text, or a dash where there is none.
pub open spec fn or_dash(o: Option<Seq<char>>) -> Seq<char> {
    match o {
        Some(s) => s,
        None => "-"@,
    }
}

/// A number in decimal digits, where there is one.
pub open spec fn digits(o: Option<u32>) -> Option<Seq<char>> {
    match o {
        Some(n) => Some(number::decimal(n as nat)),
        None => None,
    }
}

/// An address in its usual notation, where there is one.
pub open spec fn notation(o: Option<IpAddr>) -> Option<Seq<char>> {
    match o {
        Some(a) => Some(addr::ip_text(a)),
        None => None,
    }
}

/// A signal with its unit, where there is one.
pub open spec fn decibels(o: Option<i32>) -> Option<Seq<char>> {
    match o {
        Some(n) => Some(number::signed_decimal(n as int) + " dBm"@),
        None => None,
    }
}

/// A bitrate without decimals, where there is one.
pub open spec fn rounded(o: Option<model::ReadingView>) -> Option<Seq<char>> {
    match o {
        Some(r) => Some(r.shown),
        None => None,
    }
}

/// The diagnosis says of the link, one line for each: its name, that of the access point, signal,
/// channel, width and frequency, the bitrates of receiving and of sending in this order, the
/// addresses of this machine and of the gateway, and how long it has been up.
pub proof fn law_diagnosis_of_link(
    iface: Seq<char>,
    s: model::NetworkSnapshotView,
    config_path: Seq<char>,
    hint: bool,
)
    ensures
        ({
            let t = doctor_text(iface, s, config_path, hint);
            match s.wifi {
                None => text::has_line(t, "  (no wifi link info)"@),
                Some(w) => {
                    &&& text::has_line(
                        t,
                        "  SSID: "@ + match w.ssid {
                            Some(n) => n,
                            None => "(not associated)"@,
                        },
                    )
                    &&& text::has_line(t, "  BSSID: "@ + or_dash(w.bssid))
                    &&& text::has_line(
                        t,
                        "  Signal: "@ + or_dash(decibels(w.signal_dbm)) + "  Channel: "@ + or_dash(
                            digits(w.channel),
                        ) + "  Width: "@ + or_dash(digits(w.channel_width_mhz)) + " MHz  Freq: "@
                            + or_dash(digits(w.freq_mhz)) + " MHz"@,
                    )
                    &&& text::has_line(
                        t,
                        "  Bitrate RX/TX: "@ + or_dash(rounded(w.rx_bitrate_mbps)) + " / "@ + or_dash(
                            rounded(w.tx_bitrate_mbps),
                        ) + " MBit/s"@,
                    )
                    &&& text::has_line(
                        t,
                        "  IP: "@ + or_dash(notation(w.ip)) + "  Gateway: "@ + or_dash(
                            notation(w.gateway),
                        ),
                    )
                    &&& w.connected_secs matches Some(n) ==> text::has_line(
                        t,
                        "  Connected: "@ + model::duration_text(n as nat),
                    )
                },
            }
        }),
{
    let lines = doctor_lines(iface, s, config_path, hint);
    let link = doctor_link(s.wifi);
    assert forall|k: int| 0 <= k < link.len() implies #[trigger] text::has_line(
        doctor_text(iface, s, config_path, hint),
        link[k],
    ) by {
        assert(lines[k + 1] == link[k]);
        text::lemma_has_line(lines, k + 1);
    }
    if let Some(w) = s.wifi {
        assert(text::has_line(doctor_text(iface, s, config_path, hint), link[0]));
        assert(text::has_line(doctor_text(iface, s, config_path, hint), link[1]));
        assert(text::has_line(doctor_text(iface, s, config_path, hint), link[2]));
        assert(text::has_line(doctor_text(iface, s, config_path, hint), link[3]));
        assert(text::has_line(doctor_text(iface, s, config_path, hint), link[4]));
        if w.connected_secs is Some {
            assert(text::has_line(doctor_text(iface, s, config_path, hint), link[5]));
        }
    } else {
        assert(text::has_line(doctor_text(iface, s, config_path, hint), link[0]));
    }
}

/// Yes or no as the diagnosis writes it.
pub open spec fn truth(b: bool) -> Seq<char> {
    if b {
        "true"@
    } else {
        "false"@
    }
}

/// The diagnosis says of the rest, one line for each: the bytes received and sent in this order, the
/// number of devices, the state of the router and its message, and each error.
pub proof fn law_diagnosis_of_rest(
    iface: Seq<char>,
    s: model::NetworkSnapshotView,
    config_path: Seq<char>,
    hint: bool,
)
    ensures
        ({
            let t = doctor_text(iface, s, config_path, hint);
            &&& text::has_line(
                t,
                "Local traffic: ↓ "@ + model::bytes_text(s.local_traffic.rx_bytes as nat) + "  ↑ "@
                    + model::bytes_text(s.local_traffic.tx_bytes as nat),
            )
            &&& text::has_line(
                t,
                "Devices discovered: "@ + number::decimal(s.devices.len()) + " (LAN+router merge)"@,
            )
            &&& text::has_line(
                t,
                "Router: enabled="@ + truth(s.router.enabled) + "  connected="@ + truth(
                    s.router.connected,
                ) + "  name="@ + or_dash(s.router.name) + "  per-host-traffic="@ + truth(
                    s.router.per_host_traffic,
                ),
            )
            &&& text::has_line(t, "  "@ + s.router.message)
            &&& forall|k: int|
                0 <= k < s.errors.len() ==> text::has_line(t, "  - "@ + #[trigger] s.errors[k])
            &&& s.errors.len() > 0 ==> text::has_line(t, "Errors:"@)
            &&& hint ==> text::has_line(t, "Config: "@ + config_path)
        }),
{
    let t = doctor_text(iface, s, config_path, hint);
    let lines = doctor_lines(iface, s, config_path, hint);
    let n = doctor_link(s.wifi).len() as int;
    let totals = doctor_totals(s);
    let errors = doctor_errors(s.errors);
    assert forall|k: int| 0 <= k < 4 implies #[trigger] text::has_line(t, totals[k]) by {
        assert(lines[n + 1 + k] == totals[k]);
        text::lemma_has_line(lines, n + 1 + k);
    }
    assert(text::has_line(t, totals[0]));
    assert(text::has_line(t, totals[1]));
    assert(text::has_line(t, totals[2]));
    assert(text::has_line(t, totals[3]));
    assert forall|k: int| 0 <= k < s.errors.len() implies text::has_line(
        t,
        "  - "@ + #[trigger] s.errors[k],
    ) by {
        assert(bullets(s.errors)[k] == "  - "@ + s.errors[k]);
        assert(errors[k + 1] == "  - "@ + s.errors[k]);
        assert(lines[n + 5 + k + 1] == errors[k + 1]);
        text::lemma_has_line(lines, n + 5 + k + 1);
    }
    if s.errors.len() > 0 {
        assert(lines[n + 5] == errors[0]);
        text::lemma_has_line(lines, n + 5);
    }
    if hint {
        assert(lines[n + 5 + errors.len()] == "Config: "@ + config_path);
        text::lemma_has_line(lines, n + 5 + errors.len());
    }
}

/// The diagnosis begins with the interface, and ends with where the settings are kept, or with the
/// hint to set a password.
pub proof fn law_diagnosis_ends(
    iface: Seq<char>,
    s: model::NetworkSnapshotView,
    config_path: Seq<char>,
    hint: bool,
)
    ensures
        text::starts_with(
            doctor_text(iface, s, config_path, hint),
            "Interface: "@ + iface + " "@ + "\n"@,
        ),
        text::ends_with(
            doctor_text(iface, s, config_path, hint),
            "\n"@ + if hint {
                "Hint: run `mywifistats setup` or press c in the TUI to add router password."@
            } else {
                "Config: "@ + config_path
            },
        ),
{
    let t = doctor_text(iface, s, config_path, hint);
    let lines = doctor_lines(iface, s, config_path, hint);
    let first = seq![lines[0]];
    let rest = lines.skip(1);
    assert(lines =~= first + rest);
    text::lemma_joined_split(first, rest, "\n"@);
    assert(text::joined(first, "\n"@) == lines[0]);
    let head = "Interface: "@ + iface + " "@ + "\n"@;
    assert(t.take(head.len() as int) =~= head);
    let start = lines.drop_last();
    let last = seq![lines.last()];
    assert(lines =~= start + last);
    text::lemma_joined_split(start, last, "\n"@);
    assert(text::joined(last, "\n"@) == lines.last());
    let tail = "\n"@ + lines.last();
    assert(t.skip(t.len() - tail.len()) =~= tail);
    assert(doctor_end(config_path, hint).last() == lines.last());
}

/// A printed snapshot says of the link: its name, the interface and the signal; channel, width and
/// frequency; the bitrates of receiving and of sending in this order, and the access point; the
/// addresses of this machine and of the gateway, and how long it has been up. It says the rates and
/// then the bytes, received before sent, and what the router says.
pub proof fn law_printed_lines(s: model::NetworkSnapshotView, table: Seq<char>)
    ensures
        ({
            let lines = once_lines(s, table);
            &&& lines[0] == "=== WiFi ==="@
            &&& s.wifi is None ==> lines[1] == "(no link)"@ && lines.len() >= 7
            &&& s.wifi matches Some(w) ==> {
                &&& lines.len() >= 10
                &&& lines[1] == "SSID: "@ + or_dash(w.ssid) + "  iface: "@ + w.iface + "  signal: "@
                    + or_dash(decibels(w.signal_dbm))
                &&& lines[2] == "Channel: "@ + or_dash(digits(w.channel)) + "  Width: "@ + or_dash(
                    digits(w.channel_width_mhz),
                ) + " MHz  Freq: "@ + or_dash(digits(w.freq_mhz)) + " MHz"@
                &&& lines[3] == "Bitrate RX/TX: "@ + or_dash(rounded(w.rx_bitrate_mbps)) + " / "@
                    + or_dash(rounded(w.tx_bitrate_mbps)) + " MBit/s  BSSID: "@ + or_dash(w.bssid)
                &&& lines[4] == "IP: "@ + or_dash(notation(w.ip)) + "  Gateway: "@ + or_dash(
                    notation(w.gateway),
                ) + "  Connected: "@ + match w.connected_secs {
                    Some(n) => model::duration_text(n as nat),
                    None => "-"@,
                }
            }
            &&& ({
                let k: int = if s.wifi is Some {
                    5
                } else {
                    2
                };
                &&& lines[k] == "Local traffic live ↓"@ + model::bps_text(
                    s.local_rates.rx_bps as nat,
                ) + " ↑"@ + model::bps_text(s.local_rates.tx_bps as nat) + "  total ↓"@
                    + model::bytes_text(s.local_traffic.rx_bytes as nat) + " ↑"@
                    + model::bytes_text(s.local_traffic.tx_bytes as nat)
                &&& lines[k + 2] == "=== Router: "@ + s.router.message + " ==="@
                &&& lines[k + 4] == table
                &&& s.errors.len() == 0 ==> lines.len() == k + 5
                &&& s.errors.len() > 0 ==> lines.len() == k + 7 + s.errors.len() && lines[k + 6]
                    == "Warnings:"@
                &&& forall|j: int|
                    0 <= j < s.errors.len() ==> lines[k + 7 + j] == "  - "@ + #[trigger] s.errors[j]
            })
        }),
{
    assert(bullets(s.errors).len() == s.errors.len());
    assert forall|j: int| 0 <= j < s.errors.len() implies bullets(s.errors)[j] == "  - "@
        + #[trigger] s.errors[j] by {}
}

/// A row shows under each heading what the heading names.
pub proof fn law_row(n: nat, name: Seq<char>, d: model::DeviceView, none: Seq<char>)
    ensures
        ({
            let cells = device_cells(n, name, d, none);
            &&& table_header()[0] == "#"@ && cells[0] == number::decimal(n)
            &&& table_header()[1] == "Hostname"@ && cells[1] == name
            &&& table_header()[2] == "IP"@ && cells[2] == match d.ip {
                Some(a) => addr::ip_text(a),
                None => none,
            }
            &&& table_header()[3] == "MAC"@ && cells[3] == match d.mac {
                Some(m) => m,
                None => none,
            }
            &&& table_header()[4] == "Vendor"@ && cells[4] == match d.vendor {
                Some(v) => v,
                None => none,
            }
            &&& table_header()[5] == "Link"@ && cells[5] == match d.link {
                LinkKind::Wifi => "WiFi"@,
                LinkKind::Ethernet => "ETH"@,
                LinkKind::Unknown => "?"@,
            }
            &&& table_header()[6] == "State"@ && cells[6] == if d.online {
                "online"@
            } else {
                "stale"@
            }
            &&& table_header()[7] == "↓ Data"@ && cells[7] == match d.bytes_rx {
                Some(b) => model::bytes_text(b as nat),
                None => none,
            }
            &&& table_header()[8] == "↑ Data"@ && cells[8] == match d.bytes_tx {
                Some(b) => model::bytes_text(b as nat),
                None => none,
            }
            &&& table_header()[9] == "↓ Rate"@ && cells[9] == match d.rate_rx_bps {
                Some(b) => model::bps_text(b as nat),
                None => none,
            }
            &&& table_header()[10] == "↑ Rate"@ && cells[10] == match d.rate_tx_bps {
                Some(b) => model::bps_text(b as nat),
                None => none,
            }
            &&& cells.len() == 11 && table_header().len() == 11
        }),
{
}

/// The printed table has a row for each device, in order and counted from one, with a star behind
/// the name of this machine.
pub proof fn law_printed_rows(devices: Seq<model::DeviceView>, i: int)
    requires
        0 <= i < devices.len(),
    ensures
        printed_rows(devices).len() == devices.len(),
        printed_rows(devices)[i] == device_cells(
            (i + 1) as nat,
            or_dash(devices[i].hostname) + if devices[i].is_self {
                " *"@
            } else {
                seq![]
            },
            devices[i],
            "-"@,
        ),
{
    assert(or_dash(devices[i].hostname) + Seq::<char>::empty() =~= or_dash(devices[i].hostname));
}

} // verus!

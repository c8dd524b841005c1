//! The dashboard: what its keys do and what it shows.

use crate::keys::Key;
use crate::model;
use crate::model::{Device, NetworkSnapshot, SortKey, WifiLink};
use crate::number;
use crate::report;
use crate::text;
use crate::view;
use crate::view::{Span, Style, Tint};
use vstd::prelude::*;

verus! {

// ---------------------------------------------------------------------------------------------
// Time

/// The time between two snapshots in milliseconds: what was asked for, half a second at least.
pub open spec fn tick(interval_ms: u64) -> u64 {
    if interval_ms > 500 {
        interval_ms
    } else {
        500
    }
}

/// The time between two snapshots in milliseconds.
pub fn tick_ms(interval_ms: u64) -> (r: u64)
    ensures
        r == tick(interval_ms),
{
    if interval_ms > 500 {
        interval_ms
    } else {
        500
    }
}

/// The next snapshot is due, `elapsed_ns` nanoseconds after the last one.
pub open spec fn due(tick_ns: u128, elapsed_ns: u128) -> bool {
    elapsed_ns >= tick_ns
}

/// The time to wait for a key, in nanoseconds.
pub open spec fn wait(tick_ns: u128, elapsed_ns: u128) -> int {
    if elapsed_ns <= tick_ns {
        tick_ns - elapsed_ns
    } else {
        50_000_000
    }
}

/// Whether the next snapshot is due, `elapsed_ns` nanoseconds after the last one.
pub fn is_due(tick_ns: u128, elapsed_ns: u128) -> (r: bool)
    ensures
        r == due(tick_ns, elapsed_ns),
        r == (elapsed_ns >= tick_ns),
{
    elapsed_ns >= tick_ns
}

/// How long to wait for a key, in nanoseconds: what is left of the tick, or 50 milliseconds where
/// it is over.
pub fn wait_ns(tick_ns: u128, elapsed_ns: u128) -> (r: u128)
    ensures
        r == wait(tick_ns, elapsed_ns),
        r == if elapsed_ns <= tick_ns {
            tick_ns - elapsed_ns
        } else {
            50_000_000
        },
{
    if elapsed_ns <= tick_ns {
        tick_ns - elapsed_ns
    } else {
        50_000_000
    }
}

// ---------------------------------------------------------------------------------------------
// Keys

/// The state of the dashboard.
#[derive(Debug, Clone, Copy, PartialEq, Eq, Structural)]
pub struct Dashboard {
    pub sort: SortKey,
    /// The row that is selected.
    pub selected: Option<usize>,
    pub show_help: bool,
}

/// What a key asks for.
#[derive(Debug, Clone, Copy, PartialEq, Eq, Structural)]
pub enum Action {
    Nothing,
    Quit,
    /// Collect a new snapshot.
    Refresh,
    /// Put the devices in the new order.
    Sort,
    /// Open the setup, take over what it saved, and collect a new snapshot.
    Setup,
}

/// The row after `selected`, the last one at most.
pub open spec fn row_below(selected: Option<usize>, rows: nat) -> int {
    let i = match selected {
        Some(i) => i as int,
        None => 0,
    };
    let last = if rows > 0 {
        rows - 1
    } else {
        0
    };
    if i + 1 < last {
        i + 1
    } else {
        last
    }
}

/// The row before `selected`, the first one at least.
pub open spec fn row_above(selected: Option<usize>) -> int {
    match selected {
        Some(i) if i > 0 => i - 1,
        _ => 0,
    }
}

/// What a key does to a dashboard of `rows` devices.
pub open spec fn pressed(d: Dashboard, key: Key, rows: nat) -> (Dashboard, Action) {
    match key {
        Key::Char('q') | Key::Esc => if d.show_help {
            (Dashboard { show_help: false, ..d }, Action::Nothing)
        } else {
            (d, Action::Quit)
        },
        Key::Char('r') => (d, Action::Refresh),
        Key::Char('s') => (Dashboard { sort: d.sort.successor(), ..d }, Action::Sort),
        Key::Char('c') => (d, Action::Setup),
        Key::Char('?') | Key::Char('h') => (
            Dashboard { show_help: !d.show_help, ..d },
            Action::Nothing,
        ),
        Key::Down | Key::Char('j') => (
            Dashboard { selected: Some(row_below(d.selected, rows) as usize), ..d },
            Action::Nothing,
        ),
        Key::Up | Key::Char('k') => (
            Dashboard { selected: Some(row_above(d.selected) as usize), ..d },
            Action::Nothing,
        ),
        _ => (d, Action::Nothing),
    }
}

impl Dashboard {
    /// A dashboard that was just opened.
    pub fn new() -> (r: Dashboard)
        ensures
            r == (Dashboard { sort: SortKey::Hostname, selected: Some(0), show_help: false }),
    {
        Dashboard { sort: SortKey::Hostname, selected: Some(0), show_help: false }
    }

    /// What the key asks for, on a dashboard of `rows` devices.
    pub fn press(&mut self, key: Key, rows: usize) -> (r: Action)
        ensures
            (*final(self), r) == pressed(*old(self), key, rows as nat),
    {
        match key {
            Key::Char('q') | Key::Esc => {
                if self.show_help {
                    self.show_help = false;
                    Action::Nothing
                } else {
                    Action::Quit
                }
            },
            Key::Char('r') => Action::Refresh,
            Key::Char('s') => {
                self.sort = self.sort.next();
                Action::Sort
            },
            Key::Char('c') => Action::Setup,
            Key::Char('?') | Key::Char('h') => {
                self.show_help = !self.show_help;
                Action::Nothing
            },
            Key::Down | Key::Char('j') => {
                let i: usize = match self.selected {
                    Some(i) => i,
                    None => 0,
                };
                let last: usize = if rows > 0 {
                    rows - 1
                } else {
                    0
                };
                let next: usize = if i < last {
                    i + 1
                } else {
                    last
                };
                self.selected = Some(next);
                Action::Nothing
            },
            Key::Up | Key::Char('k') => {
                let above: usize = match self.selected {
                    Some(i) => {
                        if i > 0 {
                            i - 1
                        } else {
                            0
                        }
                    },
                    None => 0,
                };
                self.selected = Some(above);
                Action::Nothing
            },
            _ => Action::Nothing,
        }
    }
}

/// Moving up and down selects a row that is there, as long as there are rows and one of them was
/// selected.
pub proof fn law_selection_in_range(d: Dashboard, key: Key, rows: nat)
    requires
        rows > 0,
        d.selected matches Some(i) ==> i < rows,
    ensures
        pressed(d, key, rows).0.selected matches Some(i) ==> i < rows,
{
}

/// Only `q` and Esc quit, and not while the help is shown.
pub proof fn law_quit(d: Dashboard, key: Key, rows: nat)
    ensures
        pressed(d, key, rows).1 == Action::Quit <==> !d.show_help && (key == Key::Char('q') || key
            == Key::Esc),
{
}

/// Down and then up leads back to the row, unless it is the last one.
pub proof fn law_down_then_up(d: Dashboard, rows: usize)
    requires
        d.selected matches Some(i) && i + 1 < rows,
    ensures
        pressed(pressed(d, Key::Down, rows as nat).0, Key::Up, rows as nat).0 == d,
{
}

// ---------------------------------------------------------------------------------------------
// The card of the link

/// Bars for the strength of a signal, and their colour.
pub open spec fn bars(dbm: Option<i32>) -> (Seq<char>, Tint) {
    match dbm {
        None => ("····"@, Tint::DarkGray),
        Some(s) => if s >= -50 {
            ("████"@, Tint::Green)
        } else if s >= -60 {
            ("███·"@, Tint::Green)
        } else if s >= -70 {
            ("██··"@, Tint::Yellow)
        } else if s >= -80 {
            ("█···"@, Tint::Red)
        } else {
            ("····"@, Tint::Red)
        },
    }
}

/// The channel of the link, with its width and frequency as far as they are known.
pub open spec fn channel_text(w: model::WifiLinkView) -> Seq<char> {
    match (w.channel, w.channel_width_mhz, w.freq_mhz) {
        (Some(c), Some(width), Some(freq)) => number::decimal(c as nat) + " · "@
            + number::decimal(width as nat) + " MHz · "@ + number::decimal(freq as nat) + " MHz"@,
        (Some(c), Some(width), None) => number::decimal(c as nat) + " · "@ + number::decimal(
            width as nat,
        ) + " MHz"@,
        (Some(c), _, _) => number::decimal(c as nat),
        _ => "n/a"@,
    }
}

/// A line with a key and a value.
pub open spec fn key_line(key: Seq<char>, value: Seq<char>, tint: Tint) -> Seq<view::SpanView> {
    seq![
        view::piece("  "@ + text::padded(key, 8) + " "@, view::fg(Tint::DarkGray)),
        view::piece(value, view::fg(tint)),
    ]
}

/// The line of the signal.
pub open spec fn signal_line(w: model::WifiLinkView) -> Seq<view::SpanView> {
    seq![
        view::piece("  Signal   "@, view::fg(Tint::DarkGray)),
        view::piece(bars(w.signal_dbm).0 + " "@, view::fg(bars(w.signal_dbm).1)),
        view::piece(report::signal_or(w.signal_dbm, "n/a"@), view::fg(Tint::White)),
        view::piece("  ·  "@ + w.iface, view::fg(Tint::DarkGray)),
    ]
}

/// The lines of the card of the link.
pub open spec fn wifi_card(wifi: Option<model::WifiLinkView>) -> Seq<Seq<view::SpanView>> {
    match wifi {
        None => seq![seq![view::piece("  No WiFi link info"@, view::fg(Tint::Red))]],
        Some(w) => seq![
            key_line("SSID"@, text::given_or(w.ssid, "(disconnected)"@), Tint::Cyan),
            signal_line(w),
            key_line("Channel"@, channel_text(w), Tint::White),
            key_line(
                "Bitrate"@,
                "↓ "@ + report::bitrate_or(w.rx_bitrate_mbps, "-"@) + "  ↑ "@ + report::bitrate_or(
                    w.tx_bitrate_mbps,
                    "-"@,
                ) + " Mbit/s"@,
                Tint::White,
            ),
            key_line(
                "Address"@,
                report::ip_or(w.ip, "-"@) + "  →  "@ + report::ip_or(w.gateway, "-"@),
                Tint::White,
            ),
            key_line(
                "BSSID"@,
                text::given_or(w.bssid, "-"@) + "  ·  up "@ + report::duration_or(
                    w.connected_secs,
                    "-"@,
                ),
                Tint::DarkGray,
            ),
        ],
    }
}

/// Bars for the strength of a signal, and their colour.
pub fn signal_bars(dbm: Option<i32>) -> (r: (&'static str, Tint))
    ensures
        (r.0@, r.1) == bars(dbm),
{
    match dbm {
        None => ("····", Tint::DarkGray),
        Some(s) => {
            if s >= -50 {
                ("████", Tint::Green)
            } else if s >= -60 {
                ("███·", Tint::Green)
            } else if s >= -70 {
                ("██··", Tint::Yellow)
            } else if s >= -80 {
                ("█···", Tint::Red)
            } else {
                ("····", Tint::Red)
            }
        },
    }
}

fn channel_text_of(w: &WifiLink) -> (r: String)
    ensures
        r@ == channel_text(w@),
{
    match (w.channel, w.channel_width_mhz, w.freq_mhz) {
        (Some(c), Some(width), Some(freq)) => number::decimal_of(c as u64).concat(" · ").concat(
            number::decimal_of(width as u64).as_str(),
        ).concat(" MHz · ").concat(number::decimal_of(freq as u64).as_str()).concat(" MHz"),
        (Some(c), Some(width), None) => number::decimal_of(c as u64).concat(" · ").concat(
            number::decimal_of(width as u64).as_str(),
        ).concat(" MHz"),
        (Some(c), _, _) => number::decimal_of(c as u64),
        _ => "n/a".to_owned(),
    }
}

fn key_line_of(key: &str, value: &str, tint: Tint) -> (line: Vec<Span>)
    ensures
        view::line_view(line@) == key_line(key@, value@, tint),
{
    let line: Vec<Span> = vec![
        view::span(
            text::join3("  ", text::pad(key, 8).as_str(), " ").as_str(),
            view::fg_of(Tint::DarkGray),
        ),
        view::span(value, view::fg_of(tint)),
    ];
    assert(view::line_view(line@) =~= key_line(key@, value@, tint));
    line
}

fn signal_line_of(w: &WifiLink) -> (line: Vec<Span>)
    ensures
        view::line_view(line@) == signal_line(w@),
{
    let (shape, tint) = signal_bars(w.signal_dbm);
    let line: Vec<Span> = vec![
        view::span("  Signal   ", view::fg_of(Tint::DarkGray)),
        view::span(text::join2(shape, " ").as_str(), view::fg_of(tint)),
        view::span(
            report::signal_or_of(w.signal_dbm, "n/a").as_str(),
            view::fg_of(Tint::White),
        ),
        view::span(text::join2("  ·  ", w.iface.as_str()).as_str(), view::fg_of(Tint::DarkGray)),
    ];
    assert(view::line_view(line@) =~= signal_line(w@));
    line
}

/// The lines of the card of the link.
pub fn draw_wifi_card(wifi: &Option<WifiLink>) -> (lines: Vec<Vec<Span>>)
    ensures
        view::lines_view(lines@) == wifi_card(model::opt_link(*wifi)),
{
    match wifi {
        None => {
            let line: Vec<Span> = vec![view::span("  No WiFi link info", view::fg_of(Tint::Red))];
            assert(view::line_view(line@) =~= seq![
                view::piece("  No WiFi link info"@, view::fg(Tint::Red)),
            ]);
            let lines: Vec<Vec<Span>> = vec![line];
            assert(view::lines_view(lines@) =~= wifi_card(model::opt_link(*wifi)));
            lines
        },
        Some(w) => {
            let ssid: String = text::text_or(&w.ssid, "(disconnected)");
            let bitrate: String = "↓ ".to_owned().concat(
                report::bitrate_or_of(&w.rx_bitrate_mbps, "-").as_str(),
            ).concat("  ↑ ").concat(
                report::bitrate_or_of(&w.tx_bitrate_mbps, "-").as_str(),
            ).concat(" Mbit/s");
            let address: String = report::ip_or_of(w.ip, "-").concat("  →  ").concat(
                report::ip_or_of(w.gateway, "-").as_str(),
            );
            let bssid: String = text::text_or(&w.bssid, "-").concat("  ·  up ").concat(
                report::duration_or_of(w.connected_secs, "-").as_str(),
            );
            let lines: Vec<Vec<Span>> = vec![
                key_line_of("SSID", ssid.as_str(), Tint::Cyan),
                signal_line_of(w),
                key_line_of("Channel", channel_text_of(w).as_str(), Tint::White),
                key_line_of("Bitrate", bitrate.as_str(), Tint::White),
                key_line_of("Address", address.as_str(), Tint::White),
                key_line_of("BSSID", bssid.as_str(), Tint::DarkGray),
            ];
            assert(view::lines_view(lines@) =~= wifi_card(model::opt_link(*wifi)));
            lines
        },
    }
}

// ---------------------------------------------------------------------------------------------
// The card of the traffic

/// A line of the card of the traffic: a label, an arrow and an amount.
pub open spec fn traffic_line(
    label: Seq<char>,
    label_tint: Tint,
    arrow: Seq<char>,
    arrow_tint: Tint,
    amount: Seq<char>,
    style: Style,
) -> Seq<view::SpanView> {
    seq![
        view::piece(label, view::fg(label_tint)),
        view::piece(arrow, view::fg(arrow_tint)),
        view::piece(amount, style),
    ]
}

/// An empty line.
pub open spec fn empty_line() -> Seq<view::SpanView> {
    seq![view::piece(""@, view::fg(Tint::Plain))]
}

/// The lines of the card of the traffic.
pub open spec fn traffic_card(s: model::NetworkSnapshotView) -> Seq<Seq<view::SpanView>> {
    seq![
        empty_line(),
        traffic_line(
            "  Live      "@,
            Tint::DarkGray,
            "↓ "@,
            Tint::Green,
            model::bps_text(s.local_rates.rx_bps as nat),
            view::bold(Tint::Green),
        ),
        traffic_line(
            "            "@,
            Tint::Plain,
            "↑ "@,
            Tint::Magenta,
            model::bps_text(s.local_rates.tx_bps as nat),
            view::bold(Tint::Magenta),
        ),
        empty_line(),
        traffic_line(
            "  Total     "@,
            Tint::DarkGray,
            "↓ "@,
            Tint::Green,
            model::bytes_text(s.local_traffic.rx_bytes as nat),
            view::fg(Tint::White),
        ),
        traffic_line(
            "            "@,
            Tint::Plain,
            "↑ "@,
            Tint::Magenta,
            model::bytes_text(s.local_traffic.tx_bytes as nat),
            view::fg(Tint::White),
        ),
    ]
}

fn traffic_line_of(
    label: &str,
    label_tint: Tint,
    arrow: &str,
    arrow_tint: Tint,
    amount: &str,
    style: Style,
) -> (line: Vec<Span>)
    ensures
        view::line_view(line@) == traffic_line(
            label@,
            label_tint,
            arrow@,
            arrow_tint,
            amount@,
            style,
        ),
{
    let line: Vec<Span> = vec![
        view::span(label, view::fg_of(label_tint)),
        view::span(arrow, view::fg_of(arrow_tint)),
        view::span(amount, style),
    ];
    assert(view::line_view(line@) =~= traffic_line(
        label@,
        label_tint,
        arrow@,
        arrow_tint,
        amount@,
        style,
    ));
    line
}

/// The lines of the card of the traffic.
pub fn draw_traffic_card(s: &NetworkSnapshot) -> (lines: Vec<Vec<Span>>)
    ensures
        view::lines_view(lines@) == traffic_card(s@),
{
    let rx: String = model::format_bps(s.local_rates.rx_bps);
    let tx: String = model::format_bps(s.local_rates.tx_bps);
    let rx_total: String = model::format_bytes(s.local_traffic.rx_bytes);
    let tx_total: String = model::format_bytes(s.local_traffic.tx_bytes);
    let lines: Vec<Vec<Span>> = vec![
        view::styled_line("", view::fg_of(Tint::Plain)),
        traffic_line_of(
            "  Live      ",
            Tint::DarkGray,
            "↓ ",
            Tint::Green,
            rx.as_str(),
            view::bold_of(Tint::Green),
        ),
        traffic_line_of(
            "            ",
            Tint::Plain,
            "↑ ",
            Tint::Magenta,
            tx.as_str(),
            view::bold_of(Tint::Magenta),
        ),
        view::styled_line("", view::fg_of(Tint::Plain)),
        traffic_line_of(
            "  Total     ",
            Tint::DarkGray,
            "↓ ",
            Tint::Green,
            rx_total.as_str(),
            view::fg_of(Tint::White),
        ),
        traffic_line_of(
            "            ",
            Tint::Plain,
            "↑ ",
            Tint::Magenta,
            tx_total.as_str(),
            view::fg_of(Tint::White),
        ),
    ];
    assert(view::lines_view(lines@) =~= traffic_card(s@));
    lines
}

// ---------------------------------------------------------------------------------------------
// The strip of the router

/// The badge of the router.
pub open spec fn badge(r: model::RouterStatusView) -> view::SpanView {
    if r.connected {
        view::piece(" ONLINE "@, view::on(Tint::Black, Tint::Green))
    } else if !r.enabled {
        view::piece(" OFF "@, view::on(Tint::White, Tint::DarkGray))
    } else if text::contains(r.message, "no password"@) || text::contains(
        r.message,
        "not connected"@,
    ) {
        view::piece(" SETUP "@, view::on(Tint::Black, Tint::Yellow))
    } else {
        view::piece(" ERROR "@, view::on(Tint::White, Tint::Red))
    }
}

/// The beginning of the strip of the router.
pub open spec fn strip_start(r: model::RouterStatusView) -> Seq<view::SpanView> {
    seq![
        view::piece(" Router "@, Style { fg: Tint::Black, bg: Tint::Blue, bold: true }),
        view::piece(" "@, view::fg(Tint::Plain)),
        badge(r),
        view::piece("  "@, view::fg(Tint::Plain)),
        view::piece(text::given_or(r.name, "none"@), view::bold(Tint::White)),
        view::piece("  ·  "@, view::fg(Tint::DarkGray)),
        view::piece(r.message, view::fg(Tint::Gray)),
    ]
}

/// What the strip says of the clients of the router, or of the way to the setup.
pub open spec fn strip_clients(r: model::RouterStatusView) -> Seq<view::SpanView> {
    if !r.connected && r.enabled {
        seq![view::piece("  →  press c for setup"@, view::bold(Tint::Yellow))]
    } else if r.connected {
        seq![
            view::piece(
                "  ·  "@ + number::decimal(r.device_count) + " clients"@,
                view::fg(Tint::Green),
            ),
        ]
    } else {
        seq![]
    }
}

/// What the strip says of errors: the first one.
pub open spec fn strip_error(errors: Seq<Seq<char>>) -> Seq<view::SpanView> {
    if errors.len() > 0 {
        seq![view::piece("  ! "@ + errors[0], view::fg(Tint::Red))]
    } else {
        seq![]
    }
}

/// The strip of the router.
pub open spec fn router_strip(s: model::NetworkSnapshotView) -> Seq<view::SpanView> {
    strip_start(s.router) + strip_clients(s.router) + strip_error(s.errors)
}

fn badge_of(r: &model::RouterStatus) -> (b: Span)
    ensures
        b@ == badge(r@),
{
    if r.connected {
        view::span(" ONLINE ", view::on_of(Tint::Black, Tint::Green))
    } else if !r.enabled {
        view::span(" OFF ", view::on_of(Tint::White, Tint::DarkGray))
    } else if text::contains_str(r.message.as_str(), "no password") || text::contains_str(
        r.message.as_str(),
        "not connected",
    ) {
        view::span(" SETUP ", view::on_of(Tint::Black, Tint::Yellow))
    } else {
        view::span(" ERROR ", view::on_of(Tint::White, Tint::Red))
    }
}

/// The strip of the router.
pub fn draw_router_strip(s: &NetworkSnapshot) -> (line: Vec<Span>)
    ensures
        view::line_view(line@) == router_strip(s@),
{
    let mut line: Vec<Span> = vec![
        view::span(" Router ", Style { fg: Tint::Black, bg: Tint::Blue, bold: true }),
        view::span(" ", view::fg_of(Tint::Plain)),
        badge_of(&s.router),
        view::span("  ", view::fg_of(Tint::Plain)),
        view::span(text::text_or(&s.router.name, "none").as_str(), view::bold_of(Tint::White)),
        view::span("  ·  ", view::fg_of(Tint::DarkGray)),
        view::span(s.router.message.as_str(), view::fg_of(Tint::Gray)),
    ];
    let ghost start = strip_start(s.router@);
    let ghost clients = strip_clients(s.router@);
    assert(view::line_view(line@) =~= start);
    assert(start + Seq::<view::SpanView>::empty() =~= start);
    if !s.router.connected && s.router.enabled {
        let p: Span = view::span("  →  press c for setup", view::bold_of(Tint::Yellow));
        proof {
            view::lemma_line_push(line@, p);
            assert(start.push(p@) =~= start + seq![p@]);
        }
        line.push(p);
    } else if s.router.connected {
        let p: Span = view::span(
            text::join3(
                "  ·  ",
                number::decimal_of(s.router.device_count as u64).as_str(),
                " clients",
            ).as_str(),
            view::fg_of(Tint::Green),
        );
        proof {
            view::lemma_line_push(line@, p);
            assert(start.push(p@) =~= start + seq![p@]);
        }
        line.push(p);
    }
    assert(view::line_view(line@) == start + clients);
    assert(text::texts(s.errors@).len() == s.errors@.len());
    assert(start + clients + Seq::<view::SpanView>::empty() =~= start + clients);
    if s.errors.len() > 0 {
        assert(text::texts(s.errors@)[0] == s.errors@[0]@);
        let p: Span = view::span(
            text::join2("  ! ", s.errors[0].as_str()).as_str(),
            view::fg_of(Tint::Red),
        );
        proof {
            view::lemma_line_push(line@, p);
            assert((start + clients).push(p@) =~= start + clients + seq![p@]);
        }
        line.push(p);
    }
    line
}

// ---------------------------------------------------------------------------------------------
// The table of devices

/// A row of the table of devices.
pub struct DeviceRow {
    pub cells: Vec<String>,
    pub style: Style,
    /// The style of the cell of the state.
    pub state_style: Style,
}

/// The model of a [`DeviceRow`].
pub struct DeviceRowView {
    pub cells: Seq<Seq<char>>,
    pub style: Style,
    pub state_style: Style,
}

impl View for DeviceRow {
    type V = DeviceRowView;

    open spec fn view(&self) -> DeviceRowView {
        DeviceRowView {
            cells: text::texts(self.cells@),
            style: self.style,
            state_style: self.state_style,
        }
    }
}

/// The models of the rows of a table.
pub open spec fn row_views(rows: Seq<DeviceRow>) -> Seq<DeviceRowView> {
    rows.map_values(|r: DeviceRow| r@)
}

/// The name of a device in the dashboard: with a star for this machine, and a house for the
/// gateway.
pub open spec fn shown_name(d: model::DeviceView) -> Seq<char> {
    let base = text::given_or(d.hostname, "—"@);
    if d.is_self {
        "★ "@ + base
    } else if d.is_gateway {
        "⌂ "@ + base
    } else {
        base
    }
}

/// The row of the device number `n`.
pub open spec fn device_row(n: nat, d: model::DeviceView) -> DeviceRowView {
    DeviceRowView {
        cells: report::device_cells(n, shown_name(d), d, "—"@),
        style: view::fg(
            if d.is_self {
                Tint::Cyan
            } else if !d.online {
                Tint::DarkGray
            } else {
                Tint::Green
            },
        ),
        state_style: view::fg(
            if d.online {
                Tint::Green
            } else {
                Tint::DarkGray
            },
        ),
    }
}

/// The rows of the table of devices.
pub open spec fn device_rows(devices: Seq<model::DeviceView>) -> Seq<DeviceRowView> {
    Seq::new(devices.len(), |i: int| device_row((i + 1) as nat, devices[i]))
}

/// The title of the table of devices.
pub open spec fn devices_title(n: nat, sort: SortKey) -> Seq<char> {
    " Devices ("@ + number::decimal(n) + ")  ·  sort: "@ + sort.name() + " "@
}

fn shown_name_of(d: &Device) -> (r: String)
    ensures
        r@ == shown_name(d@),
{
    let base: String = text::text_or(&d.hostname, "—");
    if d.is_self {
        text::join2("★ ", base.as_str())
    } else if d.is_gateway {
        text::join2("⌂ ", base.as_str())
    } else {
        base
    }
}

fn device_row_of(n: u64, d: &Device) -> (r: DeviceRow)
    ensures
        r@ == device_row(n as nat, d@),
{
    let name: String = shown_name_of(d);
    let tint: Tint = if d.is_self {
        Tint::Cyan
    } else if !d.online {
        Tint::DarkGray
    } else {
        Tint::Green
    };
    let state_tint: Tint = if d.online {
        Tint::Green
    } else {
        Tint::DarkGray
    };
    DeviceRow {
        cells: report::device_cells_of(n, name.as_str(), d, "—"),
        style: view::fg_of(tint),
        state_style: view::fg_of(state_tint),
    }
}

/// The rows of the table of devices.
pub fn draw_devices(devices: &Vec<Device>) -> (rows: Vec<DeviceRow>)
    ensures
        row_views(rows@) == device_rows(model::device_views(devices@)),
{
    let mut rows: Vec<DeviceRow> = Vec::new();
    let n: usize = devices.len();
    let mut i: usize = 0;
    while i < n
        invariant
            i <= n == devices@.len(),
            rows@.len() == i,
            forall|k: int|
                0 <= k < i ==> (#[trigger] rows@[k])@ == device_row((k + 1) as nat, devices@[k]@),
        decreases n - i,
    {
        rows.push(device_row_of(i as u64 + 1, &devices[i]));
        i = i + 1;
    }
    assert(row_views(rows@) =~= device_rows(model::device_views(devices@)));
    rows
}

/// The title of the table of devices.
pub fn devices_title_of(n: usize, sort: SortKey) -> (r: String)
    ensures
        r@ == devices_title(n as nat, sort),
{
    " Devices (".to_owned().concat(number::decimal_of(n as u64).as_str()).concat(
        ")  ·  sort: ",
    ).concat(sort.label()).concat(" ")
}

// ---------------------------------------------------------------------------------------------
// The footer and the help

/// A key and what it does, as the footer shows them.
pub open spec fn footer_entry(key: Seq<char>, label: Seq<char>) -> Seq<view::SpanView> {
    seq![
        view::piece(" "@ + key + " "@, view::on(Tint::Black, Tint::DarkGray)),
        view::piece(" "@ + label + "  "@, view::fg(Tint::Gray)),
    ]
}

/// The footer.
pub open spec fn footer(devices: nat, sort: SortKey) -> Seq<view::SpanView> {
    footer_entry("q"@, "quit"@) + footer_entry("r"@, "refresh"@) + footer_entry("s"@, "sort"@)
        + footer_entry("c"@, "setup"@) + footer_entry("↑↓"@, "move"@) + footer_entry(
        "?"@,
        "help"@,
    ) + seq![
        view::piece(
            "· sort="@ + sort.name() + " · "@ + number::decimal(devices) + " device(s)"@,
            view::fg(Tint::DarkGray),
        ),
    ]
}

fn push_entry(line: &mut Vec<Span>, key: &str, label: &str)
    ensures
        view::line_view(final(line)@) == view::line_view(old(line)@) + footer_entry(key@, label@),
{
    let ghost before = line@;
    let a: Span = view::span(
        text::join3(" ", key, " ").as_str(),
        view::on_of(Tint::Black, Tint::DarkGray),
    );
    let b: Span = view::span(text::join3(" ", label, "  ").as_str(), view::fg_of(Tint::Gray));
    line.push(a);
    line.push(b);
    assert(view::line_view(line@) =~= view::line_view(before) + footer_entry(key@, label@));
}

/// The footer.
pub fn draw_footer(devices: usize, sort: SortKey) -> (line: Vec<Span>)
    ensures
        view::line_view(line@) == footer(devices as nat, sort),
{
    let mut line: Vec<Span> = Vec::new();
    assert(view::line_view(line@) =~= seq![]);
    push_entry(&mut line, "q", "quit");
    assert(Seq::<view::SpanView>::empty() + footer_entry("q"@, "quit"@) =~= footer_entry(
        "q"@,
        "quit"@,
    ));
    push_entry(&mut line, "r", "refresh");
    push_entry(&mut line, "s", "sort");
    push_entry(&mut line, "c", "setup");
    push_entry(&mut line, "↑↓", "move");
    push_entry(&mut line, "?", "help");
    let end: Span = view::span(
        "· sort=".to_owned().concat(sort.label()).concat(" · ").concat(
            number::decimal_of(devices as u64).as_str(),
        ).concat(" device(s)").as_str(),
        view::fg_of(Tint::DarkGray),
    );
    proof {
        let before = view::line_view(line@);
        view::lemma_line_push(line@, end);
        assert(before.push(end@) =~= before + seq![end@]);
    }
    line.push(end);
    line
}

/// A line of plain text.
pub open spec fn plain_line(t: Seq<char>) -> Seq<view::SpanView> {
    seq![view::piece(t, view::fg(Tint::Plain))]
}

/// The help, for settings that are kept at `config_path`.
pub open spec fn help(config_path: Seq<char>) -> Seq<Seq<view::SpanView>> {
    seq![
        seq![view::piece("mywifistats help"@, view::bold(Tint::Cyan))],
        plain_line(""@),
        plain_line("  q / Esc     Quit (or close help)"@),
        plain_line("  r           Refresh snapshot now"@),
        plain_line("  s           Cycle sort (hostname → ip → mac → usage → link)"@),
        plain_line("  c           Open setup (interface + router credentials)"@),
        plain_line("  j / ↓       Next device"@),
        plain_line("  k / ↑       Previous device"@),
        plain_line("  ? / h       Toggle this help"@),
        plain_line(""@),
        seq![view::piece("Data sources"@, view::fg(Tint::Yellow))],
        plain_line("  • Local WiFi  — iw + interface stats (this machine traffic)"@),
        plain_line("  • LAN         — ip neigh (IP / MAC / vendor)"@),
        plain_line("  • Router      — ZTE F670L admin API when configured"@),
        plain_line(""@),
        seq![view::piece("Setup"@, view::fg(Tint::Yellow))],
        plain_line("  mywifistats setup     or press c in the dashboard"@),
        plain_line("  Config: "@ + config_path),
        plain_line(""@),
        seq![view::piece("Press ? to return"@, view::fg(Tint::DarkGray))],
    ]
}

fn plain_line_of(t: &str) -> (line: Vec<Span>)
    ensures
        view::line_view(line@) == plain_line(t@),
{
    view::styled_line(t, view::fg_of(Tint::Plain))
}

/// The help, for settings that are kept at `config_path`.
pub fn draw_help(config_path: &str) -> (lines: Vec<Vec<Span>>)
    ensures
        view::lines_view(lines@) == help(config_path@),
{
    let lines: Vec<Vec<Span>> = vec![
        view::styled_line("mywifistats help", view::bold_of(Tint::Cyan)),
        plain_line_of(""),
        plain_line_of("  q / Esc     Quit (or close help)"),
        plain_line_of("  r           Refresh snapshot now"),
        plain_line_of("  s           Cycle sort (hostname → ip → mac → usage → link)"),
        plain_line_of("  c           Open setup (interface + router credentials)"),
        plain_line_of("  j / ↓       Next device"),
        plain_line_of("  k / ↑       Previous device"),
        plain_line_of("  ? / h       Toggle this help"),
        plain_line_of(""),
        view::styled_line("Data sources", view::fg_of(Tint::Yellow)),
        plain_line_of("  • Local WiFi  — iw + interface stats (this machine traffic)"),
        plain_line_of("  • LAN         — ip neigh (IP / MAC / vendor)"),
        plain_line_of("  • Router      — ZTE F670L admin API when configured"),
        plain_line_of(""),
        view::styled_line("Setup", view::fg_of(Tint::Yellow)),
        plain_line_of("  mywifistats setup     or press c in the dashboard"),
        plain_line_of(text::join2("  Config: ", config_path).as_str()),
        plain_line_of(""),
        view::styled_line("Press ? to return", view::fg_of(Tint::DarkGray)),
    ];
    assert(view::lines_view(lines@) =~= help(config_path@));
    lines
}

// ---------------------------------------------------------------------------------------------
// Laws

/// The keys: `r` collects anew, `s` changes the order, `c` opens the setup, `?` and `h` show and
/// hide the help, which `q` and Esc hide too; down and `j` select the next row, up and `k` the one
/// before, within the rows there are. Any other key does nothing.
pub proof fn law_keys(d: Dashboard, key: Key, rows: nat, i: usize)
    requires
        rows <= usize::MAX,
    ensures
        key == Key::Char('r') ==> pressed(d, key, rows) == (d, Action::Refresh),
        key == Key::Char('c') ==> pressed(d, key, rows) == (d, Action::Setup),
        key == Key::Char('s') ==> pressed(d, key, rows) == (
            Dashboard { sort: d.sort.successor(), selected: d.selected, show_help: d.show_help },
            Action::Sort,
        ),
        key == Key::Char('?') || key == Key::Char('h') ==> pressed(d, key, rows) == (
            Dashboard { sort: d.sort, selected: d.selected, show_help: !d.show_help },
            Action::Nothing,
        ),
        (key == Key::Char('q') || key == Key::Esc) && d.show_help ==> pressed(d, key, rows) == (
            Dashboard { sort: d.sort, selected: d.selected, show_help: false },
            Action::Nothing,
        ),
        (key == Key::Char('q') || key == Key::Esc) && !d.show_help ==> pressed(d, key, rows) == (
            d,
            Action::Quit,
        ),
        key == Key::Down || key == Key::Char('j') ==> {
            let (e, a) = pressed(d, key, rows);
            &&& a == Action::Nothing && e.sort == d.sort && e.show_help == d.show_help
            &&& d.selected == Some(i) && i + 1 < rows ==> e.selected == Some((i + 1) as usize)
            &&& d.selected == Some(i) && i + 1 >= rows && rows > 0 ==> e.selected == Some(
                (rows - 1) as usize,
            )
            &&& d.selected is None && rows > 1 ==> e.selected == Some(1usize)
            &&& rows == 0 ==> e.selected == Some(0usize)
        },
        key == Key::Up || key == Key::Char('k') ==> {
            let (e, a) = pressed(d, key, rows);
            &&& a == Action::Nothing && e.sort == d.sort && e.show_help == d.show_help
            &&& d.selected == Some(i) && i > 0 ==> e.selected == Some((i - 1) as usize)
            &&& d.selected is None || d.selected == Some(0usize) ==> e.selected == Some(0usize)
        },
        pressed(d, key, rows) != (d, Action::Nothing) ==> key == Key::Esc || key == Key::Down || key
            == Key::Up || (key matches Key::Char(c) && (c == 'q' || c == 'r' || c == 's' || c == 'c'
            || c == '?' || c == 'h' || c == 'j' || c == 'k')),
{
}

/// A snapshot is due after the interval that was asked for, but never sooner than half a second.
pub proof fn law_tick(interval_ms: u64)
    ensures
        tick(interval_ms) >= 500,
        tick(interval_ms) >= interval_ms,
        tick(interval_ms) == 500 || tick(interval_ms) == interval_ms,
{
}

/// Waiting as long as the dashboard does leads to the moment when the next snapshot is due, and not
/// beyond it; where that is over already, a key is waited for a twentieth of a second.
pub proof fn law_wait(tick_ns: u128, elapsed_ns: u128, later: u128)
    ensures
        elapsed_ns <= tick_ns ==> elapsed_ns + wait(tick_ns, elapsed_ns) == tick_ns,
        elapsed_ns <= tick_ns && later == elapsed_ns + wait(tick_ns, elapsed_ns) ==> due(
            tick_ns,
            later,
        ),
        later < tick_ns ==> !due(tick_ns, later),
        elapsed_ns > tick_ns ==> due(tick_ns, elapsed_ns) && 20 * wait(tick_ns, elapsed_ns)
            == 1_000_000_000,
{
}

/// One bar more for every ten decibels from -80 dBm on, four from -50 dBm on: green with three or
/// four, yellow with two, red with fewer, and gray without a signal.
pub proof fn law_bars(s: i32)
    ensures
        s >= -50 ==> bars(Some(s)) == ("████"@, Tint::Green),
        -60 <= s < -50 ==> bars(Some(s)) == ("███·"@, Tint::Green),
        -70 <= s < -60 ==> bars(Some(s)) == ("██··"@, Tint::Yellow),
        -80 <= s < -70 ==> bars(Some(s)) == ("█···"@, Tint::Red),
        s < -80 ==> bars(Some(s)) == ("····"@, Tint::Red),
        bars(None) == ("····"@, Tint::DarkGray),
{
}

/// The card of the link shows, a line each: its name; the signal and the interface; channel, width
/// and frequency; the bitrates of receiving and of sending; the addresses of this machine and of
/// the gateway; the access point and how long the link has been up.
pub proof fn law_wifi_card(w: model::WifiLinkView)
    ensures
        ({
            let c = wifi_card(Some(w));
            &&& c.len() == 6
            &&& c[0][0].text == "  "@ + text::padded("SSID"@, 8) + " "@
            &&& c[0][1].text == match w.ssid {
                Some(n) => n,
                None => "(disconnected)"@,
            }
            &&& c[1][0].text == "  Signal   "@
            &&& c[1][1].text == bars(w.signal_dbm).0 + " "@ && c[1][1].style.fg == bars(
                w.signal_dbm,
            ).1
            &&& c[1][2].text == match w.signal_dbm {
                Some(n) => number::signed_decimal(n as int) + " dBm"@,
                None => "n/a"@,
            }
            &&& c[1][3].text == "  ·  "@ + w.iface
            &&& c[2][0].text == "  "@ + text::padded("Channel"@, 8) + " "@
            &&& w.channel is None ==> c[2][1].text == "n/a"@
            &&& w.channel matches Some(n) ==> {
                &&& w.channel_width_mhz is None ==> c[2][1].text == number::decimal(n as nat)
                &&& w.channel_width_mhz matches Some(m) ==> {
                    &&& w.freq_mhz is None ==> c[2][1].text == number::decimal(n as nat) + " · "@
                        + number::decimal(m as nat) + " MHz"@
                    &&& w.freq_mhz matches Some(f) ==> c[2][1].text == number::decimal(n as nat)
                        + " · "@ + number::decimal(m as nat) + " MHz · "@ + number::decimal(
                        f as nat,
                    ) + " MHz"@
                }
            }
            &&& c[3][0].text == "  "@ + text::padded("Bitrate"@, 8) + " "@
            &&& c[3][1].text == "↓ "@ + report::or_dash(report::rounded(w.rx_bitrate_mbps)) + "  ↑ "@
                + report::or_dash(report::rounded(w.tx_bitrate_mbps)) + " Mbit/s"@
            &&& c[4][0].text == "  "@ + text::padded("Address"@, 8) + " "@
            &&& c[4][1].text == report::or_dash(report::notation(w.ip)) + "  →  "@ + report::or_dash(
                report::notation(w.gateway),
            )
            &&& c[5][0].text == "  "@ + text::padded("BSSID"@, 8) + " "@
            &&& c[5][1].text == report::or_dash(w.bssid) + "  ·  up "@ + match w.connected_secs {
                Some(n) => model::duration_text(n as nat),
                None => "-"@,
            }
        }),
        wifi_card(None).len() == 1 && wifi_card(None)[0][0].text == "  No WiFi link info"@,
{
}

/// The card of the traffic shows the rates above the totals, each received above sent.
pub proof fn law_traffic_card(s: model::NetworkSnapshotView)
    ensures
        ({
            let c = traffic_card(s);
            &&& c.len() == 6
            &&& c[1][0].text == "  Live      "@ && c[1][1].text == "↓ "@ && c[1][2].text
                == model::bps_text(s.local_rates.rx_bps as nat)
            &&& c[2][1].text == "↑ "@ && c[2][2].text == model::bps_text(
                s.local_rates.tx_bps as nat,
            )
            &&& c[4][0].text == "  Total     "@ && c[4][1].text == "↓ "@ && c[4][2].text
                == model::bytes_text(s.local_traffic.rx_bytes as nat)
            &&& c[5][1].text == "↑ "@ && c[5][2].text == model::bytes_text(
                s.local_traffic.tx_bytes as nat,
            )
        }),
{
}

/// The strip of the router says whether it is connected, switched off, without a password or in
/// error; its name and message; then how many clients it has, or how to set it up; and the first
/// error of the snapshot.
pub proof fn law_router_strip(s: model::NetworkSnapshotView, i: int)
    ensures
        ({
            let r = s.router;
            let t = router_strip(s);
            &&& t.len() >= 7 && t[0].text == " Router "@
            &&& r.connected ==> t[2].text == " ONLINE "@
            &&& !r.connected && !r.enabled ==> t[2].text == " OFF "@
            &&& !r.connected && r.enabled && (text::first_at(r.message, "no password"@, i)
                || text::first_at(r.message, "not connected"@, i)) ==> t[2].text == " SETUP "@
            &&& !r.connected && r.enabled && text::absent(r.message, "no password"@)
                && text::absent(r.message, "not connected"@) ==> t[2].text == " ERROR "@
            &&& t[4].text == match r.name {
                Some(n) => n,
                None => "none"@,
            }
            &&& t[6].text == r.message
            &&& r.connected ==> t[7].text == "  ·  "@ + number::decimal(r.device_count)
                + " clients"@
            &&& !r.connected && r.enabled ==> t[7].text == "  →  press c for setup"@
            &&& s.errors.len() > 0 ==> t.last().text == "  ! "@ + s.errors[0]
            &&& s.errors.len() == 0 && !r.connected && !r.enabled ==> t.len() == 7
            &&& s.errors.len() == 0 && (r.connected || r.enabled) ==> t.len() == 8
        }),
{
    text::law_find(s.router.message, "no password"@, i);
    text::law_find(s.router.message, "not connected"@, i);
}

/// The rows are numbered from one on, in the order of the devices. This machine has a star before
/// its name and the gateway a house, a device without a name a dash; this machine is cyan, another
/// one green while it is online and gray else.
pub proof fn law_device_rows(devices: Seq<model::DeviceView>, i: int)
    requires
        0 <= i < devices.len(),
    ensures
        ({
            let d = devices[i];
            let r = device_rows(devices)[i];
            let name = match d.hostname {
                Some(h) => h,
                None => "—"@,
            };
            &&& device_rows(devices).len() == devices.len()
            &&& r.cells[0] == number::decimal((i + 1) as nat)
            &&& d.is_self ==> r.cells[1] == "★ "@ + name && r.style.fg == Tint::Cyan
            &&& !d.is_self && d.is_gateway ==> r.cells[1] == "⌂ "@ + name
            &&& !d.is_self && !d.is_gateway ==> r.cells[1] == name
            &&& !d.is_self && d.online ==> r.style.fg == Tint::Green
            &&& !d.is_self && !d.online ==> r.style.fg == Tint::DarkGray
            &&& d.online ==> r.state_style.fg == Tint::Green
            &&& !d.online ==> r.state_style.fg == Tint::DarkGray
            &&& forall|k: int|
                2 <= k < 11 ==> #[trigger] r.cells[k] == report::device_cells(
                    (i + 1) as nat,
                    name,
                    d,
                    "—"@,
                )[k]
        }),
{
}

/// The title over the devices and the line below them count them and name their order.
pub proof fn law_title_and_footer(n: nat, sort: SortKey)
    ensures
        devices_title(n, sort) == " Devices ("@ + number::decimal(n) + ")  ·  sort: "@ + sort.name()
            + " "@,
        ({
            let f = footer(n, sort);
            &&& f.len() == 13
            &&& f[0].text == " "@ + "q"@ + " "@ && f[1].text == " "@ + "quit"@ + "  "@
            &&& f[2].text == " "@ + "r"@ + " "@ && f[3].text == " "@ + "refresh"@ + "  "@
            &&& f[4].text == " "@ + "s"@ + " "@ && f[5].text == " "@ + "sort"@ + "  "@
            &&& f[6].text == " "@ + "c"@ + " "@ && f[7].text == " "@ + "setup"@ + "  "@
            &&& f[8].text == " "@ + "↑↓"@ + " "@ && f[9].text == " "@ + "move"@ + "  "@
            &&& f[10].text == " "@ + "?"@ + " "@ && f[11].text == " "@ + "help"@ + "  "@
            &&& f[12].text == "· sort="@ + sort.name() + " · "@ + number::decimal(n)
                + " device(s)"@
        }),
{
}

/// The help names every key with what it does, and where the settings are kept.
pub proof fn law_help(path: Seq<char>)
    ensures
        ({
            let h = help(path);
            &&& h.len() == 20
            &&& h[0][0].text == "mywifistats help"@
            &&& h[10][0].text == "Data sources"@
            &&& h[11][0].text == "  • Local WiFi  — iw + interface stats (this machine traffic)"@
            &&& h[12][0].text == "  • LAN         — ip neigh (IP / MAC / vendor)"@
            &&& h[13][0].text == "  • Router      — ZTE F670L admin API when configured"@
            &&& h[15][0].text == "Setup"@
            &&& h[16][0].text == "  mywifistats setup     or press c in the dashboard"@
            &&& h[19][0].text == "Press ? to return"@
            &&& h[2][0].text == "  q / Esc     Quit (or close help)"@
            &&& h[3][0].text == "  r           Refresh snapshot now"@
            &&& h[4][0].text == "  s           Cycle sort (hostname → ip → mac → usage → link)"@
            &&& h[5][0].text == "  c           Open setup (interface + router credentials)"@
            &&& h[6][0].text == "  j / ↓       Next device"@
            &&& h[7][0].text == "  k / ↑       Previous device"@
            &&& h[8][0].text == "  ? / h       Toggle this help"@
            &&& h[17][0].text == "  Config: "@ + path
        }),
{
}

} // verus!

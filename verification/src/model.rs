//! Devices, counters and snapshots, and how they are written for people.

use crate::addr::IpAddr;
use crate::binary64;
use crate::number;
use crate::text;
use vstd::prelude::*;

verus! {

/// How a device is attached to the network.
#[derive(Debug, Clone, Copy, PartialEq, Eq, Structural)]
pub enum LinkKind {
    Wifi,
    Ethernet,
    Unknown,
}

impl LinkKind {
    /// The short name of the link.
    pub open spec fn name(self) -> Seq<char> {
        match self {
            LinkKind::Wifi => "WiFi"@,
            LinkKind::Ethernet => "ETH"@,
            LinkKind::Unknown => "?"@,
        }
    }

    /// The short name of the link.
    pub fn as_str(self) -> (r: &'static str)
        ensures
            r@ == self.name(),
    {
        match self {
            LinkKind::Wifi => "WiFi",
            LinkKind::Ethernet => "ETH",
            LinkKind::Unknown => "?",
        }
    }
}

/// The key by which a device list is sorted.
#[derive(Debug, Clone, Copy, PartialEq, Eq, Structural)]
pub enum SortKey {
    Hostname,
    Ip,
    Mac,
    Usage,
    Link,
}

impl SortKey {
    /// The key after this one in the cycle.
    pub open spec fn successor(self) -> SortKey {
        match self {
            SortKey::Hostname => SortKey::Ip,
            SortKey::Ip => SortKey::Mac,
            SortKey::Mac => SortKey::Usage,
            SortKey::Usage => SortKey::Link,
            SortKey::Link => SortKey::Hostname,
        }
    }

    /// The name of the key.
    pub open spec fn name(self) -> Seq<char> {
        match self {
            SortKey::Hostname => "hostname"@,
            SortKey::Ip => "ip"@,
            SortKey::Mac => "mac"@,
            SortKey::Usage => "usage"@,
            SortKey::Link => "link"@,
        }
    }

    /// The key after this one in the cycle.
    pub fn next(self) -> (r: SortKey)
        ensures
            r == self.successor(),
    {
        match self {
            SortKey::Hostname => SortKey::Ip,
            SortKey::Ip => SortKey::Mac,
            SortKey::Mac => SortKey::Usage,
            SortKey::Usage => SortKey::Link,
            SortKey::Link => SortKey::Hostname,
        }
    }

    /// The name of the key.
    pub fn label(self) -> (r: &'static str)
        ensures
            r@ == self.name(),
    {
        match self {
            SortKey::Hostname => "hostname",
            SortKey::Ip => "ip",
            SortKey::Mac => "mac",
            SortKey::Usage => "usage",
            SortKey::Link => "link",
        }
    }
}

// ---------------------------------------------------------------------------------------------
// Amounts

/// The number of times that `n` can be divided by 1024 before it falls below it, four at most.
pub open spec fn unit_index(n: nat) -> nat {
    if n < 1024 {
        0
    } else if n < 1024 * 1024 {
        1
    } else if n < 1024 * 1024 * 1024 {
        2
    } else if n < 1024 * 1024 * 1024 * 1024 {
        3
    } else {
        4
    }
}

/// The size of the binary unit number `i`.
pub open spec fn unit_size(i: nat) -> nat {
    if i == 0 {
        1
    } else if i == 1 {
        1024
    } else if i == 2 {
        1024 * 1024
    } else if i == 3 {
        1024 * 1024 * 1024
    } else {
        1024 * 1024 * 1024 * 1024
    }
}

/// The name of the binary unit number `i`.
pub open spec fn unit_name(i: nat) -> Seq<char> {
    if i == 0 {
        "B"@
    } else if i == 1 {
        "KiB"@
    } else if i == 2 {
        "MiB"@
    } else if i == 3 {
        "GiB"@
    } else {
        "TiB"@
    }
}

/// `n` in the largest binary unit that it reaches: the number itself in bytes, else with one
/// decimal. The number is taken as a double, and halves go to the even digit.
pub open spec fn amount(n: nat) -> Seq<char> {
    let i = unit_index(n);
    if i == 0 {
        number::decimal(n)
    } else {
        let tenths = binary64::half_even(10 * binary64::nearest_integer(n), unit_size(i));
        number::decimal(tenths / 10) + "."@ + number::decimal(tenths % 10)
    }
}

/// `n` bytes.
pub open spec fn bytes_text(n: nat) -> Seq<char> {
    amount(n) + " "@ + unit_name(unit_index(n))
}

/// `n` bytes per second.
pub open spec fn bps_text(n: nat) -> Seq<char> {
    amount(n) + " "@ + unit_name(unit_index(n)) + "/s"@
}

/// A duration: hours and minutes, minutes and seconds, or seconds.
pub open spec fn duration_text(secs: nat) -> Seq<char> {
    let h = secs / 3600;
    let m = secs % 3600 / 60;
    let s = secs % 60;
    if h > 0 {
        number::decimal(h) + "h"@ + number::two_digits(m) + "m"@
    } else if m > 0 {
        number::decimal(m) + "m"@ + number::two_digits(s) + "s"@
    } else {
        number::decimal(s) + "s"@
    }
}

fn unit_index_of(n: u64) -> (i: u64)
    ensures
        i == unit_index(n as nat),
{
    if n < 1024 {
        0
    } else if n < 1_048_576 {
        1
    } else if n < 1_073_741_824 {
        2
    } else if n < 1_099_511_627_776 {
        3
    } else {
        4
    }
}

fn unit_size_of(i: u64) -> (r: u128)
    ensures
        r == unit_size(i as nat),
        1 <= r <= 1_099_511_627_776,
{
    if i == 0 {
        1
    } else if i == 1 {
        1024
    } else if i == 2 {
        1_048_576
    } else if i == 3 {
        1_073_741_824
    } else {
        1_099_511_627_776
    }
}

fn unit_name_of(i: u64) -> (r: &'static str)
    ensures
        r@ == unit_name(i as nat),
{
    if i == 0 {
        "B"
    } else if i == 1 {
        "KiB"
    } else if i == 2 {
        "MiB"
    } else if i == 3 {
        "GiB"
    } else {
        "TiB"
    }
}

fn amount_of(n: u64) -> (out: String)
    ensures
        out@ == amount(n as nat),
{
    let i: u64 = unit_index_of(n);
    if i == 0 {
        number::decimal_of(n)
    } else {
        let size: u128 = unit_size_of(i);
        let tenths: u128 = binary64::half_even_of(10 * binary64::nearest_integer_of(n), size);
        proof {
            let top = 10 * binary64::nearest_integer(n as nat);
            let q = size as nat;
            assert(top / q <= top / 1024) by (nonlinear_arith)
                requires
                    q >= 1024,
                    top >= 0,
            ;
        }
        let t: u64 = tenths as u64;
        text::join3(
            number::decimal_of(t / 10).as_str(),
            ".",
            number::decimal_of(t % 10).as_str(),
        )
    }
}

/// `n` bytes in the largest binary unit that they reach.
pub fn format_bytes(n: u64) -> (out: String)
    ensures
        out@ == bytes_text(n as nat),
{
    text::join3(amount_of(n).as_str(), " ", unit_name_of(unit_index_of(n)))
}

/// `bps` bytes per second in the largest binary unit that they reach.
pub fn format_bps(bps: u64) -> (out: String)
    ensures
        out@ == bps_text(bps as nat),
{
    text::join2(format_bytes(bps).as_str(), "/s")
}

/// A duration of `secs` seconds.
pub fn format_duration(secs: u64) -> (out: String)
    ensures
        out@ == duration_text(secs as nat),
{
    let h: u64 = secs / 3600;
    let m: u64 = (secs % 3600) / 60;
    let s: u64 = secs % 60;
    if h > 0 {
        text::join2(
            text::join3(number::decimal_of(h).as_str(), "h", number::two_digits_of(m).as_str()).as_str(),
            "m",
        )
    } else if m > 0 {
        text::join2(
            text::join3(number::decimal_of(m).as_str(), "m", number::two_digits_of(s).as_str()).as_str(),
            "s",
        )
    } else {
        text::join2(number::decimal_of(s).as_str(), "s")
    }
}

// ---------------------------------------------------------------------------------------------
// Hardware addresses

/// The hexadecimal digits of `s`, in order and in lower case.
pub open spec fn hex_digits(s: Seq<char>) -> Seq<char>
    decreases s.len(),
{
    if s.len() == 0 {
        seq![]
    } else if text::is_hex_digit(s.last()) {
        hex_digits(s.drop_last()).push(text::lower_char(s.last()))
    } else {
        hex_digits(s.drop_last())
    }
}

/// Twelve digits in six pairs with colons between them.
pub open spec fn colon_pairs(hex: Seq<char>) -> Seq<char> {
    Seq::new(
        17,
        |i: int|
            if i % 3 == 2 {
                ':'
            } else {
                hex[i / 3 * 2 + i % 3]
            },
    )
}

/// The address that `mac` writes, in colon notation: a text with exactly twelve hexadecimal
/// digits, whatever stands between them.
pub open spec fn normalized(mac: Seq<char>) -> Option<Seq<char>> {
    let hex = hex_digits(mac);
    if hex.len() == 12 {
        Some(colon_pairs(hex))
    } else {
        None
    }
}

/// `s` is an address in colon notation: six pairs of hexadecimal digits in lower case.
pub open spec fn is_colon_address(s: Seq<char>) -> bool {
    &&& s.len() == 17
    &&& forall|i: int|
        0 <= i < 17 ==> if i % 3 == 2 {
            #[trigger] s[i] == ':'
        } else {
            '0' <= s[i] <= '9' || 'a' <= s[i] <= 'f'
        }
}

/// The hexadecimal digits of `s`, in order and in lower case.
pub fn hex_digits_of(s: &str) -> (out: Vec<char>)
    ensures
        out@ == hex_digits(s@),
{
    let mut out: Vec<char> = Vec::new();
    assert(hex_digits(s@.take(0)) =~= seq![]);
    for c in it: s.chars()
        invariant
            out@ == hex_digits(it.seq().take(it.index())),
            it.seq() == s@,
    {
        assert(it.seq().take(it.index() + 1).drop_last() =~= it.seq().take(it.index()));
        if text::is_hex_char(c) {
            out.push(text::lower_char_of(c));
        }
    }
    assert(s@.take(s@.len() as int) =~= s@);
    out
}

/// The address that `mac` writes, in colon notation.
pub fn normalize_mac(mac: &str) -> (r: Option<String>)
    ensures
        text::opt_text(r) == normalized(mac@),
{
    let hex: Vec<char> = hex_digits_of(mac);
    if hex.len() != 12 {
        return None;
    }
    let mut out: String = String::new();
    let mut i: usize = 0;
    while i < 17
        invariant
            i <= 17,
            hex@.len() == 12,
            out@ == colon_pairs(hex@).take(i as int),
        decreases 17 - i,
    {
        if i % 3 == 2 {
            out.push(':');
        } else {
            out.push(hex[i / 3 * 2 + i % 3]);
        }
        i = i + 1;
        assert(colon_pairs(hex@).take(i as int) =~= colon_pairs(hex@).take(i - 1).push(
            colon_pairs(hex@)[i - 1],
        ));
    }
    assert(colon_pairs(hex@).take(17) =~= colon_pairs(hex@));
    Some(out)
}

/// Every digit that `hex_digits` keeps is one in lower case.
proof fn lemma_hex_digits_are_lower(s: Seq<char>)
    ensures
        forall|i: int|
            0 <= i < hex_digits(s).len() ==> ('0' <= #[trigger] hex_digits(s)[i] <= '9' || 'a'
                <= hex_digits(s)[i] <= 'f'),
    decreases s.len(),
{
    if s.len() > 0 {
        lemma_hex_digits_are_lower(s.drop_last());
        let before = hex_digits(s.drop_last());
        let all = hex_digits(s);
        assert forall|i: int| 0 <= i < all.len() implies ('0' <= #[trigger] all[i] <= '9' || 'a'
            <= all[i] <= 'f') by {
            if i < before.len() {
                assert(all[i] == before[i]);
            } else {
                assert(all[i] == text::lower_char(s.last()));
            }
        }
    }
}

/// The digits of the first `n` characters of an address in colon notation.
proof fn lemma_digits_of_pairs(hex: Seq<char>, n: int)
    requires
        hex.len() == 12,
        0 <= n <= 17,
        forall|i: int| 0 <= i < 12 ==> ('0' <= #[trigger] hex[i] <= '9' || 'a' <= hex[i] <= 'f'),
    ensures
        hex_digits(colon_pairs(hex).take(n)) == hex.take(n / 3 * 2 + n % 3),
    decreases n,
{
    let t = colon_pairs(hex).take(n);
    if n == 0 {
        assert(hex_digits(t) =~= hex.take(0));
    } else {
        lemma_digits_of_pairs(hex, n - 1);
        assert(t.drop_last() =~= colon_pairs(hex).take(n - 1));
        let k = n / 3 * 2 + n % 3;
        if (n - 1) % 3 == 2 {
            assert(t.last() == ':');
        } else {
            assert(t.last() == hex[k - 1]);
            assert(hex.take(k) =~= hex.take(k - 1).push(hex[k - 1]));
        }
    }
}

/// Normalizing an address keeps its digits.
pub proof fn law_normalize_keeps_digits(mac: Seq<char>)
    requires
        normalized(mac) is Some,
    ensures
        hex_digits(normalized(mac).unwrap()) == hex_digits(mac),
{
    let hex = hex_digits(mac);
    lemma_hex_digits_are_lower(mac);
    lemma_digits_of_pairs(hex, 17);
    assert(colon_pairs(hex).take(17) =~= colon_pairs(hex));
    assert(hex.take(12) =~= hex);
}

/// A normalized address stands in colon notation, and normalizing it again changes nothing.
pub proof fn law_normalize_idempotent(mac: Seq<char>)
    requires
        normalized(mac) is Some,
    ensures
        is_colon_address(normalized(mac).unwrap()),
        normalized(normalized(mac).unwrap()) == normalized(mac),
{
    law_normalize_keeps_digits(mac);
    lemma_hex_digits_are_lower(mac);
}

/// Two notations have the same normal form exactly where they hold the same digits.
pub proof fn law_normalize_identifies(a: Seq<char>, b: Seq<char>)
    requires
        normalized(a) is Some,
        normalized(b) is Some,
    ensures
        normalized(a) == normalized(b) <==> hex_digits(a) == hex_digits(b),
{
    law_normalize_keeps_digits(a);
    law_normalize_keeps_digits(b);
}

// ---------------------------------------------------------------------------------------------
// Records

/// Bytes that an interface or a device has received and sent.
#[derive(Debug, Clone, Copy)]
pub struct TrafficCounters {
    pub rx_bytes: u64,
    pub tx_bytes: u64,
}

impl Default for TrafficCounters {
    fn default() -> (r: TrafficCounters)
        ensures
            r == (TrafficCounters { rx_bytes: 0, tx_bytes: 0 }),
    {
        TrafficCounters { rx_bytes: 0, tx_bytes: 0 }
    }
}

/// Bytes per second.
#[derive(Debug, Clone, Copy)]
pub struct TrafficRates {
    pub rx_bps: u64,
    pub tx_bps: u64,
}

impl Default for TrafficRates {
    fn default() -> (r: TrafficRates)
        ensures
            r == (TrafficRates { rx_bps: 0, tx_bps: 0 }),
    {
        TrafficRates { rx_bps: 0, tx_bps: 0 }
    }
}

/// A number with a fraction, as a command printed it.
///
/// The value itself is a floating-point number; what is decided and shown from it stands here.
#[derive(Debug, Clone)]
pub struct Reading {
    /// The text that was read.
    pub token: String,
    /// The value is above zero.
    pub positive: bool,
    /// The integer nearest to the value.
    pub nearest: u32,
    /// The value without decimals.
    pub shown: String,
}

/// The model of a [`Reading`].
pub struct ReadingView {
    pub token: Seq<char>,
    pub positive: bool,
    pub nearest: u32,
    pub shown: Seq<char>,
}

impl View for Reading {
    type V = ReadingView;

    open spec fn view(&self) -> ReadingView {
        ReadingView {
            token: self.token@,
            positive: self.positive,
            nearest: self.nearest,
            shown: self.shown@,
        }
    }
}

/// The model of a reading that may be missing.
pub open spec fn opt_reading(o: Option<Reading>) -> Option<ReadingView> {
    match o {
        Some(r) => Some(r@),
        None => None,
    }
}

impl Reading {
    /// A copy.
    pub fn copy(&self) -> (r: Reading)
        ensures
            r@ == self@,
    {
        Reading {
            token: self.token.clone(),
            positive: self.positive,
            nearest: self.nearest,
            shown: self.shown.clone(),
        }
    }
}

/// The wireless link of this machine.
#[derive(Debug, Clone)]
pub struct WifiLink {
    pub iface: String,
    pub ssid: Option<String>,
    pub bssid: Option<String>,
    pub freq_mhz: Option<u32>,
    pub channel: Option<u32>,
    pub channel_width_mhz: Option<u32>,
    pub signal_dbm: Option<i32>,
    pub rx_bitrate_mbps: Option<Reading>,
    pub tx_bitrate_mbps: Option<Reading>,
    pub connected_secs: Option<u64>,
    pub ip: Option<IpAddr>,
    pub gateway: Option<IpAddr>,
}

/// The model of a [`WifiLink`].
pub struct WifiLinkView {
    pub iface: Seq<char>,
    pub ssid: Option<Seq<char>>,
    pub bssid: Option<Seq<char>>,
    pub freq_mhz: Option<u32>,
    pub channel: Option<u32>,
    pub channel_width_mhz: Option<u32>,
    pub signal_dbm: Option<i32>,
    pub rx_bitrate_mbps: Option<ReadingView>,
    pub tx_bitrate_mbps: Option<ReadingView>,
    pub connected_secs: Option<u64>,
    pub ip: Option<IpAddr>,
    pub gateway: Option<IpAddr>,
}

impl View for WifiLink {
    type V = WifiLinkView;

    open spec fn view(&self) -> WifiLinkView {
        WifiLinkView {
            iface: self.iface@,
            ssid: text::opt_text(self.ssid),
            bssid: text::opt_text(self.bssid),
            freq_mhz: self.freq_mhz,
            channel: self.channel,
            channel_width_mhz: self.channel_width_mhz,
            signal_dbm: self.signal_dbm,
            rx_bitrate_mbps: opt_reading(self.rx_bitrate_mbps),
            tx_bitrate_mbps: opt_reading(self.tx_bitrate_mbps),
            connected_secs: self.connected_secs,
            ip: self.ip,
            gateway: self.gateway,
        }
    }
}

/// Where a device was seen.
#[derive(Debug, Clone, Copy, PartialEq, Eq, Structural)]
pub enum DeviceSource {
    Lan,
    Router,
    Merged,
    Local,
}

/// A device of the local network.
#[derive(Debug, Clone)]
pub struct Device {
    pub hostname: Option<String>,
    pub ip: Option<IpAddr>,
    pub mac: Option<String>,
    pub vendor: Option<String>,
    pub link: LinkKind,
    pub online: bool,
    pub is_self: bool,
    pub is_gateway: bool,
    /// The address of the device is on the block list of the router.
    pub blocked: bool,
    pub bytes_rx: Option<u64>,
    pub bytes_tx: Option<u64>,
    pub rate_rx_bps: Option<u64>,
    pub rate_tx_bps: Option<u64>,
    pub source: DeviceSource,
}

/// The model of a [`Device`].
pub struct DeviceView {
    pub hostname: Option<Seq<char>>,
    pub ip: Option<IpAddr>,
    pub mac: Option<Seq<char>>,
    pub vendor: Option<Seq<char>>,
    pub link: LinkKind,
    pub online: bool,
    pub is_self: bool,
    pub is_gateway: bool,
    pub blocked: bool,
    pub bytes_rx: Option<u64>,
    pub bytes_tx: Option<u64>,
    pub rate_rx_bps: Option<u64>,
    pub rate_tx_bps: Option<u64>,
    pub source: DeviceSource,
}

impl View for Device {
    type V = DeviceView;

    open spec fn view(&self) -> DeviceView {
        DeviceView {
            hostname: text::opt_text(self.hostname),
            ip: self.ip,
            mac: text::opt_text(self.mac),
            vendor: text::opt_text(self.vendor),
            link: self.link,
            online: self.online,
            is_self: self.is_self,
            is_gateway: self.is_gateway,
            blocked: self.blocked,
            bytes_rx: self.bytes_rx,
            bytes_tx: self.bytes_tx,
            rate_rx_bps: self.rate_rx_bps,
            rate_tx_bps: self.rate_tx_bps,
            source: self.source,
        }
    }
}

/// The models of a row of devices.
pub open spec fn device_views(v: Seq<Device>) -> Seq<DeviceView> {
    v.map_values(|d: Device| d@)
}

pub proof fn lemma_device_views_push(v: Seq<Device>, d: Device)
    ensures
        device_views(v.push(d)) == device_views(v).push(d@),
{
    assert(device_views(v.push(d)) =~= device_views(v).push(d@));
}

/// An entry of the block list of the router.
#[derive(Debug, Clone)]
pub struct BlockedDevice {
    /// The name of the rule on the router, by which it is removed.
    pub inst_id: String,
    pub name: String,
    pub mac: String,
    pub protocol: Option<String>,
    pub filter_type: Option<String>,
}

/// The model of a [`BlockedDevice`].
pub struct BlockedDeviceView {
    pub inst_id: Seq<char>,
    pub name: Seq<char>,
    pub mac: Seq<char>,
    pub protocol: Option<Seq<char>>,
    pub filter_type: Option<Seq<char>>,
}

impl View for BlockedDevice {
    type V = BlockedDeviceView;

    open spec fn view(&self) -> BlockedDeviceView {
        BlockedDeviceView {
            inst_id: self.inst_id@,
            name: self.name@,
            mac: self.mac@,
            protocol: text::opt_text(self.protocol),
            filter_type: text::opt_text(self.filter_type),
        }
    }
}

/// The models of a block list.
pub open spec fn blocked_views(v: Seq<BlockedDevice>) -> Seq<BlockedDeviceView> {
    v.map_values(|d: BlockedDevice| d@)
}

pub proof fn lemma_blocked_views_push(v: Seq<BlockedDevice>, d: BlockedDevice)
    ensures
        blocked_views(v.push(d)) == blocked_views(v).push(d@),
{
    assert(blocked_views(v.push(d)) =~= blocked_views(v).push(d@));
}

/// The state of the address filter of the router.
#[derive(Debug, Clone)]
pub struct MacFilterStatus {
    pub enabled: bool,
    /// "Discard" for a block list, "Accept" for an allow list.
    pub mode: String,
    pub can_block: bool,
}

/// The model of a [`MacFilterStatus`].
pub struct MacFilterStatusView {
    pub enabled: bool,
    pub mode: Seq<char>,
    pub can_block: bool,
}

impl View for MacFilterStatus {
    type V = MacFilterStatusView;

    open spec fn view(&self) -> MacFilterStatusView {
        MacFilterStatusView {
            enabled: self.enabled,
            mode: self.mode@,
            can_block: self.can_block,
        }
    }
}

impl Default for MacFilterStatus {
    fn default() -> (r: MacFilterStatus)
        ensures
            r@ == (MacFilterStatusView { enabled: false, mode: seq![], can_block: false }),
    {
        MacFilterStatus { enabled: false, mode: String::new(), can_block: false }
    }
}

/// What is known of the router.
#[derive(Debug, Clone)]
pub struct RouterStatus {
    pub enabled: bool,
    pub name: Option<String>,
    pub connected: bool,
    pub device_count: usize,
    pub per_host_traffic: bool,
    pub can_block: bool,
    pub message: String,
}

/// The model of a [`RouterStatus`].
pub struct RouterStatusView {
    pub enabled: bool,
    pub name: Option<Seq<char>>,
    pub connected: bool,
    pub device_count: nat,
    pub per_host_traffic: bool,
    pub can_block: bool,
    pub message: Seq<char>,
}

impl View for RouterStatus {
    type V = RouterStatusView;

    open spec fn view(&self) -> RouterStatusView {
        RouterStatusView {
            enabled: self.enabled,
            name: text::opt_text(self.name),
            connected: self.connected,
            device_count: self.device_count as nat,
            per_host_traffic: self.per_host_traffic,
            can_block: self.can_block,
            message: self.message@,
        }
    }
}

impl Default for RouterStatus {
    fn default() -> (r: RouterStatus)
        ensures
            r@ == (RouterStatusView {
                enabled: false,
                name: None,
                connected: false,
                device_count: 0,
                per_host_traffic: false,
                can_block: false,
                message: seq![],
            }),
    {
        RouterStatus {
            enabled: false,
            name: None,
            connected: false,
            device_count: 0,
            per_host_traffic: false,
            can_block: false,
            message: String::new(),
        }
    }
}

/// Everything that one collection found.
#[derive(Debug, Clone)]
pub struct NetworkSnapshot {
    /// Seconds since the Unix epoch.
    pub collected_at: u64,
    pub wifi: Option<WifiLink>,
    pub local_traffic: TrafficCounters,
    pub local_rates: TrafficRates,
    pub devices: Vec<Device>,
    pub blocked: Vec<BlockedDevice>,
    pub mac_filter: MacFilterStatus,
    pub router: RouterStatus,
    pub errors: Vec<String>,
}

/// The model of a [`NetworkSnapshot`].
pub struct NetworkSnapshotView {
    pub collected_at: u64,
    pub wifi: Option<WifiLinkView>,
    pub local_traffic: TrafficCounters,
    pub local_rates: TrafficRates,
    pub devices: Seq<DeviceView>,
    pub blocked: Seq<BlockedDeviceView>,
    pub mac_filter: MacFilterStatusView,
    pub router: RouterStatusView,
    pub errors: Seq<Seq<char>>,
}

/// The model of a link that may be missing.
pub open spec fn opt_link(o: Option<WifiLink>) -> Option<WifiLinkView> {
    match o {
        Some(w) => Some(w@),
        None => None,
    }
}

impl View for NetworkSnapshot {
    type V = NetworkSnapshotView;

    open spec fn view(&self) -> NetworkSnapshotView {
        NetworkSnapshotView {
            collected_at: self.collected_at,
            wifi: opt_link(self.wifi),
            local_traffic: self.local_traffic,
            local_rates: self.local_rates,
            devices: device_views(self.devices@),
            blocked: blocked_views(self.blocked@),
            mac_filter: self.mac_filter@,
            router: self.router@,
            errors: text::texts(self.errors@),
        }
    }
}

impl NetworkSnapshot {
    /// The snapshot that was collected at `collected_at` and holds nothing yet.
    pub fn empty(collected_at: u64) -> (r: NetworkSnapshot)
        ensures
            r@ == (NetworkSnapshotView {
                collected_at,
                wifi: None,
                local_traffic: TrafficCounters { rx_bytes: 0, tx_bytes: 0 },
                local_rates: TrafficRates { rx_bps: 0, tx_bps: 0 },
                devices: seq![],
                blocked: seq![],
                mac_filter: MacFilterStatusView {
                    enabled: false,
                    mode: seq![],
                    can_block: false,
                },
                router: RouterStatusView {
                    enabled: false,
                    name: None,
                    connected: false,
                    device_count: 0,
                    per_host_traffic: false,
                    can_block: false,
                    message: seq![],
                },
                errors: seq![],
            }),
    {
        let r: NetworkSnapshot = NetworkSnapshot {
            collected_at,
            wifi: None,
            local_traffic: TrafficCounters::default(),
            local_rates: TrafficRates::default(),
            devices: Vec::new(),
            blocked: Vec::new(),
            mac_filter: MacFilterStatus::default(),
            router: RouterStatus::default(),
            errors: Vec::new(),
        };
        assert(r@.devices =~= seq![]);
        assert(r@.blocked =~= seq![]);
        assert(r@.errors =~= seq![]);
        r
    }
}

/// Five steps through the cycle of keys lead back to the start, and no fewer do.
pub proof fn law_sort_key_cycle(k: SortKey)
    ensures
        k.successor().successor().successor().successor().successor() == k,
        k.successor() != k,
        k.successor().successor() != k,
        k.successor().successor().successor() != k,
        k.successor().successor().successor().successor() != k,
{
}

/// `s` writes `n` in units of `size` bytes, to the nearest tenth, followed by the unit.
pub open spec fn to_a_tenth(s: Seq<char>, n: nat, size: nat, unit: Seq<char>) -> bool {
    exists|t: nat|
        s == #[trigger] number::decimal(t / 10) + "."@ + number::decimal(t % 10) + " "@ + unit
            && 2 * size * t <= 20 * n + size && 20 * n <= 2 * size * t + size
}

proof fn lemma_to_a_tenth(n: nat, i: nat)
    requires
        n < 0x20_0000_0000_0000,
        unit_index(n) == i,
        i > 0,
    ensures
        to_a_tenth(bytes_text(n), n, unit_size(i), unit_name(i)),
{
    assert(binary64::down_shift(n, 1) == 0);
    assert(binary64::two_to(0) == 1);
    assert(binary64::nearest_integer(n) == n) by {
        assert(n / 1 == n && n % 1 == 0);
        assert(n * 1 == n);
    }
    let size = unit_size(i);
    let p = 10 * n;
    let whole = p / size;
    let rest = p % size;
    let t = binary64::half_even(p, size);
    assert(p == size * whole + rest && 0 <= rest < size) by (nonlinear_arith)
        requires
            whole == p / size,
            rest == p % size,
            size > 0,
    ;
    assert(size * (whole + 1) == size * whole + size) by (nonlinear_arith);
    assert(2 * size * t == 2 * (size * t)) by (nonlinear_arith);
    assert(bytes_text(n) == number::decimal(t / 10) + "."@ + number::decimal(t % 10) + " "@
        + unit_name(i));
}

/// Fewer than 1024 bytes are counted; more are written to the nearest tenth of the largest unit
/// that fits, a unit being 1024 of the one before it. From 2^53 bytes on the count is rounded to
/// 53 bits first.
pub proof fn law_bytes_text(n: nat)
    ensures
        n < 1024 ==> bytes_text(n) == number::decimal(n) + " "@ + "B"@,
        1024 <= n < 1_048_576 ==> to_a_tenth(bytes_text(n), n, 1024, "KiB"@),
        1_048_576 <= n < 1_073_741_824 ==> to_a_tenth(bytes_text(n), n, 1_048_576, "MiB"@),
        1_073_741_824 <= n < 1_099_511_627_776 ==> to_a_tenth(
            bytes_text(n),
            n,
            1_073_741_824,
            "GiB"@,
        ),
        1_099_511_627_776 <= n < 9_007_199_254_740_992 ==> to_a_tenth(
            bytes_text(n),
            n,
            1_099_511_627_776,
            "TiB"@,
        ),
        bps_text(n) == bytes_text(n) + "/s"@,
{
    if 1024 <= n < 0x20_0000_0000_0000 {
        lemma_to_a_tenth(n, unit_index(n));
    }
}

/// Hours, minutes and seconds: the seconds are left out where there are hours, and what stands
/// behind another number has two digits.
pub proof fn law_duration_text(h: nat, m: nat, s: nat)
    requires
        m < 60,
        s < 60,
    ensures
        h > 0 ==> duration_text(3600 * h + 60 * m + s) == number::decimal(h) + "h"@ + seq![
            ('0' as nat + m / 10) as char,
            ('0' as nat + m % 10) as char,
        ] + "m"@,
        h == 0 && m > 0 ==> duration_text(3600 * h + 60 * m + s) == number::decimal(m) + "m"@
            + seq![('0' as nat + s / 10) as char, ('0' as nat + s % 10) as char] + "s"@,
        h == 0 && m == 0 ==> duration_text(3600 * h + 60 * m + s) == number::decimal(s) + "s"@,
{
    let secs = 3600 * h + 60 * m + s;
    assert(secs / 3600 == h);
    assert(secs % 3600 / 60 == m);
    assert(secs % 60 == s);
    number::law_decimal(m / 10, m % 10);
    number::law_decimal(s / 10, s % 10);
}

/// The digits of an address are its hexadecimal characters in their order, in lower case.
pub proof fn law_hex_digits(a: Seq<char>, b: Seq<char>, c: char)
    ensures
        hex_digits(a + b) == hex_digits(a) + hex_digits(b),
        hex_digits(seq![]) == Seq::<char>::empty(),
        '0' <= c <= '9' || 'a' <= c <= 'f' ==> hex_digits(seq![c]) == seq![c],
        'A' <= c <= 'F' ==> hex_digits(seq![c]) == seq![(c as nat + 32) as char],
        !('0' <= c <= '9' || 'a' <= c <= 'f' || 'A' <= c <= 'F') ==> hex_digits(seq![c])
            == Seq::<char>::empty(),
    decreases b.len(),
{
    if b.len() == 0 {
        assert(a + b =~= a);
        assert(hex_digits(a) + hex_digits(b) =~= hex_digits(a));
    } else {
        law_hex_digits(a, b.drop_last(), c);
        assert((a + b).drop_last() =~= a + b.drop_last());
        assert((a + b).last() == b.last());
        assert(hex_digits(a + b) =~= hex_digits(a) + hex_digits(b));
    }
    assert(seq![c].drop_last() =~= seq![]);
    assert(seq![c].last() == c);
}

/// An address has a normal form exactly where it holds twelve digits: these, in pairs between
/// colons.
pub proof fn law_normal_form(mac: Seq<char>, i: int)
    ensures
        normalized(mac) is Some <==> hex_digits(mac).len() == 12,
        normalized(mac) matches Some(n) ==> n.len() == 17 && (0 <= i < 6 ==> n[3 * i] == hex_digits(
            mac,
        )[2 * i] && n[3 * i + 1] == hex_digits(mac)[2 * i + 1]) && (0 <= i < 5 ==> n[3 * i + 2]
            == ':'),
{
}

/// How links and orders are shown.
pub proof fn law_names()
    ensures
        LinkKind::Wifi.name() == "WiFi"@,
        LinkKind::Ethernet.name() == "ETH"@,
        LinkKind::Unknown.name() == "?"@,
        SortKey::Hostname.name() == "hostname"@,
        SortKey::Ip.name() == "ip"@,
        SortKey::Mac.name() == "mac"@,
        SortKey::Usage.name() == "usage"@,
        SortKey::Link.name() == "link"@,
        SortKey::Hostname.successor() == SortKey::Ip,
        SortKey::Ip.successor() == SortKey::Mac,
        SortKey::Mac.successor() == SortKey::Usage,
        SortKey::Usage.successor() == SortKey::Link,
        SortKey::Link.successor() == SortKey::Hostname,
{
}

} // verus!

//! Collecting snapshots.
//!
//! A [`Collector`] decides what a snapshot holds; reading files, running commands and talking to
//! the router is left to the caller, who hands over what came of it.

use crate::addr::IpAddr;
use crate::config;
use crate::config::Config;
use crate::lan;
use crate::merge;
use crate::model;
use crate::model::{
    BlockedDevice, Device, LinkKind, NetworkSnapshot, Reading, RouterStatus, SortKey, TrafficCounters,
    TrafficRates, WifiLink,
};
use crate::rate;
use crate::rate::{RateTracker, Sample};
use crate::report;
use crate::router;
use crate::router::devices;
use crate::router::filter;
use crate::router::RouterCaps;
use crate::sort;
use crate::text;
use crate::textmap;
use crate::wifi;
use crate::wifi::WifiOutputs;
use vstd::prelude::*;

verus! {

// ---------------------------------------------------------------------------------------------
// The interface

/// What is known of the interfaces of this machine.
pub struct InterfaceFacts {
    /// Whether the preferred interface exists.
    pub exists: bool,
    /// The output of `ip -br link`, or why there is none.
    pub links: Result<String, String>,
    /// The interfaces that have a directory for wireless settings.
    pub wireless: Vec<String>,
    /// The output of `ip route show default`, where it succeeded.
    pub route: Option<String>,
}

/// The interface that the command line or the settings prefer.
pub open spec fn preferred(c: config::ConfigView, given: Option<Seq<char>>) -> Option<Seq<char>> {
    match given {
        Some(i) => Some(i),
        None => c.interface,
    }
}

/// The interface to watch, or why there is none.
pub open spec fn chosen(
    c: config::ConfigView,
    given: Option<Seq<char>>,
    facts: InterfaceFacts,
) -> Result<Seq<char>, Seq<char>> {
    wifi::detected(
        preferred(c, given),
        facts.exists,
        wifi::result_text(facts.links),
        text::texts(facts.wireless@),
        text::opt_text(facts.route),
    )
}

/// The interface that the command line or the settings prefer.
pub fn preferred_interface(c: &Config, given: &Option<String>) -> (r: Option<String>)
    ensures
        text::opt_text(r) == preferred(c@, text::opt_text(*given)),
{
    match given {
        Some(i) => Some(i.clone()),
        None => c.interface.clone(),
    }
}

fn choose_interface(c: &Config, given: &Option<String>, facts: &InterfaceFacts) -> (r: Result<
    String,
    String,
>)
    ensures
        wifi::result_text(r) == chosen(c@, text::opt_text(*given), *facts),
{
    match preferred_interface(c, given) {
        Some(p) => wifi::detect_interface(
            Some(p.as_str()),
            facts.exists,
            &facts.links,
            &facts.wireless,
            &facts.route,
        ),
        None => wifi::detect_interface(
            None,
            facts.exists,
            &facts.links,
            &facts.wireless,
            &facts.route,
        ),
    }
}

// ---------------------------------------------------------------------------------------------
// What this machine sees

/// What files and commands gave.
pub struct Findings {
    pub wifi: WifiOutputs,
    /// The numbers with a fraction in the outputs, as [`wifi::fraction_tokens_of`] lists them.
    pub readings: Vec<Reading>,
    /// The counter files, where they could be read.
    pub rx_file: Option<String>,
    pub tx_file: Option<String>,
    /// The file of the hardware address, where it could be read.
    pub address_file: Option<String>,
    /// The output of `ip neigh show dev <iface>`, or why there is none.
    pub neighbors: Result<String, String>,
    /// The output of `hostname`, where it ran.
    pub hostname: Option<String>,
}

/// What this machine sees by itself.
pub struct Survey {
    pub wifi: WifiLink,
    pub traffic: TrafficCounters,
    pub rates: TrafficRates,
    /// The devices of the local network. Names may still be filled in.
    pub devices: Vec<Device>,
    pub self_mac: Option<String>,
    pub errors: Vec<String>,
}

/// The model of a [`Survey`].
pub struct SurveyView {
    pub wifi: model::WifiLinkView,
    pub traffic: TrafficCounters,
    pub rates: TrafficRates,
    pub devices: Seq<model::DeviceView>,
    pub self_mac: Option<Seq<char>>,
    pub errors: Seq<Seq<char>>,
}

impl View for Survey {
    type V = SurveyView;

    open spec fn view(&self) -> SurveyView {
        SurveyView {
            wifi: self.wifi@,
            traffic: self.traffic,
            rates: self.rates,
            devices: model::device_views(self.devices@),
            self_mac: text::opt_text(self.self_mac),
            errors: text::texts(self.errors@),
        }
    }
}

/// The counters of this machine at the moment `now`, as far as they could be read.
pub open spec fn local_sample(iface: Seq<char>, f: Findings, now: u64) -> Option<Sample> {
    match wifi::traffic(iface, text::opt_text(f.rx_file), text::opt_text(f.tx_file)) {
        Ok(counters) => Some(Sample { counters, at: now }),
        Err(_) => None,
    }
}

/// The rates of this machine since its last sample.
pub open spec fn rates_since(last: Option<Sample>, now: Option<Sample>) -> TrafficRates {
    match (last, now) {
        (Some(a), Some(b)) => rate::rates_between(a, b),
        _ => TrafficRates { rx_bps: 0, tx_bps: 0 },
    }
}

/// The message of a counter that could not be read.
pub open spec fn traffic_errors(iface: Seq<char>, f: Findings) -> Seq<Seq<char>> {
    match wifi::traffic(iface, text::opt_text(f.rx_file), text::opt_text(f.tx_file)) {
        Ok(_) => seq![],
        Err(e) => seq!["traffic: "@ + e],
    }
}

/// What this machine sees by itself; `last` is its last sample.
pub open spec fn surveyed(iface: Seq<char>, f: Findings, last: Option<Sample>, now: u64) -> SurveyView {
    let link = wifi::described_link(iface, f.wifi, wifi::reading_views(f.readings@));
    let mac = wifi::hardware_address(text::opt_text(f.address_file));
    let sample = local_sample(iface, f, now);
    SurveyView {
        wifi: link,
        traffic: match sample {
            Some(s) => s.counters,
            None => TrafficCounters { rx_bytes: 0, tx_bytes: 0 },
        },
        rates: rates_since(last, sample),
        devices: match f.neighbors {
            Ok(out) => lan::local_network(
                out@,
                link.gateway,
                link.ip,
                mac,
                lan::local_name(text::opt_text(f.hostname)),
            ),
            Err(_) => seq![],
        },
        self_mac: match mac {
            Some(m) => model::normalized(m),
            None => None,
        },
        errors: match f.neighbors {
            Ok(_) => traffic_errors(iface, f),
            Err(e) => traffic_errors(iface, f).push("lan: "@ + e@),
        },
    }
}

// ---------------------------------------------------------------------------------------------
// What the router says

/// What to log in to.
pub struct Opening {
    pub base_url: String,
    pub username: String,
    pub password: String,
}

/// The next thing to ask of a router.
#[derive(Debug, Clone, Copy, PartialEq, Eq, Structural)]
pub enum Visit {
    Login,
    ListDevices,
    ListBlocked,
    Leave,
}

/// The next thing to ask of a router during one collection: a login, once, where it is not logged
/// in; then, where it is, its devices, once, and after them its block list, once, where it is known
/// to show one.
pub open spec fn visit(
    logged_in: bool,
    login_tried: bool,
    listed: bool,
    blocked_asked: bool,
    can_block: bool,
) -> Visit {
    if !logged_in && !login_tried && !listed && !blocked_asked {
        Visit::Login
    } else if logged_in && !listed {
        Visit::ListDevices
    } else if logged_in && can_block && !blocked_asked {
        Visit::ListBlocked
    } else {
        Visit::Leave
    }
}

/// The next thing to ask of a router during one collection: `listed` and `blocked_asked` say whether
/// it was asked for its devices and for its block list, and `can_block` whether the session, before
/// it was asked for the devices, knew that the router shows its block list.
pub fn next_visit(
    logged_in: bool,
    login_tried: bool,
    listed: bool,
    blocked_asked: bool,
    can_block: bool,
) -> (r: Visit)
    ensures
        r == visit(logged_in, login_tried, listed, blocked_asked, can_block),
{
    if !logged_in && !login_tried && !listed && !blocked_asked {
        Visit::Login
    } else if logged_in && !listed {
        Visit::ListDevices
    } else if logged_in && can_block && !blocked_asked {
        Visit::ListBlocked
    } else {
        Visit::Leave
    }
}

/// What came of the visits to a router.
pub struct RouterReport {
    pub name: String,
    /// Why the login failed, where it was tried and did.
    pub login_error: Option<String>,
    /// The devices, or why there are none; nothing where they were not asked for.
    pub devices: Option<Result<Vec<Device>, String>>,
    /// The block list, or why there is none; nothing where it was not asked for.
    pub blocked: Option<Result<Vec<BlockedDevice>, String>>,
    /// What the router can do, as the session knew it before it asked for the block list.
    pub caps: RouterCaps,
}

/// The model of a [`RouterReport`].
pub struct RouterReportView {
    pub name: Seq<char>,
    pub login_error: Option<Seq<char>>,
    pub devices: Option<Result<Seq<model::DeviceView>, Seq<char>>>,
    pub blocked: Option<Result<Seq<model::BlockedDeviceView>, Seq<char>>>,
    pub caps: router::RouterCapsView,
}

impl View for RouterReport {
    type V = RouterReportView;

    open spec fn view(&self) -> RouterReportView {
        RouterReportView {
            name: self.name@,
            login_error: text::opt_text(self.login_error),
            devices: match self.devices {
                Some(r) => Some(devices::result_views(r)),
                None => None,
            },
            blocked: match self.blocked {
                Some(Ok(list)) => Some(Ok(model::blocked_views(list@))),
                Some(Err(e)) => Some(Err(e@)),
                None => None,
            },
            caps: self.caps@,
        }
    }
}

/// The model of a report that may be missing.
pub open spec fn opt_report(r: Option<RouterReport>) -> Option<RouterReportView> {
    match r {
        Some(r) => Some(r@),
        None => None,
    }
}

/// What is said of a router that was not asked.
pub open spec fn idle_message(no_router: bool, enabled: bool, password: bool) -> Seq<char> {
    if no_router {
        "disabled (--no-router)"@
    } else if !enabled {
        "disabled in config"@
    } else if !password {
        "no password (set MYWIFISTATS_ROUTER_PASSWORD or config)"@
    } else {
        "connecting…"@
    }
}

/// What is known of the router after the visits.
pub open spec fn router_status(
    no_router: bool,
    enabled: bool,
    password: bool,
    report: Option<RouterReportView>,
) -> model::RouterStatusView {
    let idle = model::RouterStatusView {
        enabled: enabled && !no_router,
        name: Some("ZTE F670L"@),
        connected: false,
        device_count: 0,
        per_host_traffic: false,
        can_block: false,
        message: idle_message(no_router, enabled, password),
    };
    match report {
        None => idle,
        Some(r) => {
            let tried = model::RouterStatusView {
                name: Some(r.name),
                message: match r.login_error {
                    Some(e) => "login failed: "@ + e,
                    None => idle.message,
                },
                ..idle
            };
            match r.devices {
                Some(Ok(found)) => model::RouterStatusView {
                    connected: true,
                    device_count: found.len(),
                    per_host_traffic: r.caps.per_host_traffic,
                    can_block: match r.blocked {
                        Some(list) => list is Ok,
                        None => r.caps.can_block,
                    },
                    message: r.caps.message,
                    ..tried
                },
                Some(Err(e)) => model::RouterStatusView {
                    message: "device list failed: "@ + e,
                    ..tried
                },
                None => model::RouterStatusView {
                    message: if text::starts_with(tried.message, "connecting"@) {
                        r.caps.message
                    } else {
                        tried.message
                    },
                    ..tried
                },
            }
        },
    }
}

/// The messages of visits that failed.
pub open spec fn router_errors(report: Option<RouterReportView>) -> Seq<Seq<char>> {
    match report {
        None => seq![],
        Some(r) => {
            let a: Seq<Seq<char>> = match r.login_error {
                Some(e) => seq!["router login: "@ + e],
                None => seq![],
            };
            let b = match r.devices {
                Some(Err(e)) => a.push("router devices: "@ + e),
                _ => a,
            };
            match r.blocked {
                Some(Err(e)) => b.push("router block list: "@ + e),
                _ => b,
            }
        },
    }
}

/// The devices that the router listed.
pub open spec fn router_devices(report: Option<RouterReportView>) -> Seq<model::DeviceView> {
    match report {
        Some(RouterReportView { devices: Some(Ok(found)), .. }) => found,
        _ => seq![],
    }
}

/// The block list of the router; an empty one where it is not known.
pub open spec fn block_list_of(report: Option<RouterReportView>) -> Seq<model::BlockedDeviceView> {
    match report {
        Some(RouterReportView { blocked: Some(Ok(list)), .. }) => list,
        _ => seq![],
    }
}

// ---------------------------------------------------------------------------------------------
// The snapshot

/// The device has an address that is on the block list.
pub open spec fn is_blocked(
    d: model::DeviceView,
    list: Seq<model::BlockedDeviceView>,
) -> bool {
    d.mac is Some && filter::blocks(list, d.mac.unwrap())
}

/// A device, marked as blocked exactly where its address is on the block list.
pub open spec fn with_block(
    d: model::DeviceView,
    list: Seq<model::BlockedDeviceView>,
) -> model::DeviceView {
    model::DeviceView { blocked: is_blocked(d, list), ..d }
}

/// The devices, held against the block list.
pub open spec fn all_with_block(
    ds: Seq<model::DeviceView>,
    list: Seq<model::BlockedDeviceView>,
) -> Seq<model::DeviceView> {
    ds.map_values(|d: model::DeviceView| with_block(d, list))
}

/// A device with the counters of this machine, where it is this machine.
pub open spec fn with_traffic(
    d: model::DeviceView,
    traffic: TrafficCounters,
    rates: TrafficRates,
) -> model::DeviceView {
    if d.is_self {
        model::DeviceView {
            bytes_rx: Some(traffic.rx_bytes),
            bytes_tx: Some(traffic.tx_bytes),
            rate_rx_bps: Some(rates.rx_bps),
            rate_tx_bps: Some(rates.tx_bps),
            link: LinkKind::Wifi,
            ..d
        }
    } else {
        d
    }
}

/// The devices with the counters of this machine on it.
pub open spec fn all_with_traffic(
    ds: Seq<model::DeviceView>,
    traffic: TrafficCounters,
    rates: TrafficRates,
) -> Seq<model::DeviceView> {
    ds.map_values(|d: model::DeviceView| with_traffic(d, traffic, rates))
}

/// The sample of a device that has counters.
pub open spec fn device_sample(d: model::DeviceView, now: u64) -> Option<Sample> {
    match (d.bytes_rx, d.bytes_tx) {
        (Some(rx), Some(tx)) => Some(
            Sample { counters: TrafficCounters { rx_bytes: rx, tx_bytes: tx }, at: now },
        ),
        _ => None,
    }
}

/// A device with its rates since the last sample under its hardware address, where it has none yet.
pub open spec fn with_rates(
    d: model::DeviceView,
    last: Seq<(Seq<char>, Sample)>,
    now: u64,
) -> model::DeviceView {
    match (d.mac, device_sample(d, now)) {
        (Some(mac), Some(sample)) => match textmap::lookup(last, mac) {
            Some(before) => model::DeviceView {
                rate_rx_bps: merge::either(
                    d.rate_rx_bps,
                    Some(rate::rates_between(before, sample).rx_bps),
                ),
                rate_tx_bps: merge::either(
                    d.rate_tx_bps,
                    Some(rate::rates_between(before, sample).tx_bps),
                ),
                ..d
            },
            None => d,
        },
        _ => d,
    }
}

/// The last samples after the device was sampled.
pub open spec fn samples_after(
    d: model::DeviceView,
    last: Seq<(Seq<char>, Sample)>,
    now: u64,
) -> Seq<(Seq<char>, Sample)> {
    match (d.mac, device_sample(d, now)) {
        (Some(mac), Some(sample)) => textmap::put(last, mac, sample),
        _ => last,
    }
}

/// The devices with their rates, and the last samples after that.
pub open spec fn sampled(
    ds: Seq<model::DeviceView>,
    last: Seq<(Seq<char>, Sample)>,
    now: u64,
) -> (Seq<model::DeviceView>, Seq<(Seq<char>, Sample)>)
    decreases ds.len(),
{
    if ds.len() == 0 {
        (seq![], last)
    } else {
        let (before, samples) = sampled(ds.drop_last(), last, now);
        let d = ds.last();
        (before.push(with_rates(d, samples, now)), samples_after(d, samples, now))
    }
}

/// The devices of a snapshot before they are sorted.
pub open spec fn gathered(s: SurveyView, report: Option<RouterReportView>) -> Seq<
    model::DeviceView,
> {
    all_with_block(
        merge::merged(
            all_with_traffic(s.devices, s.traffic, s.rates),
            router_devices(report),
            s.wifi.gateway,
            s.self_mac,
        ),
        block_list_of(report),
    )
}

/// The snapshot of what this machine saw and what came of the visits to the router.
pub open spec fn snapshot(
    s: SurveyView,
    report: Option<RouterReportView>,
    status: model::RouterStatusView,
    last: Seq<(Seq<char>, Sample)>,
    collected_at: u64,
    now: u64,
) -> model::NetworkSnapshotView {
    model::NetworkSnapshotView {
        collected_at,
        wifi: Some(s.wifi),
        local_traffic: s.traffic,
        local_rates: s.rates,
        devices: sort::sorted(
            sampled(gathered(s, report), last, now).0,
            SortKey::Hostname,
        ),
        blocked: block_list_of(report),
        mac_filter: model::MacFilterStatusView { enabled: false, mode: seq![], can_block: false },
        router: status,
        errors: s.errors + router_errors(report),
    }
}

fn attach_traffic(d: &mut Device, traffic: &TrafficCounters, rates: &TrafficRates)
    ensures
        final(d)@ == with_traffic(old(d)@, *traffic, *rates),
{
    if d.is_self {
        d.bytes_rx = Some(traffic.rx_bytes);
        d.bytes_tx = Some(traffic.tx_bytes);
        d.rate_rx_bps = Some(rates.rx_bps);
        d.rate_tx_bps = Some(rates.tx_bps);
        d.link = LinkKind::Wifi;
    }
}

fn attach_all(devices: Vec<Device>, traffic: &TrafficCounters, rates: &TrafficRates) -> (out: Vec<
    Device,
>)
    ensures
        model::device_views(out@) == all_with_traffic(
            model::device_views(devices@),
            *traffic,
            *rates,
        ),
{
    let ghost given = devices@;
    let ghost n = given.len() as int;
    let mut rest: Vec<Device> = devices;
    let mut out: Vec<Device> = Vec::new();
    while rest.len() > 0
        invariant
            rest@.len() <= n == given.len(),
            rest@ == given.skip(n - rest@.len()),
            out@.len() == n - rest@.len(),
            forall|k: int|
                0 <= k < out@.len() ==> (#[trigger] out@[k])@ == with_traffic(
                    given[k]@,
                    *traffic,
                    *rates,
                ),
        decreases rest@.len(),
    {
        let ghost k = n - rest@.len();
        let mut d: Device = rest.remove(0);
        assert(d == given[k]);
        assert(rest@ =~= given.skip(k + 1));
        attach_traffic(&mut d, traffic, rates);
        out.push(d);
    }
    assert(model::device_views(out@) =~= all_with_traffic(
        model::device_views(given),
        *traffic,
        *rates,
    ));
    out
}

fn mark_blocked(devices: Vec<Device>, list: &Vec<BlockedDevice>) -> (out: Vec<Device>)
    ensures
        model::device_views(out@) == all_with_block(
            model::device_views(devices@),
            model::blocked_views(list@),
        ),
{
    let ghost given = devices@;
    let ghost rules = model::blocked_views(list@);
    let ghost n = given.len() as int;
    let mut rest: Vec<Device> = devices;
    let mut out: Vec<Device> = Vec::new();
    while rest.len() > 0
        invariant
            rules == model::blocked_views(list@),
            rest@.len() <= n == given.len(),
            rest@ == given.skip(n - rest@.len()),
            out@.len() == n - rest@.len(),
            forall|k: int|
                0 <= k < out@.len() ==> (#[trigger] out@[k])@ == with_block(given[k]@, rules),
        decreases rest@.len(),
    {
        let ghost k = n - rest@.len();
        let mut d: Device = rest.remove(0);
        assert(d == given[k]);
        assert(rest@ =~= given.skip(k + 1));
        let blocked: bool = match &d.mac {
            Some(m) => filter::blocks_of(list, m.as_str()),
            None => false,
        };
        d.blocked = blocked;
        out.push(d);
    }
    assert(model::device_views(out@) =~= all_with_block(model::device_views(given), rules));
    out
}

fn attach_rates(rates: &mut RateTracker, d: &mut Device, now: u64)
    ensures
        final(d)@ == with_rates(old(d)@, old(rates).last_devices(), now),
        final(rates).last_devices() == samples_after(old(d)@, old(rates).last_devices(), now),
        final(rates).last_local() == old(rates).last_local(),
{
    let mac: Option<String> = d.mac.clone();
    if let Some(m) = mac {
        let (rx, tx) = rates.update_device(m.as_str(), d.bytes_rx, d.bytes_tx, now);
        if d.rate_rx_bps.is_none() {
            d.rate_rx_bps = rx;
        }
        if d.rate_tx_bps.is_none() {
            d.rate_tx_bps = tx;
        }
    }
}

fn sample_all(rates: &mut RateTracker, devices: Vec<Device>, now: u64) -> (out: Vec<Device>)
    ensures
        (model::device_views(out@), final(rates).last_devices()) == sampled(
            model::device_views(devices@),
            old(rates).last_devices(),
            now,
        ),
        final(rates).last_local() == old(rates).last_local(),
{
    let ghost given = devices@;
    let ghost all = model::device_views(given);
    let ghost n = given.len() as int;
    let ghost last = rates.last_devices();
    let ghost local = rates.last_local();
    let mut rest: Vec<Device> = devices;
    let mut out: Vec<Device> = Vec::new();
    assert(all.take(0) =~= seq![]);
    assert(model::device_views(out@) =~= seq![]);
    while rest.len() > 0
        invariant
            rest@.len() <= n == given.len(),
            all == model::device_views(given),
            rest@ == given.skip(n - rest@.len()),
            rates.last_local() == local,
            (model::device_views(out@), rates.last_devices()) == sampled(
                all.take(n - rest@.len()),
                last,
                now,
            ),
        decreases rest@.len(),
    {
        let ghost k = n - rest@.len();
        let mut d: Device = rest.remove(0);
        assert(d == given[k]);
        assert(all[k] == d@);
        assert(rest@ =~= given.skip(k + 1));
        assert(all.take(k + 1).drop_last() =~= all.take(k));
        attach_rates(rates, &mut d, now);
        proof {
            model::lemma_device_views_push(out@, d);
        }
        out.push(d);
    }
    assert(all.take(n) =~= all);
    out
}

// ---------------------------------------------------------------------------------------------
// The collector

/// What is kept between two snapshots.
pub struct Collector {
    iface: String,
    config: Config,
    rates: RateTracker,
    has_router: bool,
    router_init_attempted: bool,
    no_router: bool,
}

/// The model of a [`Collector`].
pub struct CollectorView {
    pub iface: Seq<char>,
    pub config: config::ConfigView,
    /// The last sample of this machine.
    pub last_local: Option<Sample>,
    /// The last sample of each device, by its hardware address.
    pub last_devices: Seq<(Seq<char>, Sample)>,
    /// There is a session with the router.
    pub has_router: bool,
    /// A session with the router was asked for.
    pub router_init_attempted: bool,
    pub no_router: bool,
}

impl View for Collector {
    type V = CollectorView;

    closed spec fn view(&self) -> CollectorView {
        CollectorView {
            iface: self.iface@,
            config: self.config@,
            last_local: self.rates.last_local(),
            last_devices: self.rates.last_devices(),
            has_router: self.has_router,
            router_init_attempted: self.router_init_attempted,
            no_router: self.no_router,
        }
    }
}

/// The settings name a kind of router that is known.
pub open spec fn is_known_backend(backend: Seq<char>) -> bool {
    backend == "zte_f670l"@ || backend == "zte"@ || backend.len() == 0
}

/// A session with the router is to be opened: the router is used, there is neither a session nor a
/// failed attempt, and the settings suffice.
pub open spec fn wants_router(c: CollectorView, password: Option<Seq<char>>) -> bool {
    &&& !c.no_router
    &&& c.config.router.enabled
    &&& !c.has_router
    &&& !c.router_init_attempted
    &&& password is Some
    &&& is_known_backend(c.config.router.backend)
}

impl Collector {
    /// A collector for the interface that the settings, or `iface_override` before them, name, or
    /// else for one that is found.
    pub fn new(
        config: Config,
        iface_override: Option<String>,
        no_router: bool,
        facts: &InterfaceFacts,
    ) -> (r: Result<Collector, String>)
        ensures
            match chosen(config@, text::opt_text(iface_override), *facts) {
                Ok(iface) => r matches Ok(c) && c@ == (CollectorView {
                    iface,
                    config: config@,
                    last_local: None,
                    last_devices: Seq::<(Seq<char>, Sample)>::empty(),
                    has_router: false,
                    router_init_attempted: false,
                    no_router,
                }),
                Err(e) => r matches Err(m) && m@ == e,
            },
    {
        match choose_interface(&config, &iface_override, facts) {
            Ok(iface) => Ok(
                Collector {
                    iface,
                    config,
                    rates: RateTracker::new(),
                    has_router: false,
                    router_init_attempted: false,
                    no_router,
                },
            ),
            Err(e) => Err(e),
        }
    }

    /// The settings.
    pub fn config(&self) -> (r: &Config)
        ensures
            r@ == self@.config,
    {
        &self.config
    }

    /// The interface.
    pub fn interface(&self) -> (r: &String)
        ensures
            r@ == self@.iface,
    {
        &self.iface
    }

    /// The diagnosis of the snapshot that was collected last. `config_path` is where the settings are
    /// kept, and `variable` is the password of the environment.
    pub fn doctor_report(
        &self,
        snap: &NetworkSnapshot,
        config_path: &str,
        variable: &Option<String>,
    ) -> (r: String)
        ensures
            r@ == report::doctor_text(
                self@.iface,
                snap@,
                config_path@,
                self@.config.router.enabled && config::password(
                    self@.config,
                    text::opt_text(*variable),
                ) is None,
            ),
    {
        report::doctor_report(
            self.iface.as_str(),
            snap,
            config_path,
            self.config.needs_setup_hint(variable),
        )
    }

    /// Takes over new settings and forgets the session with the router. Nothing changes where no
    /// interface is found.
    pub fn reconfigure(&mut self, config: Config, facts: &InterfaceFacts) -> (r: Result<(), String>)
        ensures
            match chosen(config@, None, *facts) {
                Ok(iface) => r is Ok && final(self)@ == (CollectorView {
                    iface,
                    config: config@,
                    has_router: false,
                    router_init_attempted: false,
                    ..old(self)@
                }),
                Err(e) => r matches Err(m) && m@ == e && final(self)@ == old(self)@,
            },
    {
        match choose_interface(&config, &None, facts) {
            Ok(iface) => {
                self.iface = iface;
                self.config = config;
                self.has_router = false;
                self.router_init_attempted = false;
                Ok(())
            },
            Err(e) => Err(e),
        }
    }

    /// Whether a session with the router is to be opened, and with what; it is asked for once.
    pub fn ensure_router(&mut self, password: &Option<String>) -> (r: Option<Opening>)
        ensures
            r is Some <==> wants_router(old(self)@, text::opt_text(*password)),
            r matches Some(o) ==> {
                &&& o.base_url@ == old(self)@.config.router.base_url
                &&& o.username@ == old(self)@.config.router.username
                &&& Some(o.password@) == text::opt_text(*password)
            },
            final(self)@ == (CollectorView {
                router_init_attempted: old(self)@.router_init_attempted || (!old(self)@.no_router
                    && old(self)@.config.router.enabled && !old(self)@.has_router),
                ..old(self)@
            }),
    {
        if self.no_router || !self.config.router.enabled {
            return None;
        }
        if self.has_router || self.router_init_attempted {
            return None;
        }
        self.router_init_attempted = true;
        match password {
            None => None,
            Some(p) => {
                let backend: &str = self.config.router.backend.as_str();
                if text::same_text(backend, "zte_f670l") || text::same_text(backend, "zte")
                    || backend.is_empty() {
                    Some(
                        Opening {
                            base_url: self.config.router.base_url.clone(),
                            username: self.config.router.username.clone(),
                            password: p.clone(),
                        },
                    )
                } else {
                    None
                }
            },
        }
    }

    /// There is a session with the router now.
    pub fn router_opened(&mut self)
        ensures
            final(self)@ == (CollectorView { has_router: true, ..old(self)@ }),
    {
        self.has_router = true;
    }

    /// What this machine sees at the moment `now`, in nanoseconds of a steady clock.
    pub fn survey(&mut self, f: &Findings, now: u64) -> (r: Survey)
        ensures
            r@ == surveyed(old(self)@.iface, *f, old(self)@.last_local, now),
            final(self)@ == (CollectorView {
                last_local: match local_sample(old(self)@.iface, *f, now) {
                    Some(s) => Some(s),
                    None => old(self)@.last_local,
                },
                ..old(self)@
            }),
    {
        let link: WifiLink = wifi::collect_wifi(self.iface.as_str(), &f.wifi, &f.readings);
        let mut errors: Vec<String> = Vec::new();
        assert(text::texts(errors@) =~= seq![]);
        let mut traffic: TrafficCounters = TrafficCounters { rx_bytes: 0, tx_bytes: 0 };
        let mut rates: TrafficRates = TrafficRates { rx_bps: 0, tx_bps: 0 };
        match wifi::read_traffic(self.iface.as_str(), &f.rx_file, &f.tx_file) {
            Ok(t) => {
                rates = self.rates.update_local(&t, now);
                traffic = t;
            },
            Err(e) => {
                let message: String = text::join2("traffic: ", e.as_str());
                proof {
                    text::lemma_texts_push(errors@, message);
                }
                errors.push(message);
                assert(text::texts(errors@) =~= seq![message@]);
            },
        }
        let mac: Option<String> = wifi::local_mac(&f.address_file);
        let gateway: Option<IpAddr> = link.gateway;
        let self_ip: Option<IpAddr> = link.ip;
        let mut devices: Vec<Device> = Vec::new();
        assert(model::device_views(devices@) =~= seq![]);
        match &f.neighbors {
            Ok(out) => {
                devices =
                lan::discover_neighbors(out.as_str(), gateway, self_ip, &mac, &f.hostname);
            },
            Err(e) => {
                let message: String = text::join2("lan: ", e.as_str());
                proof {
                    text::lemma_texts_push(errors@, message);
                }
                errors.push(message);
            },
        }
        let self_mac: Option<String> = match &mac {
            Some(m) => model::normalize_mac(m.as_str()),
            None => None,
        };
        Survey { wifi: link, traffic, rates, devices, self_mac, errors }
    }

    fn status(&self, password: bool, report: &Option<RouterReport>) -> (r: RouterStatus)
        ensures
            r@ == router_status(
                self@.no_router,
                self@.config.router.enabled,
                password,
                opt_report(*report),
            ),
    {
        let enabled: bool = self.config.router.enabled;
        let message: String = if self.no_router {
            "disabled (--no-router)".to_owned()
        } else if !enabled {
            "disabled in config".to_owned()
        } else if !password {
            "no password (set MYWIFISTATS_ROUTER_PASSWORD or config)".to_owned()
        } else {
            "connecting…".to_owned()
        };
        let mut status: RouterStatus = RouterStatus {
            enabled: enabled && !self.no_router,
            name: Some("ZTE F670L".to_owned()),
            connected: false,
            device_count: 0,
            per_host_traffic: false,
            can_block: false,
            message,
        };
        if let Some(r) = report {
            status.name = Some(r.name.clone());
            if let Some(e) = &r.login_error {
                status.message = text::join2("login failed: ", e.as_str());
            }
            match &r.devices {
                Some(Ok(found)) => {
                    assert(model::device_views(found@).len() == found@.len());
                    status.connected = true;
                    status.device_count = found.len();
                    status.per_host_traffic = r.caps.per_host_traffic;
                    status.can_block = match &r.blocked {
                        Some(Ok(_)) => true,
                        Some(Err(_)) => false,
                        None => r.caps.can_block,
                    };
                    status.message = r.caps.message.clone();
                },
                Some(Err(e)) => {
                    status.message = text::join2("device list failed: ", e.as_str());
                },
                None => {
                    if text::starts_with_str(status.message.as_str(), "connecting") {
                        status.message = r.caps.message.clone();
                    }
                },
            }
        }
        status
    }

    /// The snapshot of what this machine saw and what came of the visits to the router, where there
    /// is a session with one. `password` says whether there is a password for it, `collected_at` is
    /// the time in seconds since the Unix epoch, and `now` the moment of a steady clock.
    pub fn collect(
        &mut self,
        survey: Survey,
        report: Option<RouterReport>,
        password: bool,
        collected_at: u64,
        now: u64,
    ) -> (r: NetworkSnapshot)
        ensures
            r@ == snapshot(
                survey@,
                opt_report(report),
                router_status(
                    old(self)@.no_router,
                    old(self)@.config.router.enabled,
                    password,
                    opt_report(report),
                ),
                old(self)@.last_devices,
                collected_at,
                now,
            ),
            final(self)@ == (CollectorView {
                last_devices: sampled(
                    gathered(survey@, opt_report(report)),
                    old(self)@.last_devices,
                    now,
                ).1,
                ..old(self)@
            }),
    {
        let ghost sv = survey@;
        let ghost rv = opt_report(report);
        let status: RouterStatus = self.status(password, &report);
        let mut errors: Vec<String> = survey.errors;
        let ghost first = text::texts(errors@);
        let gateway: Option<IpAddr> = survey.wifi.gateway;
        let lan_devices: Vec<Device> = attach_all(survey.devices, &survey.traffic, &survey.rates);
        let mut listed: Vec<Device> = Vec::new();
        let mut blocked: Vec<BlockedDevice> = Vec::new();
        assert(model::device_views(listed@) =~= seq![]);
        assert(model::blocked_views(blocked@) =~= seq![]);
        assert(text::texts(errors@) =~= first + Seq::<Seq<char>>::empty());
        if let Some(r) = report {
            if let Some(e) = &r.login_error {
                let message: String = text::join2("router login: ", e.as_str());
                proof {
                    text::lemma_texts_push(errors@, message);
                    assert(first.push(message@) =~= first + seq![message@]);
                }
                errors.push(message);
            }
            match r.devices {
                Some(Ok(found)) => {
                    listed = found;
                },
                Some(Err(e)) => {
                    let message: String = text::join2("router devices: ", e.as_str());
                    proof {
                        text::lemma_texts_push(errors@, message);
                    }
                    errors.push(message);
                },
                None => {},
            }
            match r.blocked {
                Some(Ok(list)) => {
                    blocked = list;
                },
                Some(Err(e)) => {
                    let message: String = text::join2("router block list: ", e.as_str());
                    proof {
                        text::lemma_texts_push(errors@, message);
                    }
                    errors.push(message);
                },
                None => {},
            }
        }
        assert(text::texts(errors@) =~= first + router_errors(rv));
        let merged: Vec<Device> = merge::merge_devices(
            lan_devices,
            listed,
            gateway,
            &survey.self_mac,
        );
        let gathered: Vec<Device> = mark_blocked(merged, &blocked);
        let mut devices: Vec<Device> = sample_all(&mut self.rates, gathered, now);
        sort::sort_devices(&mut devices, SortKey::Hostname);
        let mut snap: NetworkSnapshot = NetworkSnapshot::empty(collected_at);
        snap.wifi = Some(survey.wifi);
        snap.local_traffic = survey.traffic;
        snap.local_rates = survey.rates;
        snap.devices = devices;
        snap.blocked = blocked;
        snap.router = status;
        snap.errors = errors;
        snap
    }
}

// ---------------------------------------------------------------------------------------------
// Laws

/// A router that is switched off, on the command line or in the settings, is not logged in to, and
/// the snapshot says that it is off.
pub proof fn law_router_off(c: CollectorView, given: Option<Seq<char>>, password: bool)
    requires
        c.no_router || !c.config.router.enabled,
    ensures
        !wants_router(c, given),
        ({
            let status = router_status(c.no_router, c.config.router.enabled, password, None);
            &&& !status.enabled
            &&& !status.connected
            &&& status.message == if c.no_router {
                "disabled (--no-router)"@
            } else {
                "disabled in config"@
            }
        }),
{
}

/// During one collection a router is asked to log in at most once, for its devices at most once and
/// for its block list at most once: for the last two only while it is logged in, and for the block
/// list only after the devices and only where it is known to show one. It is left, while it is
/// logged in, only after all that.
pub proof fn law_visits(
    logged_in: bool,
    login_tried: bool,
    listed: bool,
    blocked_asked: bool,
    can_block: bool,
)
    ensures
        ({
            let v = visit(logged_in, login_tried, listed, blocked_asked, can_block);
            &&& v == Visit::Login ==> !logged_in && !login_tried
            &&& v == Visit::ListDevices ==> logged_in && !listed
            &&& v == Visit::ListBlocked ==> logged_in && listed && can_block && !blocked_asked
            &&& v == Visit::Leave && logged_in ==> listed && (blocked_asked || !can_block)
        }),
{
}

proof fn lemma_sampled_len(ds: Seq<model::DeviceView>, last: Seq<(Seq<char>, Sample)>, now: u64)
    ensures
        sampled(ds, last, now).0.len() == ds.len(),
    decreases ds.len(),
{
    if ds.len() > 0 {
        lemma_sampled_len(ds.drop_last(), last, now);
    }
}

/// `after` is `before` with rates where it had none.
pub open spec fn adds_rates(before: model::DeviceView, after: model::DeviceView) -> bool {
    &&& after == (model::DeviceView {
        rate_rx_bps: after.rate_rx_bps,
        rate_tx_bps: after.rate_tx_bps,
        ..before
    })
    &&& before.rate_rx_bps is Some ==> after.rate_rx_bps == before.rate_rx_bps
    &&& before.rate_tx_bps is Some ==> after.rate_tx_bps == before.rate_tx_bps
}

/// Sampling the devices changes nothing but rates, and no rate that is there already.
pub proof fn law_sampling_adds_rates(
    ds: Seq<model::DeviceView>,
    last: Seq<(Seq<char>, Sample)>,
    now: u64,
    k: int,
)
    requires
        0 <= k < ds.len(),
    ensures
        sampled(ds, last, now).0.len() == ds.len(),
        adds_rates(ds[k], sampled(ds, last, now).0[k]),
    decreases ds.len(),
{
    let before = ds.drop_last();
    lemma_sampled_len(before, last, now);
    if k < before.len() {
        law_sampling_adds_rates(before, last, now, k);
        assert(ds[k] == before[k]);
    }
}

/// The device is this machine, with the counters of the interface and its rates.
pub open spec fn is_this_machine(
    d: model::DeviceView,
    traffic: TrafficCounters,
    rates: TrafficRates,
) -> bool {
    &&& d.is_self
    &&& d.bytes_rx == Some(traffic.rx_bytes)
    &&& d.bytes_tx == Some(traffic.tx_bytes)
    &&& d.rate_rx_bps == Some(rates.rx_bps)
    &&& d.rate_tx_bps == Some(rates.tx_bps)
}

/// What is shown in a snapshot was gathered for it, with rates where it had none.
proof fn lemma_shown(
    s: SurveyView,
    report: Option<RouterReportView>,
    last: Seq<(Seq<char>, Sample)>,
    now: u64,
    k: int,
) -> (i: int)
    requires
        0 <= k < sort::sorted(sampled(gathered(s, report), last, now).0, SortKey::Hostname).len(),
    ensures
        0 <= i < gathered(s, report).len(),
        sort::sorted(sampled(gathered(s, report), last, now).0, SortKey::Hostname)[k] == sampled(
            gathered(s, report),
            last,
            now,
        ).0[i],
        adds_rates(gathered(s, report)[i], sampled(gathered(s, report), last, now).0[i]),
{
    let ds = gathered(s, report);
    let shown = sampled(ds, last, now).0;
    let all = sort::sorted(shown, SortKey::Hostname);
    lemma_sampled_len(ds, last, now);
    sort::law_sorted_keeps_devices(shown, SortKey::Hostname);
    vstd::seq_lib::to_multiset_contains(all, all[k]);
    vstd::seq_lib::to_multiset_contains(shown, all[k]);
    let i = choose|i: int| 0 <= i < shown.len() && shown[i] == all[k];
    law_sampling_adds_rates(ds, last, now, i);
    i
}

/// A device of the snapshot is marked as blocked exactly where its address is on the block list of
/// the router.
pub proof fn law_blocked(
    s: SurveyView,
    report: Option<RouterReportView>,
    status: model::RouterStatusView,
    last: Seq<(Seq<char>, Sample)>,
    collected_at: u64,
    now: u64,
    k: int,
)
    requires
        0 <= k < snapshot(s, report, status, last, collected_at, now).devices.len(),
    ensures
        ({
            let d = snapshot(s, report, status, last, collected_at, now).devices[k];
            d.blocked <==> (d.mac is Some && filter::blocks(
                block_list_of(report),
                d.mac.unwrap(),
            ))
        }),
{
    let i = lemma_shown(s, report, last, now, k);
    let plain = merge::merged(
        all_with_traffic(s.devices, s.traffic, s.rates),
        router_devices(report),
        s.wifi.gateway,
        s.self_mac,
    );
    assert(gathered(s, report)[i] == with_block(plain[i], block_list_of(report)));
}

/// The device is taken for this machine: it was found to be it, or it has its hardware address.
pub open spec fn claims_self(d: model::DeviceView, self_mac: Option<Seq<char>>) -> bool {
    d.is_self || (self_mac is Some && d.mac == self_mac)
}

/// Only the entry under `key` is taken for this machine.
pub open spec fn self_only_at(
    entries: Seq<(Seq<char>, model::DeviceView)>,
    self_mac: Option<Seq<char>>,
    key: Seq<char>,
) -> bool {
    forall|i: int|
        0 <= i < entries.len() && claims_self((#[trigger] entries[i]).1, self_mac)
            ==> entries[i].0 == key
}

/// Every device that is taken for this machine has the key `key`.
pub open spec fn self_has_key(
    ds: Seq<model::DeviceView>,
    self_mac: Option<Seq<char>>,
    key: Seq<char>,
) -> bool {
    forall|k: int|
        0 <= k < ds.len() && claims_self(#[trigger] ds[k], self_mac) ==> merge::key_of(ds[k]) == key
}

/// Where this machine has an address, the last device of a survey is this machine, and no other one
/// that is taken for it stands under another key, as long as its hardware address stands in colon
/// notation or is none at all.
pub proof fn law_surveyed_self(iface: Seq<char>, f: Findings, last: Option<Sample>, now: u64)
    requires
        f.neighbors is Ok,
        surveyed(iface, f, last, now).wifi.ip is Some,
        wifi::hardware_address(text::opt_text(f.address_file)) matches Some(m)
            ==> model::normalized(m) is None || model::normalized(m) == Some(m),
    ensures
        ({
            let s = surveyed(iface, f, last, now);
            &&& s.devices.len() > 0
            &&& s.devices.last().is_self
            &&& self_has_key(s.devices, s.self_mac, merge::key_of(s.devices.last()))
        }),
{
    let s = surveyed(iface, f, last, now);
    lan::law_self_is_present(
        f.neighbors->Ok_0@,
        s.wifi.gateway,
        s.wifi.ip,
        wifi::hardware_address(text::opt_text(f.address_file)),
        lan::local_name(text::opt_text(f.hostname)),
    );
    assert(s.devices.last() == s.devices[s.devices.len() - 1]);
}

proof fn lemma_lan_self(lan: Seq<model::DeviceView>, self_mac: Option<Seq<char>>, key: Seq<char>)
    requires
        self_has_key(lan, self_mac, key),
    ensures
        self_only_at(merge::lan_entries(lan), self_mac, key),
    decreases lan.len(),
{
    if lan.len() > 0 {
        let before = lan.drop_last();
        assert forall|k: int| 0 <= k < before.len() && claims_self(
            #[trigger] before[k],
            self_mac,
        ) implies merge::key_of(before[k]) == key by {
            assert(before[k] == lan[k]);
        }
        lemma_lan_self(before, self_mac, key);
        assert(lan.last() == lan[lan.len() - 1]);
        textmap::lemma_position(merge::lan_entries(before), merge::key_of(lan.last()), 0);
    }
}

proof fn lemma_router_self(
    entries: Seq<(Seq<char>, model::DeviceView)>,
    router: Seq<model::DeviceView>,
    self_mac: Option<Seq<char>>,
    key: Seq<char>,
)
    requires
        self_only_at(entries, self_mac, key),
        self_has_key(router, self_mac, key),
    ensures
        self_only_at(merge::all_entries(entries, router), self_mac, key),
    decreases router.len(),
{
    if router.len() > 0 {
        let before = router.drop_last();
        let r = router.last();
        assert forall|k: int| 0 <= k < before.len() && claims_self(
            #[trigger] before[k],
            self_mac,
        ) implies merge::key_of(before[k]) == key by {
            assert(before[k] == router[k]);
        }
        lemma_router_self(entries, before, self_mac, key);
        assert(r == router[router.len() - 1]);
        let so_far = merge::all_entries(entries, before);
        textmap::lemma_position(so_far, merge::key_of(r), 0);
    }
}

proof fn lemma_router_keeps_counters(
    entries: Seq<(Seq<char>, model::DeviceView)>,
    router: Seq<model::DeviceView>,
    key: Seq<char>,
    traffic: TrafficCounters,
    rates: TrafficRates,
)
    requires
        textmap::lookup(entries, key) matches Some(d) && is_this_machine(d, traffic, rates),
        forall|k: int|
            0 <= k < router.len() ==> (#[trigger] router[k]).bytes_rx is None
                && router[k].bytes_tx is None,
    ensures
        textmap::lookup(merge::all_entries(entries, router), key) matches Some(d)
            && is_this_machine(d, traffic, rates),
    decreases router.len(),
{
    if router.len() > 0 {
        let before = router.drop_last();
        let r = router.last();
        assert(r == router[router.len() - 1]);
        assert forall|k: int| 0 <= k < before.len() implies (#[trigger] before[k]).bytes_rx is None
            && before[k].bytes_tx is None by {
            assert(before[k] == router[k]);
        }
        lemma_router_keeps_counters(entries, before, key, traffic, rates);
        let so_far = merge::all_entries(entries, before);
        match textmap::lookup(so_far, merge::key_of(r)) {
            Some(e) => textmap::law_put_then_lookup(
                so_far,
                merge::key_of(r),
                merge::combined(e, r),
                key,
            ),
            None => textmap::law_put_then_lookup(so_far, merge::key_of(r), r, key),
        }
    }
}

/// What the snapshot shows of this machine is what was read of it. Where the last device of the
/// local network is this machine, no other device that is taken for it stands under another key,
/// and the router has no counters of its own, the first device of the snapshot is this machine with
/// the counters of the interface and its rates, and no other one is.
pub proof fn law_this_machine(
    s: SurveyView,
    report: Option<RouterReportView>,
    status: model::RouterStatusView,
    last: Seq<(Seq<char>, Sample)>,
    collected_at: u64,
    now: u64,
)
    requires
        s.devices.len() > 0,
        s.devices.last().is_self,
        self_has_key(s.devices, s.self_mac, merge::key_of(s.devices.last())),
        self_has_key(router_devices(report), s.self_mac, merge::key_of(s.devices.last())),
        forall|k: int|
            0 <= k < router_devices(report).len() ==> (#[trigger] router_devices(
                report,
            )[k]).bytes_rx is None && router_devices(report)[k].bytes_tx is None,
    ensures
        ({
            let ds = snapshot(s, report, status, last, collected_at, now).devices;
            &&& ds.len() > 0
            &&& is_this_machine(ds[0], s.traffic, s.rates)
            &&& forall|j: int| 0 < j < ds.len() ==> !(#[trigger] ds[j]).is_self
        }),
{
    let router = router_devices(report);
    let lan = all_with_traffic(s.devices, s.traffic, s.rates);
    let own = lan.last();
    let key = merge::key_of(own);
    assert(own == with_traffic(s.devices.last(), s.traffic, s.rates));
    assert forall|k: int| 0 <= k < lan.len() && claims_self(#[trigger] lan[k], s.self_mac) implies
        merge::key_of(lan[k]) == key by {
        assert(lan[k] == with_traffic(s.devices[k], s.traffic, s.rates));
        assert(claims_self(s.devices[k], s.self_mac));
    }
    textmap::law_put_then_lookup(merge::lan_entries(lan.drop_last()), key, own, key);
    let entries = merge::all_entries(merge::lan_entries(lan), router);
    lemma_router_keeps_counters(merge::lan_entries(lan), router, key, s.traffic, s.rates);
    lemma_lan_self(lan, s.self_mac, key);
    lemma_router_self(merge::lan_entries(lan), router, s.self_mac, key);
    merge::law_merged_keys(lan, router, key);
    textmap::lemma_position(entries, key, 0);
    let k = textmap::position(entries, key).unwrap();
    let ds = gathered(s, report);
    let plain = merge::merged(lan, router, s.wifi.gateway, s.self_mac);
    assert forall|i: int| 0 <= i < ds.len() implies (#[trigger] ds[i]).is_self == claims_self(
        entries[i].1,
        s.self_mac,
    ) by {
        assert(ds[i] == with_block(plain[i], block_list_of(report)));
        assert(plain[i] == merge::marked(
            textmap::values(entries)[i],
            s.wifi.gateway,
            s.self_mac,
        ));
    }
    assert(ds[k] == with_block(plain[k], block_list_of(report)));
    assert(plain[k] == merge::marked(textmap::values(entries)[k], s.wifi.gateway, s.self_mac));
    let shown = sampled(ds, last, now).0;
    lemma_sampled_len(ds, last, now);
    assert forall|i: int| 0 <= i < shown.len() && (#[trigger] shown[i]).is_self implies i == k by {
        law_sampling_adds_rates(ds, last, now, i);
        assert(ds[i].is_self);
        assert(entries[i].0 == key);
    }
    law_sampling_adds_rates(ds, last, now, k);
    let all = sort::sorted(shown, SortKey::Hostname);
    sort::law_sorted_keeps_devices(shown, SortKey::Hostname);
    vstd::seq_lib::to_multiset_contains(shown, shown[k]);
    vstd::seq_lib::to_multiset_contains(all, shown[k]);
    sort::lemma_one_self(shown, SortKey::Hostname);
    let i = choose|i: int| 0 <= i < all.len() && all[i] == shown[k];
    if i > 0 {
        sort::law_self_first(shown, SortKey::Hostname, 0, i);
        assert(all[0].is_self && all[i].is_self);
    }
    assert(all[0] == shown[k]);
}

/// The command line names the interface before the settings do.
pub proof fn law_preferred(c: config::ConfigView, name: Seq<char>)
    ensures
        preferred(c, Some(name)) == Some(name),
        preferred(c, None) == c.interface,
{
}

/// A session is opened exactly once, for a router that is switched on in both places, of a kind
/// that is known and with a password.
pub proof fn law_wants_router(c: CollectorView, password: Seq<char>)
    ensures
        wants_router(c, Some(password)) <==> !c.no_router && c.config.router.enabled
            && !c.has_router && !c.router_init_attempted && (c.config.router.backend == "zte_f670l"@
            || c.config.router.backend == "zte"@ || c.config.router.backend.len() == 0),
        !wants_router(c, None),
{
}

/// A fresh router is logged in to; one that is logged in is asked for its devices, and then, where
/// it can block, for its block list; after a login that failed it is left.
pub proof fn law_visits_in_order(can_block: bool)
    ensures
        visit(false, false, false, false, can_block) == Visit::Login,
        visit(false, true, false, false, can_block) == Visit::Leave,
        forall|tried: bool| #[trigger]
            visit(true, tried, false, false, can_block) == Visit::ListDevices,
        forall|tried: bool| #[trigger]
            visit(true, tried, true, false, true) == Visit::ListBlocked,
        forall|tried: bool| #[trigger] visit(true, tried, true, false, false) == Visit::Leave,
        forall|tried: bool| #[trigger] visit(true, tried, true, true, can_block) == Visit::Leave,
{
}

/// What is said of the router: why it was not asked, why it could not be, or what it said of
/// itself. It is connected exactly where it listed its devices.
pub proof fn law_router_status(
    no_router: bool,
    enabled: bool,
    password: bool,
    report: Option<RouterReportView>,
)
    ensures
        ({
            let s = router_status(no_router, enabled, password, report);
            &&& s.enabled <==> enabled && !no_router
            &&& report is None ==> {
                &&& s.name == Some("ZTE F670L"@)
                &&& !s.connected && s.device_count == 0 && !s.per_host_traffic && !s.can_block
                &&& no_router ==> s.message == "disabled (--no-router)"@
                &&& !no_router && !enabled ==> s.message == "disabled in config"@
                &&& !no_router && enabled && !password ==> s.message
                    == "no password (set MYWIFISTATS_ROUTER_PASSWORD or config)"@
                &&& !no_router && enabled && password ==> s.message == "connecting…"@
            }
            &&& report matches Some(r) ==> {
                &&& s.name == Some(r.name)
                &&& s.connected <==> (r.devices matches Some(Ok(_)))
                &&& r.devices matches Some(Ok(found)) ==> {
                    &&& s.device_count == found.len()
                    &&& s.per_host_traffic == r.caps.per_host_traffic
                    &&& s.message == r.caps.message
                    &&& r.blocked matches Some(Ok(_)) ==> s.can_block
                    &&& r.blocked matches Some(Err(_)) ==> !s.can_block
                    &&& r.blocked is None ==> s.can_block == r.caps.can_block
                }
                &&& r.devices matches Some(Err(e)) ==> s.message == "device list failed: "@ + e
                    && s.device_count == 0 && !s.can_block
                &&& r.devices is None ==> {
                    &&& s.device_count == 0 && !s.can_block
                    &&& r.login_error matches Some(e) ==> s.message == "login failed: "@ + e
                    &&& r.login_error is None && !no_router && enabled && password ==> s.message
                        == r.caps.message
                }
            }
        }),
{
    reveal_strlit("connecting");
    reveal_strlit("connecting…");
    reveal_strlit("login failed: ");
    assert("connecting…"@.take(10) =~= "connecting"@);
    if let Some(r) = report {
        if let Some(e) = r.login_error {
            let m = "login failed: "@ + e;
            assert(m[0] == 'l');
            assert(!text::starts_with(m, "connecting"@)) by {
                if text::starts_with(m, "connecting"@) {
                    assert(m.take(10)[0] == "connecting"@[0]);
                }
            }
        }
    }
}

/// The errors of a snapshot: first those of this machine, then those of the visits in their order,
/// each with what failed before it.
pub proof fn law_errors(
    s: SurveyView,
    r: RouterReportView,
    status: model::RouterStatusView,
    last: Seq<(Seq<char>, Sample)>,
    collected_at: u64,
    now: u64,
)
    ensures
        snapshot(s, None, status, last, collected_at, now).errors == s.errors,
        ({
            let e = snapshot(s, Some(r), status, last, collected_at, now).errors;
            &&& r.login_error is None && !(r.devices matches Some(Err(_))) && !(r.blocked matches Some(
                Err(_),
            )) ==> e == s.errors
            &&& r.login_error matches Some(x) ==> (r.devices is None && r.blocked is None ==> e
                == s.errors.push("router login: "@ + x))
            &&& r.devices matches Some(Err(x)) ==> (r.login_error is None && r.blocked is None
                ==> e == s.errors.push("router devices: "@ + x))
            &&& r.blocked matches Some(Err(x)) ==> (r.login_error is None
                && !(r.devices matches Some(Err(_))) ==> e == s.errors.push(
                "router block list: "@ + x,
            ))
            &&& r.login_error matches Some(x) ==> (r.devices matches Some(Err(y)) ==> (
            r.blocked matches Some(Err(z)) ==> e == s.errors.push("router login: "@ + x).push(
                "router devices: "@ + y,
            ).push("router block list: "@ + z)))
        }),
{
}

/// A snapshot shows what this machine read of itself, what the router said of its block list, and
/// no state of the filter.
pub proof fn law_snapshot_fields(
    s: SurveyView,
    report: Option<RouterReportView>,
    status: model::RouterStatusView,
    last: Seq<(Seq<char>, Sample)>,
    collected_at: u64,
    now: u64,
)
    ensures
        ({
            let n = snapshot(s, report, status, last, collected_at, now);
            &&& n.collected_at == collected_at
            &&& n.wifi == Some(s.wifi)
            &&& n.local_traffic == s.traffic
            &&& n.local_rates == s.rates
            &&& n.router == status
            &&& !n.mac_filter.enabled && !n.mac_filter.can_block
            &&& report is None ==> n.blocked == Seq::<model::BlockedDeviceView>::empty()
            &&& report matches Some(r) ==> {
                &&& r.blocked matches Some(Ok(list)) ==> n.blocked == list
                &&& !(r.blocked matches Some(Ok(_))) ==> n.blocked == Seq::<
                    model::BlockedDeviceView,
                >::empty()
            }
        }),
{
}

/// The devices of a snapshot are those that this machine and the router found together, each once.
pub proof fn law_snapshot_devices(
    s: SurveyView,
    report: Option<RouterReportView>,
    status: model::RouterStatusView,
    last: Seq<(Seq<char>, Sample)>,
    collected_at: u64,
    now: u64,
)
    ensures
        snapshot(s, report, status, last, collected_at, now).devices.to_multiset() == sampled(
            gathered(s, report),
            last,
            now,
        ).0.to_multiset(),
        report matches Some(r) ==> (r.devices matches Some(Ok(found)) ==> gathered(
            s,
            report,
        ).len() == merge::merged(
            all_with_traffic(s.devices, s.traffic, s.rates),
            found,
            s.wifi.gateway,
            s.self_mac,
        ).len()),
        report is None ==> gathered(s, report).len() == merge::merged(
            all_with_traffic(s.devices, s.traffic, s.rates),
            seq![],
            s.wifi.gateway,
            s.self_mac,
        ).len(),
{
    sort::law_sorted_keeps_devices(sampled(gathered(s, report), last, now).0, SortKey::Hostname);
}

/// This machine is shown with the counters and rates of its interface, as a wireless device; other
/// devices stay as they are.
pub proof fn law_own_traffic(d: model::DeviceView, traffic: TrafficCounters, rates: TrafficRates)
    ensures
        ({
            let e = with_traffic(d, traffic, rates);
            &&& !d.is_self ==> e == d
            &&& d.is_self ==> {
                &&& e.bytes_rx == Some(traffic.rx_bytes)
                &&& e.bytes_tx == Some(traffic.tx_bytes)
                &&& e.rate_rx_bps == Some(rates.rx_bps)
                &&& e.rate_tx_bps == Some(rates.tx_bps)
                &&& e.link == LinkKind::Wifi
                &&& e.hostname == d.hostname && e.ip == d.ip && e.mac == d.mac && e.vendor
                    == d.vendor
                &&& e.online == d.online && e.is_self && e.is_gateway == d.is_gateway && e.blocked
                    == d.blocked && e.source == d.source
            }
        }),
{
}

/// A device with counters gets the rates since the sample that was taken of its address before,
/// and is sampled for the next time; without an address, without one of the counters or without a
/// sample before there is no rate, and without an address or a counter no sample.
pub proof fn law_device_rates(
    ds: Seq<model::DeviceView>,
    d: model::DeviceView,
    last: Seq<(Seq<char>, Sample)>,
    now: u64,
    mac: Seq<char>,
    rx: u64,
    tx: u64,
)
    ensures
        ({
            let (before, samples) = sampled(ds, last, now);
            let (all, after) = sampled(ds.push(d), last, now);
            let fresh = Sample {
                counters: TrafficCounters { rx_bytes: rx, tx_bytes: tx },
                at: now,
            };
            &&& all.len() == before.len() + 1
            &&& all.drop_last() == before
            &&& d.mac is None || d.bytes_rx is None || d.bytes_tx is None ==> all.last() == d
                && after == samples
            &&& d.mac == Some(mac) && d.bytes_rx == Some(rx) && d.bytes_tx == Some(tx) ==> {
                &&& textmap::lookup(after, mac) == Some(fresh)
                &&& forall|other: Seq<char>|
                    other != mac ==> #[trigger] textmap::lookup(after, other) == textmap::lookup(
                        samples,
                        other,
                    )
                &&& textmap::lookup(samples, mac) is None ==> all.last() == d
                &&& textmap::lookup(samples, mac) matches Some(old_sample) ==> {
                    &&& d.rate_rx_bps is None ==> all.last().rate_rx_bps == Some(
                        rate::rates_between(old_sample, fresh).rx_bps,
                    )
                    &&& d.rate_tx_bps is None ==> all.last().rate_tx_bps == Some(
                        rate::rates_between(old_sample, fresh).tx_bps,
                    )
                }
            }
        }),
{
    let all = ds.push(d);
    assert(all.drop_last() =~= ds);
    assert(all.last() == d);
    let (before, samples) = sampled(ds, last, now);
    let one = with_rates(d, samples, now);
    assert(before.push(one).drop_last() =~= before);
    if d.mac == Some(mac) && d.bytes_rx == Some(rx) && d.bytes_tx == Some(tx) {
        let fresh = Sample { counters: TrafficCounters { rx_bytes: rx, tx_bytes: tx }, at: now };
        textmap::law_put_then_lookup(samples, mac, fresh, mac);
        assert forall|other: Seq<char>| other != mac implies #[trigger] textmap::lookup(
            textmap::put(samples, mac, fresh),
            other,
        ) == textmap::lookup(samples, other) by {
            textmap::law_put_then_lookup(samples, mac, fresh, other);
        }
    }
}

/// What this machine sees: its counters are those in the two files, zero where they cannot be
/// read, which is then an error; its rates are those since its last sample; its devices are those
/// of the local network, none where there is no list of neighbours, which is an error too.
pub proof fn law_survey(
    iface: Seq<char>,
    f: Findings,
    last: Option<Sample>,
    now: u64,
    counters: TrafficCounters,
    e: Seq<char>,
)
    ensures
        ({
            let s = surveyed(iface, f, last, now);
            let read = wifi::traffic(iface, text::opt_text(f.rx_file), text::opt_text(f.tx_file));
            &&& s.wifi == wifi::described_link(iface, f.wifi, wifi::reading_views(f.readings@))
            &&& read == Ok::<TrafficCounters, Seq<char>>(counters) ==> {
                &&& s.traffic == counters
                &&& last is None ==> s.rates.rx_bps == 0 && s.rates.tx_bps == 0
                &&& last matches Some(before) ==> s.rates == rate::rates_between(
                    before,
                    Sample { counters, at: now },
                )
                &&& f.neighbors is Ok ==> s.errors == Seq::<Seq<char>>::empty()
                &&& f.neighbors matches Err(m) ==> s.errors == seq!["lan: "@ + m@]
            }
            &&& read == Err::<TrafficCounters, Seq<char>>(e) ==> {
                &&& s.traffic.rx_bytes == 0 && s.traffic.tx_bytes == 0
                &&& s.rates.rx_bps == 0 && s.rates.tx_bps == 0
                &&& f.neighbors is Ok ==> s.errors == seq!["traffic: "@ + e]
                &&& f.neighbors matches Err(m) ==> s.errors == seq![
                    "traffic: "@ + e,
                    "lan: "@ + m@,
                ]
            }
            &&& f.neighbors is Err ==> s.devices == Seq::<model::DeviceView>::empty()
            &&& f.address_file is None ==> s.self_mac is None
            &&& f.address_file matches Some(a) ==> s.self_mac == model::normalized(
                text::lower(text::trim(a@)),
            )
        }),
{
    let none = Seq::<Seq<char>>::empty();
    if let Err(m) = f.neighbors {
        assert(none.push("lan: "@ + m@) =~= seq!["lan: "@ + m@]);
        assert(seq!["traffic: "@ + e].push("lan: "@ + m@) =~= seq![
            "traffic: "@ + e,
            "lan: "@ + m@,
        ]);
    }
}

} // verus!

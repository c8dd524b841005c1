//! The devices of the local network, from the neighbour table of the kernel.

use crate::addr;
use crate::addr::IpAddr;
use crate::model;
use crate::model::{Device, DeviceSource, LinkKind};
use crate::oui;
use crate::text;
use vstd::prelude::*;

verus! {

// ---------------------------------------------------------------------------------------------
// One neighbour

/// `word` names a state of a neighbour.
pub open spec fn is_state(word: Seq<char>) -> bool {
    ||| word == "REACHABLE"@
    ||| word == "STALE"@
    ||| word == "DELAY"@
    ||| word == "PROBE"@
    ||| word == "FAILED"@
    ||| word == "PERMANENT"@
    ||| word == "NOARP"@
    ||| word == "NONE"@
    ||| word == "INCOMPLETE"@
}

/// A neighbour in the state `state`, if it has no hardware address, is none worth showing.
pub open spec fn is_lost(state: Seq<char>) -> bool {
    ||| state == "FAILED"@
    ||| state == "INCOMPLETE"@
    ||| state == "NONE"@
    ||| state.len() == 0
}

/// A neighbour in the state `state` answers.
pub open spec fn is_online(state: Seq<char>) -> bool {
    ||| state == "REACHABLE"@
    ||| state == "DELAY"@
    ||| state == "PROBE"@
    ||| state == "PERMANENT"@
}

/// The hardware address and the state that the words from `from` on give: the last of each. What
/// stands behind `lladdr` is an address, whatever it looks like.
pub open spec fn address_and_state(
    words: Seq<Seq<char>>,
    from: int,
    mac: Option<Seq<char>>,
    state: Seq<char>,
) -> (Option<Seq<char>>, Seq<char>)
    decreases words.len() - from,
{
    if from >= words.len() {
        (mac, state)
    } else if words[from] == "lladdr"@ && from + 1 < words.len() {
        address_and_state(words, from + 2, model::normalized(words[from + 1]), state)
    } else if is_state(words[from]) {
        address_and_state(words, from + 1, mac, words[from])
    } else {
        address_and_state(words, from + 1, mac, state)
    }
}

/// The vendor of an address that may be missing.
pub open spec fn vendor_of(mac: Option<Seq<char>>) -> Option<Seq<char>> {
    match mac {
        Some(m) => oui::vendor(m),
        None => None,
    }
}

/// The device that a line of `ip neigh` describes. Lines without an address of their own, those of
/// link-local addresses and those of lost neighbours describe none.
pub open spec fn neighbor(line: Seq<char>, gateway: Option<IpAddr>) -> Option<model::DeviceView> {
    let words = text::words(line);
    if words.len() == 0 {
        None
    } else {
        match addr::ip(words[0]) {
            None => None,
            Some(ip) => {
                let (mac, state) = address_and_state(words, 1, None, seq![]);
                if addr::is_link_local_v6(ip) || (mac is None && is_lost(state)) {
                    None
                } else {
                    let is_gateway = gateway == Some(ip);
                    Some(
                        model::DeviceView {
                            hostname: if is_gateway {
                                Some("gateway"@)
                            } else {
                                None
                            },
                            ip: Some(ip),
                            mac,
                            vendor: vendor_of(mac),
                            link: LinkKind::Unknown,
                            online: is_online(state),
                            is_self: false,
                            is_gateway,
                            blocked: false,
                            bytes_rx: None,
                            bytes_tx: None,
                            rate_rx_bps: None,
                            rate_tx_bps: None,
                            source: DeviceSource::Lan,
                        },
                    )
                }
            },
        }
    }
}

/// The devices that the lines of `ip neigh` describe, in order.
pub open spec fn neighbors(lines: Seq<Seq<char>>, gateway: Option<IpAddr>) -> Seq<model::DeviceView>
    decreases lines.len(),
{
    if lines.len() == 0 {
        seq![]
    } else {
        match neighbor(lines.last(), gateway) {
            Some(d) => neighbors(lines.drop_last(), gateway).push(d),
            None => neighbors(lines.drop_last(), gateway),
        }
    }
}

fn is_state_of(word: &str) -> (r: bool)
    ensures
        r == is_state(word@),
{
    text::same_text(word, "REACHABLE") || text::same_text(word, "STALE") || text::same_text(
        word,
        "DELAY",
    ) || text::same_text(word, "PROBE") || text::same_text(word, "FAILED") || text::same_text(
        word,
        "PERMANENT",
    ) || text::same_text(word, "NOARP") || text::same_text(word, "NONE") || text::same_text(
        word,
        "INCOMPLETE",
    )
}

fn is_lost_of(state: &str) -> (r: bool)
    ensures
        r == is_lost(state@),
{
    text::same_text(state, "FAILED") || text::same_text(state, "INCOMPLETE") || text::same_text(
        state,
        "NONE",
    ) || state.is_empty()
}

fn is_online_of(state: &str) -> (r: bool)
    ensures
        r == is_online(state@),
{
    text::same_text(state, "REACHABLE") || text::same_text(state, "DELAY") || text::same_text(
        state,
        "PROBE",
    ) || text::same_text(state, "PERMANENT")
}

/// Whether two addresses that may be missing are the same address.
pub fn same_ip(a: Option<IpAddr>, b: IpAddr) -> (r: bool)
    ensures
        r == (a == Some(b)),
{
    match a {
        Some(x) => x == b,
        None => false,
    }
}

/// The device that a line of `ip neigh` describes.
pub fn parse_neigh_line(line: &str, gateway: Option<IpAddr>) -> (r: Option<Device>)
    ensures
        match r {
            Some(d) => neighbor(line@, gateway) == Some(d@),
            None => neighbor(line@, gateway) is None,
        },
{
    let parts: Vec<String> = text::words_of(line);
    let ghost model = text::texts(parts@);
    assert(model.len() == parts@.len());
    if parts.len() == 0 {
        return None;
    }
    assert(model[0] == parts@[0]@);
    let ip: IpAddr = match addr::parse_ip(parts[0].as_str()) {
        Some(ip) => ip,
        None => return None,
    };
    if addr::is_link_local(ip) {
        return None;
    }
    let mut mac: Option<String> = None;
    let mut state: String = String::new();
    let mut i: usize = 1;
    assert(state@ =~= seq![]);
    while i < parts.len()
        invariant
            1 <= i <= parts@.len(),
            model == text::texts(parts@),
            model.len() == parts@.len(),
            address_and_state(model, 1, None, seq![]) == address_and_state(
                model,
                i as int,
                text::opt_text(mac),
                state@,
            ),
        decreases parts@.len() - i,
    {
        assert(model[i as int] == parts@[i as int]@);
        if text::same_text(parts[i].as_str(), "lladdr") && parts.len() - i > 1 {
            assert(model[i + 1] == parts@[i + 1]@);
            mac = model::normalize_mac(parts[i + 1].as_str());
            i = i + 2;
        } else {
            if is_state_of(parts[i].as_str()) {
                state = parts[i].clone();
            }
            i = i + 1;
        }
    }
    if mac.is_none() && is_lost_of(state.as_str()) {
        return None;
    }
    let is_gateway: bool = same_ip(gateway, ip);
    let vendor: Option<String> = oui::vendor_name(&mac);
    let hostname: Option<String> = if is_gateway {
        Some("gateway".to_owned())
    } else {
        None
    };
    let online: bool = is_online_of(state.as_str());
    Some(
        Device {
            hostname,
            ip: Some(ip),
            mac,
            vendor,
            link: LinkKind::Unknown,
            online,
            is_self: false,
            is_gateway,
            blocked: false,
            bytes_rx: None,
            bytes_tx: None,
            rate_rx_bps: None,
            rate_tx_bps: None,
            source: DeviceSource::Lan,
        },
    )
}

// ---------------------------------------------------------------------------------------------
// The local network

/// The name of this machine: what `hostname` printed, if anything.
pub open spec fn local_name(out: Option<Seq<char>>) -> Seq<char> {
    match out {
        Some(s) if text::trim(s).len() > 0 => text::trim(s),
        _ => "this-machine"@,
    }
}

/// The name of this machine, from the output of `hostname` where it ran.
pub fn hostname_local(out: &Option<String>) -> (r: String)
    ensures
        r@ == local_name(text::opt_text(*out)),
{
    match out {
        Some(s) => {
            let t: String = text::trim_str(s.as_str());
            if t.as_str().is_empty() {
                "this-machine".to_owned()
            } else {
                t
            }
        },
        None => "this-machine".to_owned(),
    }
}

/// This machine as a device.
pub open spec fn self_device(ip: IpAddr, mac: Option<Seq<char>>, name: Seq<char>) -> model::DeviceView {
    model::DeviceView {
        hostname: Some(name),
        ip: Some(ip),
        mac,
        vendor: vendor_of(mac),
        link: LinkKind::Wifi,
        online: true,
        is_self: true,
        is_gateway: false,
        blocked: false,
        bytes_rx: None,
        bytes_tx: None,
        rate_rx_bps: None,
        rate_tx_bps: None,
        source: DeviceSource::Local,
    }
}

/// The devices of the local network: the neighbours, and this machine where it has an address.
pub open spec fn local_network(
    out: Seq<char>,
    gateway: Option<IpAddr>,
    self_ip: Option<IpAddr>,
    self_mac: Option<Seq<char>>,
    self_name: Seq<char>,
) -> Seq<model::DeviceView> {
    let found = neighbors(text::lines(out), gateway);
    match self_ip {
        Some(ip) => found.push(self_device(ip, self_mac, self_name)),
        None => found,
    }
}

/// The devices of the local network, from the output of `ip neigh show dev <iface>`.
///
/// `self_ip` and `self_mac` are the addresses of this machine, and `hostname` is the output of
/// `hostname` where it ran. Names of other devices are filled in by [`name_device`].
pub fn discover_neighbors(
    out: &str,
    gateway: Option<IpAddr>,
    self_ip: Option<IpAddr>,
    self_mac: &Option<String>,
    hostname: &Option<String>,
) -> (devices: Vec<Device>)
    ensures
        model::device_views(devices@) == local_network(
            out@,
            gateway,
            self_ip,
            text::opt_text(*self_mac),
            local_name(text::opt_text(*hostname)),
        ),
{
    let lines: Vec<String> = text::lines_of(out);
    let ghost model = text::texts(lines@);
    let mut devices: Vec<Device> = Vec::new();
    let mut i: usize = 0;
    assert(model.take(0) =~= seq![]);
    assert(model::device_views(devices@) =~= seq![]);
    while i < lines.len()
        invariant
            i <= lines@.len(),
            model == text::texts(lines@),
            model::device_views(devices@) == neighbors(model.take(i as int), gateway),
        decreases lines@.len() - i,
    {
        assert(model[i as int] == lines@[i as int]@);
        assert(model.take(i + 1).drop_last() =~= model.take(i as int));
        if let Some(d) = parse_neigh_line(lines[i].as_str(), gateway) {
            proof {
                model::lemma_device_views_push(devices@, d);
            }
            devices.push(d);
        }
        i = i + 1;
    }
    assert(model.take(i as int) =~= model);
    if let Some(ip) = self_ip {
        let vendor: Option<String> = oui::vendor_name(self_mac);
        let this: Device = Device {
            hostname: Some(hostname_local(hostname)),
            ip: Some(ip),
            mac: self_mac.clone(),
            vendor,
            link: LinkKind::Wifi,
            online: true,
            is_self: true,
            is_gateway: false,
            blocked: false,
            bytes_rx: None,
            bytes_tx: None,
            rate_rx_bps: None,
            rate_tx_bps: None,
            source: DeviceSource::Local,
        };
        proof {
            model::lemma_device_views_push(devices@, this);
        }
        devices.push(this);
    }
    devices
}

// ---------------------------------------------------------------------------------------------
// Names

/// The name in the output of `getent hosts` for `ip`: the second word, unless it is the address
/// again, without dots at its end.
pub open spec fn dns_name(ip: IpAddr, out: Option<Seq<char>>) -> Option<Seq<char>> {
    match out {
        Some(s) => {
            let words = text::words(s);
            if words.len() >= 2 && words[1] != addr::ip_text(ip) {
                Some(text::trim_end_char(words[1], '.'))
            } else {
                None
            }
        },
        None => None,
    }
}

/// The name of the host with the address `ip`, from the output of `getent hosts` where it
/// succeeded.
pub fn reverse_dns(ip: IpAddr, out: &Option<String>) -> (r: Option<String>)
    ensures
        text::opt_text(r) == dns_name(ip, text::opt_text(*out)),
{
    match out {
        Some(s) => {
            let words: Vec<String> = text::words_of(s.as_str());
            assert(text::texts(words@).len() == words@.len());
            if words.len() < 2 {
                return None;
            }
            assert(text::texts(words@)[1] == words@[1]@);
            if text::same_text(words[1].as_str(), addr::ip_string(ip).as_str()) {
                return None;
            }
            Some(text::trim_end_char_of(words[1].as_str(), '.'))
        },
        None => None,
    }
}

/// What to ask `getent hosts` about a device: its address, where it has no name yet.
pub open spec fn question(d: model::DeviceView) -> Option<Seq<char>> {
    match (d.hostname, d.ip) {
        (None, Some(ip)) => Some(addr::ip_text(ip)),
        _ => None,
    }
}

/// What to ask `getent hosts` about a device.
pub fn question_of(d: &Device) -> (r: Option<String>)
    ensures
        text::opt_text(r) == question(d@),
{
    match (&d.hostname, d.ip) {
        (None, Some(ip)) => Some(addr::ip_string(ip)),
        _ => None,
    }
}

/// A device after `getent hosts` was asked about it.
pub open spec fn named(d: model::DeviceView, out: Option<Seq<char>>) -> model::DeviceView {
    match (d.hostname, d.ip) {
        (None, Some(ip)) => model::DeviceView { hostname: dns_name(ip, out), ..d },
        _ => d,
    }
}

/// Gives a name to the device, from the answer to [`question_of`] where there was one.
pub fn name_device(d: &mut Device, out: &Option<String>)
    ensures
        final(d)@ == named(old(d)@, text::opt_text(*out)),
{
    if d.hostname.is_none() {
        if let Some(ip) = d.ip {
            d.hostname = reverse_dns(ip, out);
        }
    }
}

/// Why there is no neighbour table: `ip neigh` could not be run, or it failed and wrote `stderr`.
pub fn neigh_error(stderr: &Option<String>) -> (r: String)
    ensures
        r@ == match *stderr {
            Some(e) => "ip neigh failed: "@ + e@,
            None => "running ip neigh"@,
        },
{
    match stderr {
        Some(e) => text::join2("ip neigh failed: ", e.as_str()),
        None => "running ip neigh".to_owned(),
    }
}

// ---------------------------------------------------------------------------------------------
// Laws

/// A device of the neighbour table has an address that is not link-local, comes from the local
/// network, is never this machine, and is the gateway exactly where it has its address.
pub proof fn law_neighbor(line: Seq<char>, gateway: Option<IpAddr>)
    ensures
        neighbor(line, gateway) matches Some(d) ==> {
            &&& d.ip is Some
            &&& !addr::is_link_local_v6(d.ip.unwrap())
            &&& d.source == DeviceSource::Lan
            &&& !d.is_self
            &&& d.is_gateway <==> d.ip == gateway
            &&& d.vendor == vendor_of(d.mac)
        },
{
}

proof fn lemma_no_self(lines: Seq<Seq<char>>, gateway: Option<IpAddr>)
    ensures
        forall|k: int|
            0 <= k < neighbors(lines, gateway).len() ==> !(#[trigger] neighbors(
                lines,
                gateway,
            )[k]).is_self,
    decreases lines.len(),
{
    if lines.len() > 0 {
        lemma_no_self(lines.drop_last(), gateway);
        law_neighbor(lines.last(), gateway);
    }
}

/// This machine is in the list exactly once where it has an address, as the last device, and else
/// not at all.
pub proof fn law_self_is_present(
    out: Seq<char>,
    gateway: Option<IpAddr>,
    self_ip: Option<IpAddr>,
    self_mac: Option<Seq<char>>,
    self_name: Seq<char>,
)
    ensures
        ({
            let all = local_network(out, gateway, self_ip, self_mac, self_name);
            forall|k: int|
                0 <= k < all.len() ==> ((#[trigger] all[k]).is_self <==> self_ip is Some && k
                    == all.len() - 1)
        }),
        self_ip is Some ==> local_network(out, gateway, self_ip, self_mac, self_name).len() > 0,
{
    lemma_no_self(text::lines(out), gateway);
}

/// Nine words name a state.
proof fn lemma_states(word: Seq<char>)
    ensures
        is_state(word) ==> word != "lladdr"@ && word.len() > 0,
{
    reveal_strlit("lladdr");
    reveal_strlit("REACHABLE");
    reveal_strlit("STALE");
    reveal_strlit("DELAY");
    reveal_strlit("PROBE");
    reveal_strlit("FAILED");
    reveal_strlit("PERMANENT");
    reveal_strlit("NOARP");
    reveal_strlit("NONE");
    reveal_strlit("INCOMPLETE");
    assert("lladdr"@[0] == 'l');
    if is_state(word) {
        assert(word[0] != 'l');
    }
}

/// The word is one of those by which the kernel names the state of a neighbour.
pub open spec fn names_state(word: Seq<char>) -> bool {
    word == "REACHABLE"@ || word == "STALE"@ || word == "DELAY"@ || word == "PROBE"@ || word
        == "FAILED"@ || word == "PERMANENT"@ || word == "NOARP"@ || word == "NONE"@ || word
        == "INCOMPLETE"@
}

proof fn lemma_state_stays(words: Seq<Seq<char>>, from: int, mac: Option<Seq<char>>, state: Seq<char>)
    requires
        0 <= from,
        forall|j: int| from <= j < words.len() ==> !names_state(#[trigger] words[j]),
    ensures
        address_and_state(words, from, mac, state).1 == state,
    decreases words.len() - from,
{
    if from >= words.len() {
    } else if words[from] == "lladdr"@ && from + 1 < words.len() {
        lemma_state_stays(words, from + 2, model::normalized(words[from + 1]), state);
    } else {
        assert(!names_state(words[from]));
        lemma_state_stays(words, from + 1, mac, state);
    }
}

proof fn lemma_last_state(
    words: Seq<Seq<char>>,
    from: int,
    mac: Option<Seq<char>>,
    state: Seq<char>,
    k: int,
)
    requires
        0 < from <= k < words.len(),
        names_state(words[k]),
        words[k - 1] != "lladdr"@,
        forall|j: int| k < j < words.len() ==> !names_state(#[trigger] words[j]),
    ensures
        address_and_state(words, from, mac, state).1 == words[k],
    decreases words.len() - from,
{
    lemma_states(words[k]);
    if words[from] == "lladdr"@ && from + 1 < words.len() {
        lemma_last_state(words, from + 2, model::normalized(words[from + 1]), state, k);
    } else if from == k {
        lemma_state_stays(words, k + 1, mac, words[k]);
    } else if is_state(words[from]) {
        lemma_last_state(words, from + 1, mac, words[from], k);
    } else {
        lemma_last_state(words, from + 1, mac, state, k);
    }
}

proof fn lemma_mac_stays(words: Seq<Seq<char>>, from: int, mac: Option<Seq<char>>, state: Seq<char>)
    requires
        0 <= from,
        forall|j: int| from <= j < words.len() ==> (#[trigger] words[j]) != "lladdr"@,
    ensures
        address_and_state(words, from, mac, state).0 == mac,
    decreases words.len() - from,
{
    if from < words.len() {
        assert(words[from] != "lladdr"@);
        if is_state(words[from]) {
            lemma_mac_stays(words, from + 1, mac, words[from]);
        } else {
            lemma_mac_stays(words, from + 1, mac, state);
        }
    }
}

proof fn lemma_last_mac(
    words: Seq<Seq<char>>,
    from: int,
    mac: Option<Seq<char>>,
    state: Seq<char>,
    k: int,
)
    requires
        0 < from <= k,
        k + 1 < words.len(),
        words[k] == "lladdr"@,
        forall|j: int| 0 < j < words.len() && j != k ==> (#[trigger] words[j]) != "lladdr"@,
    ensures
        address_and_state(words, from, mac, state).0 == model::normalized(words[k + 1]),
    decreases words.len() - from,
{
    if from == k {
        lemma_mac_stays(words, k + 2, model::normalized(words[k + 1]), state);
    } else {
        assert(words[from] != "lladdr"@);
        if is_state(words[from]) {
            lemma_last_mac(words, from + 1, mac, words[from], k);
        } else {
            lemma_last_mac(words, from + 1, mac, state, k);
        }
    }
}

/// The address is one of fe80::/10.
pub open spec fn is_link_local(ip: IpAddr) -> bool {
    match ip {
        IpAddr::V4(_, _, _, _) => false,
        IpAddr::V6(g, _, _, _, _, _, _, _) => g as int / 64 == 0xfe80int / 64,
    }
}

/// The last state on a line says whether the neighbour is online: it is where the kernel reached it,
/// waits to ask it again, asks it, or keeps it for good; and a lost one without a hardware address
/// is not shown.
pub proof fn law_neighbor_state(line: Seq<char>, gateway: Option<IpAddr>, k: int)
    requires
        0 < k < text::words(line).len(),
        names_state(text::words(line)[k]),
        text::words(line)[k - 1] != "lladdr"@,
        forall|j: int|
            k < j < text::words(line).len() ==> !names_state(#[trigger] text::words(line)[j]),
    ensures
        ({
            let state = text::words(line)[k];
            &&& neighbor(line, gateway) matches Some(d) ==> (d.online <==> state == "REACHABLE"@
                || state == "DELAY"@ || state == "PROBE"@ || state == "PERMANENT"@)
            &&& neighbor(line, gateway) matches Some(d) ==> d.mac is None ==> state != "FAILED"@
                && state != "INCOMPLETE"@ && state != "NONE"@
            &&& addr::ip(text::words(line)[0]) matches Some(ip) ==> (neighbor(line, gateway) is None
                ==> is_link_local(ip) || state == "FAILED"@ || state == "INCOMPLETE"@ || state
                == "NONE"@)
        }),
{
    lemma_last_state(text::words(line), 1, None, seq![], k);
    lemma_states(text::words(line)[k]);
}

/// A line without a state describes a neighbour that is not online, and only where it has a hardware
/// address.
pub proof fn law_neighbor_without_state(line: Seq<char>, gateway: Option<IpAddr>)
    requires
        forall|j: int|
            0 < j < text::words(line).len() ==> !names_state(#[trigger] text::words(line)[j]),
    ensures
        neighbor(line, gateway) matches Some(d) ==> !d.online && d.mac is Some,
{
    lemma_state_stays(text::words(line), 1, None, seq![]);
    lemma_states("REACHABLE"@);
    lemma_states("DELAY"@);
    lemma_states("PROBE"@);
    lemma_states("PERMANENT"@);
}

/// What stands behind `lladdr` is the hardware address of the neighbour, in colon notation; one with
/// a hardware address and an address that is not link-local is always shown.
pub proof fn law_neighbor_mac(line: Seq<char>, gateway: Option<IpAddr>, k: int)
    requires
        0 < k,
        k + 1 < text::words(line).len(),
        text::words(line)[k] == "lladdr"@,
        forall|j: int|
            0 < j < text::words(line).len() && j != k ==> (#[trigger] text::words(line)[j])
                != "lladdr"@,
    ensures
        neighbor(line, gateway) matches Some(d) ==> d.mac == model::normalized(
            text::words(line)[k + 1],
        ),
        addr::ip(text::words(line)[0]) matches Some(ip) ==> (model::normalized(
            text::words(line)[k + 1],
        ) is Some && !is_link_local(ip) ==> neighbor(line, gateway) is Some),
{
    lemma_last_mac(text::words(line), 1, None, seq![], k);
}

/// What a line says of a neighbour beside its state and its hardware address: the address it begins
/// with, and whether that is the one of the gateway. Nothing is known of its link and its traffic.
pub proof fn law_neighbor_fields(line: Seq<char>, gateway: Option<IpAddr>)
    ensures
        neighbor(line, gateway) matches Some(d) ==> {
            &&& text::words(line).len() > 0
            &&& d.ip is Some && d.ip == addr::ip(text::words(line)[0])
            &&& !is_link_local(d.ip.unwrap())
            &&& d.is_gateway <==> gateway == d.ip
            &&& d.hostname == if gateway == d.ip {
                Some("gateway"@)
            } else {
                None
            }
            &&& d.mac matches Some(m) ==> d.vendor == oui::vendor(m)
            &&& d.mac is None ==> d.vendor is None
            &&& d.link == LinkKind::Unknown
            &&& d.bytes_rx is None && d.bytes_tx is None
            &&& d.rate_rx_bps is None && d.rate_tx_bps is None
            &&& !d.is_self && !d.blocked
            &&& d.source == DeviceSource::Lan
        },
{
}

/// The table is read line by line: every line that describes a neighbour gives one, in order.
pub proof fn law_neighbors_line_by_line(
    a: Seq<Seq<char>>,
    b: Seq<Seq<char>>,
    line: Seq<char>,
    gateway: Option<IpAddr>,
)
    ensures
        neighbors(a + b, gateway) == neighbors(a, gateway) + neighbors(b, gateway),
        neighbors(seq![line], gateway) == match neighbor(line, gateway) {
            Some(d) => seq![d],
            None => seq![],
        },
    decreases b.len(),
{
    assert(seq![line].drop_last() =~= seq![]);
    assert(neighbors(seq![], gateway) =~= seq![]);
    assert(neighbors(seq![line], gateway) =~= match neighbor(line, gateway) {
        Some(d) => seq![d],
        None => seq![],
    });
    if b.len() > 0 {
        law_neighbors_line_by_line(a, b.drop_last(), line, gateway);
        assert((a + b).drop_last() =~= a + b.drop_last());
        assert((a + b).last() == b.last());
        assert(neighbors(a + b, gateway) =~= neighbors(a, gateway) + neighbors(b, gateway));
    } else {
        assert(a + b =~= a);
        assert(neighbors(a + b, gateway) =~= neighbors(a, gateway) + neighbors(b, gateway));
    }
}

/// Behind the neighbours stands this machine, where it has an address: online, over WiFi, under its
/// own name and addresses.
pub proof fn law_local_network(
    out: Seq<char>,
    gateway: Option<IpAddr>,
    ip: IpAddr,
    self_mac: Option<Seq<char>>,
    self_name: Seq<char>,
)
    ensures
        local_network(out, gateway, None, self_mac, self_name) == neighbors(
            text::lines(out),
            gateway,
        ),
        ({
            let all = local_network(out, gateway, Some(ip), self_mac, self_name);
            &&& all.len() > 0
            &&& all.drop_last() == neighbors(text::lines(out), gateway)
            &&& all.last().hostname == Some(self_name)
            &&& all.last().ip == Some(ip)
            &&& all.last().mac == self_mac
            &&& self_mac matches Some(m) ==> all.last().vendor == oui::vendor(m)
            &&& all.last().link == LinkKind::Wifi
            &&& all.last().online && all.last().is_self && !all.last().is_gateway
            &&& !all.last().blocked
            &&& all.last().bytes_rx is None && all.last().bytes_tx is None
            &&& all.last().rate_rx_bps is None && all.last().rate_tx_bps is None
            &&& self_mac is None ==> all.last().vendor is None
            &&& all.last().source == DeviceSource::Local
        }),
{
    assert(local_network(out, gateway, Some(ip), self_mac, self_name).drop_last() =~= neighbors(
        text::lines(out),
        gateway,
    ));
}

/// This machine is called what `hostname` prints, without white space at the ends, or
/// `this-machine` where that is nothing.
pub proof fn law_local_name(s: Seq<char>)
    ensures
        local_name(None) == "this-machine"@,
        text::trim(s).len() == 0 ==> local_name(Some(s)) == "this-machine"@,
        text::trim(s).len() > 0 ==> local_name(Some(s)) == text::trim(s),
{
}

/// A device with an address and without a name, and no other, is asked for, by its address; it gets
/// the second word of the answer without dots at its end, unless that is the address again. Nothing
/// else changes.
pub proof fn law_named(d: model::DeviceView, ip: IpAddr, s: Seq<char>)
    ensures
        d.hostname is Some || d.ip is None ==> question(d) is None && named(d, Some(s)) == d
            && named(d, None) == d,
        d.hostname is None && d.ip == Some(ip) ==> {
            let e = named(d, Some(s));
            let w = text::words(s);
            &&& question(d) == Some(addr::ip_text(ip))
            &&& named(d, None) == d
            &&& e == (model::DeviceView { hostname: e.hostname, ..d })
            &&& w.len() < 2 ==> e.hostname is None
            &&& w.len() >= 2 && w[1] == addr::ip_text(ip) ==> e.hostname is None
            &&& w.len() >= 2 && w[1] != addr::ip_text(ip) ==> e.hostname == Some(
                text::trim_end_char(w[1], '.'),
            )
        },
{
}

} // verus!

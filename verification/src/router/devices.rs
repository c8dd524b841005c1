//! The devices that the router lists.

use crate::addr;
use crate::addr::IpAddr;
use crate::lan;
use crate::model;
use crate::model::{Device, DeviceSource, LinkKind};
use crate::oui;
use crate::router::filter;
use crate::router::page;
use crate::router::xml;
use crate::router::xml::XmlNode;
use crate::text;
use crate::textmap;
use crate::textmap::TextMap;
use vstd::prelude::*;

verus! {

/// A device of the router's list with the given identity.
pub open spec fn listed(
    hostname: Option<Seq<char>>,
    ip: Option<IpAddr>,
    mac: Option<Seq<char>>,
    link: LinkKind,
) -> model::DeviceView {
    model::DeviceView {
        hostname,
        ip,
        mac,
        vendor: lan::vendor_of(mac),
        link,
        online: true,
        is_self: false,
        is_gateway: false,
        blocked: false,
        bytes_rx: None,
        bytes_tx: None,
        rate_rx_bps: None,
        rate_tx_bps: None,
        source: DeviceSource::Router,
    }
}

fn listed_of(
    hostname: Option<String>,
    ip: Option<IpAddr>,
    mac: Option<String>,
    link: LinkKind,
) -> (r: Device)
    ensures
        r@ == listed(text::opt_text(hostname), ip, text::opt_text(mac), link),
{
    let vendor: Option<String> = oui::vendor_name(&mac);
    Device {
        hostname,
        ip,
        mac,
        vendor,
        link,
        online: true,
        is_self: false,
        is_gateway: false,
        blocked: false,
        bytes_rx: None,
        bytes_tx: None,
        rate_rx_bps: None,
        rate_tx_bps: None,
        source: DeviceSource::Router,
    }
}

/// The address that a text may hold.
pub open spec fn ip_in(s: Option<Seq<char>>) -> Option<IpAddr> {
    match s {
        Some(t) => addr::ip(t),
        None => None,
    }
}

/// The hardware address that a text may hold.
pub open spec fn mac_in(s: Option<Seq<char>>) -> Option<Seq<char>> {
    match s {
        Some(t) => model::normalized(t),
        None => None,
    }
}

fn ip_in_of(s: &Option<String>) -> (r: Option<IpAddr>)
    ensures
        r == ip_in(text::opt_text(*s)),
{
    match s {
        Some(t) => addr::parse_ip(t.as_str()),
        None => None,
    }
}

fn mac_in_of(s: &Option<String>) -> (r: Option<String>)
    ensures
        text::opt_text(r) == mac_in(text::opt_text(*s)),
{
    match s {
        Some(t) => model::normalize_mac(t.as_str()),
        None => None,
    }
}

// ---------------------------------------------------------------------------------------------
// From documents

/// The parameters of an instance from its children `kids`, from the child `k` on: a name directly
/// followed by its value.
pub open spec fn child_parameters(
    nodes: Seq<xml::XmlNodeView>,
    kids: Seq<int>,
    k: int,
    map: Seq<(Seq<char>, Seq<char>)>,
) -> Seq<(Seq<char>, Seq<char>)>
    decreases kids.len() - k,
{
    if k >= kids.len() {
        map
    } else if k + 1 < kids.len() && xml::has_tag_loosely(nodes[kids[k]], "ParaName"@)
        && xml::has_tag_loosely(nodes[kids[k + 1]], "ParaValue"@) {
        let key = xml::trimmed_text(nodes[kids[k]]);
        let value = xml::trimmed_text(nodes[kids[k + 1]]);
        child_parameters(
            nodes,
            kids,
            k + 2,
            if key.len() > 0 {
                textmap::put(map, key, value)
            } else {
                map
            },
        )
    } else {
        child_parameters(nodes, kids, k + 1, map)
    }
}

/// The parameter whose name stands at `j`, put into `map` where that has none of the name yet.
pub open spec fn with_parameter_at(
    nodes: Seq<xml::XmlNodeView>,
    j: int,
    map: Seq<(Seq<char>, Seq<char>)>,
) -> Seq<(Seq<char>, Seq<char>)> {
    let key = xml::trimmed_text(nodes[j]);
    match xml::element_sibling(nodes, j, j + 1) {
        Some(k) if xml::has_tag_loosely(nodes[j], "ParaName"@) && xml::has_tag_loosely(
            nodes[k],
            "ParaValue"@,
        ) && nodes[k].text is Some && key.len() > 0 && textmap::lookup(map, key) is None =>
            textmap::put(map, key, xml::trimmed_text(nodes[k])),
        _ => map,
    }
}

/// The parameters of an instance at `i` from all of its descendants before `end`: those in `map`,
/// and those that it lacks.
pub open spec fn descendant_parameters(
    nodes: Seq<xml::XmlNodeView>,
    i: int,
    end: int,
    map: Seq<(Seq<char>, Seq<char>)>,
) -> Seq<(Seq<char>, Seq<char>)>
    decreases end - i,
{
    if end <= i {
        map
    } else {
        with_parameter_at(nodes, end - 1, descendant_parameters(nodes, i, end - 1, map))
    }
}

/// The parameters of the instance at `i`.
pub open spec fn instance_parameters(nodes: Seq<xml::XmlNodeView>, i: int) -> Seq<
    (Seq<char>, Seq<char>),
> {
    let end = xml::subtree_end(nodes, i, i + 1);
    descendant_parameters(
        nodes,
        i,
        end,
        child_parameters(nodes, xml::element_children(nodes, i, end), 0, seq![]),
    )
}

/// The first value, from the entry `from` on, that is not empty and whose name ends with `suffix`
/// in any letter case.
pub open spec fn value_by_suffix(
    map: Seq<(Seq<char>, Seq<char>)>,
    suffix: Seq<char>,
    from: int,
) -> Option<Seq<char>>
    decreases map.len() - from,
{
    if from >= map.len() {
        None
    } else if text::ends_with(text::lower(map[from].0), text::lower(suffix)) && map[from].1.len()
        > 0 {
        Some(map[from].1)
    } else {
        value_by_suffix(map, suffix, from + 1)
    }
}

/// The device that the parameters of an instance describe; none without a name or an address.
pub open spec fn described(map: Seq<(Seq<char>, Seq<char>)>, link: LinkKind) -> Option<
    model::DeviceView,
> {
    let hostname = value_by_suffix(map, "HostName"@, 0);
    let ip = value_by_suffix(map, "IPAddress"@, 0);
    let mac = value_by_suffix(map, "MACAddress"@, 0);
    if hostname is None && ip is None && mac is None {
        None
    } else {
        Some(
            listed(
                match hostname {
                    Some(h) if h != "Unknown"@ => Some(h),
                    _ => None,
                },
                ip_in(ip),
                mac_in(mac),
                link,
            ),
        )
    }
}

/// The devices of the instances before position `end`.
pub open spec fn instances(nodes: Seq<xml::XmlNodeView>, end: int, link: LinkKind) -> Seq<
    model::DeviceView,
>
    decreases end,
{
    if end <= 0 {
        seq![]
    } else {
        let before = instances(nodes, end - 1, link);
        if xml::has_tag(nodes[end - 1], "Instance"@) {
            match described(instance_parameters(nodes, end - 1), link) {
                Some(d) => before.push(d),
                None => before,
            }
        } else {
            before
        }
    }
}

fn child_parameters_of(nodes: &Vec<XmlNode>, kids: &Vec<usize>) -> (map: TextMap<String>)
    requires
        forall|k: int| 0 <= k < kids@.len() ==> (#[trigger] kids@[k]) < nodes@.len(),
    ensures
        textmap::text_entries(map@) == child_parameters(
            xml::node_views(nodes@),
            kids@.map_values(|u: usize| u as int),
            0,
            seq![],
        ),
{
    let ghost model = xml::node_views(nodes@);
    let ghost ks = kids@.map_values(|u: usize| u as int);
    let mut map: TextMap<String> = TextMap::new();
    let n: usize = kids.len();
    let mut k: usize = 0;
    assert(textmap::text_entries(map@) =~= seq![]);
    while k < n
        invariant
            k <= n == kids@.len(),
            model == xml::node_views(nodes@),
            ks == kids@.map_values(|u: usize| u as int),
            forall|k: int| 0 <= k < kids@.len() ==> (#[trigger] kids@[k]) < nodes@.len(),
            child_parameters(model, ks, 0, seq![]) == child_parameters(
                model,
                ks,
                k as int,
                textmap::text_entries(map@),
            ),
        decreases n - k,
    {
        let at: usize = kids[k];
        assert(model[ks[k as int]] == nodes@[at as int]@);
        if n - k > 1 && xml::has_tag_loosely_of(&nodes[at], "ParaName") {
            let next: usize = kids[k + 1];
            assert(model[ks[k + 1]] == nodes@[next as int]@);
            if xml::has_tag_loosely_of(&nodes[next], "ParaValue") {
                let key: String = xml::trimmed_text_of(&nodes[at]);
                let value: String = xml::trimmed_text_of(&nodes[next]);
                if !key.as_str().is_empty() {
                    proof {
                        textmap::lemma_text_entries_put(map@, key@, value);
                    }
                    map.insert(key, value);
                }
                k = k + 2;
            } else {
                k = k + 1;
            }
        } else {
            k = k + 1;
        }
    }
    map
}

fn put_parameter_at(nodes: &Vec<XmlNode>, j: usize, map: &mut TextMap<String>)
    requires
        j < nodes@.len(),
    ensures
        textmap::text_entries(final(map)@) == with_parameter_at(
            xml::node_views(nodes@),
            j as int,
            textmap::text_entries(old(map)@),
        ),
{
    let ghost model = xml::node_views(nodes@);
    assert(model[j as int] == nodes@[j as int]@);
    if !xml::has_tag_loosely_of(&nodes[j], "ParaName") {
        return ;
    }
    let key: String = xml::trimmed_text_of(&nodes[j]);
    match xml::element_sibling_of(nodes, j) {
        Some(k) => {
            assert(model[k as int] == nodes@[k as int]@);
            proof {
                textmap::lemma_text_entries_lookup(map@, key@);
            }
            if xml::has_tag_loosely_of(&nodes[k], "ParaValue") && nodes[k].text.is_some()
                && !key.as_str().is_empty() && map.get(key.as_str()).is_none() {
                let value: String = xml::trimmed_text_of(&nodes[k]);
                proof {
                    textmap::lemma_text_entries_put(map@, key@, value);
                }
                map.insert(key, value);
            }
        },
        None => {},
    }
}

fn instance_parameters_of(nodes: &Vec<XmlNode>, i: usize) -> (map: TextMap<String>)
    requires
        i < nodes@.len(),
    ensures
        textmap::text_entries(map@) == instance_parameters(xml::node_views(nodes@), i as int),
{
    let ghost model = xml::node_views(nodes@);
    let end: usize = xml::subtree_end_of(nodes, i);
    let kids: Vec<usize> = xml::element_children_of(nodes, i, end);
    assert(kids@.map_values(|u: usize| u as int) =~= xml::element_children(
        model,
        i as int,
        end as int,
    ));
    let mut map: TextMap<String> = child_parameters_of(nodes, &kids);
    let ghost first = textmap::text_entries(map@);
    let mut j: usize = i;
    while j < end
        invariant
            i <= j <= end <= nodes@.len(),
            model == xml::node_views(nodes@),
            textmap::text_entries(map@) == descendant_parameters(model, i as int, j as int, first),
        decreases end - j,
    {
        put_parameter_at(nodes, j, &mut map);
        j = j + 1;
    }
    map
}

fn value_by_suffix_of(map: &TextMap<String>, suffix: &str) -> (r: Option<String>)
    ensures
        text::opt_text(r) == value_by_suffix(textmap::text_entries(map@), suffix@, 0),
{
    let ghost entries = textmap::text_entries(map@);
    let low: String = text::lower_str(suffix);
    let n: usize = map.len();
    let mut i: usize = 0;
    while i < n
        invariant
            i <= n == map@.len(),
            entries == textmap::text_entries(map@),
            low@ == text::lower(suffix@),
            value_by_suffix(entries, suffix@, 0) == value_by_suffix(entries, suffix@, i as int),
        decreases n - i,
    {
        assert(entries[i as int] == (map@[i as int].0, map@[i as int].1@));
        let key: String = text::lower_str(map.key_at(i).as_str());
        if text::ends_with_str(key.as_str(), low.as_str()) && !map.value_at(i).as_str().is_empty() {
            return Some(map.value_at(i).clone());
        }
        i = i + 1;
    }
    None
}

/// The device that the instance at `i` describes.
pub fn device_from_instance(nodes: &Vec<XmlNode>, i: usize, link: LinkKind) -> (r: Option<Device>)
    requires
        i < nodes@.len(),
    ensures
        match r {
            Some(d) => described(instance_parameters(xml::node_views(nodes@), i as int), link)
                == Some(d@),
            None => described(
                instance_parameters(xml::node_views(nodes@), i as int),
                link,
            ) is None,
        },
{
    let map: TextMap<String> = instance_parameters_of(nodes, i);
    let hostname: Option<String> = value_by_suffix_of(&map, "HostName");
    let ip: Option<String> = value_by_suffix_of(&map, "IPAddress");
    let mac: Option<String> = value_by_suffix_of(&map, "MACAddress");
    if hostname.is_none() && ip.is_none() && mac.is_none() {
        return None;
    }
    let shown: Option<String> = match hostname {
        Some(h) => {
            if text::same_text(h.as_str(), "Unknown") {
                None
            } else {
                Some(h)
            }
        },
        None => None,
    };
    Some(listed_of(shown, ip_in_of(&ip), mac_in_of(&mac), link))
}

// ---------------------------------------------------------------------------------------------
// From text that is no document

/// The device that a part of a page describes; none without a name or an address.
pub open spec fn loose_device(chunk: Seq<char>, link: LinkKind) -> Option<model::DeviceView> {
    let map = page::parameters(chunk, seq![]);
    let hostname = filter::first_of(
        textmap::lookup(map, "HostName"@),
        textmap::lookup(map, "_LuQUID_HostName"@),
    );
    let ip = ip_in(
        filter::first_of(
            textmap::lookup(map, "IPAddress"@),
            textmap::lookup(map, "_LuQUID_IPAddress"@),
        ),
    );
    let mac = mac_in(
        filter::first_of(
            textmap::lookup(map, "MACAddress"@),
            textmap::lookup(map, "_LuQUID_MACAddress"@),
        ),
    );
    if hostname is None && ip is None && mac is None {
        None
    } else {
        Some(listed(hostname, ip, mac, link))
    }
}

/// The devices that the parts describe, in order.
pub open spec fn loose_devices(chunks: Seq<Seq<char>>, link: LinkKind) -> Seq<model::DeviceView>
    decreases chunks.len(),
{
    if chunks.len() == 0 {
        seq![]
    } else {
        match loose_device(chunks.last(), link) {
            Some(d) => loose_devices(chunks.drop_last(), link).push(d),
            None => loose_devices(chunks.drop_last(), link),
        }
    }
}

/// The parts of a page: its instances, or the whole page where it has none.
pub open spec fn parts(body: Seq<char>) -> Seq<Seq<char>> {
    if text::contains(body, "<Instance>"@) {
        text::split_on(body, "<Instance>"@).skip(1)
    } else {
        seq![body]
    }
}

fn loose_device_of(chunk: &str, link: LinkKind) -> (r: Option<Device>)
    ensures
        match r {
            Some(d) => loose_device(chunk@, link) == Some(d@),
            None => loose_device(chunk@, link) is None,
        },
{
    let map: TextMap<String> = page::para_map_from_chunk(chunk);
    let hostname: Option<String> = filter::text_under_either(&map, "HostName", "_LuQUID_HostName");
    let ip: Option<IpAddr> = ip_in_of(
        &filter::text_under_either(&map, "IPAddress", "_LuQUID_IPAddress"),
    );
    let mac: Option<String> = mac_in_of(
        &filter::text_under_either(&map, "MACAddress", "_LuQUID_MACAddress"),
    );
    if hostname.is_none() && ip.is_none() && mac.is_none() {
        return None;
    }
    Some(listed_of(hostname, ip, mac, link))
}

/// The devices on a page that need not be a document.
pub fn scrape_devices_loose(body: &str, link: LinkKind) -> (out: Vec<Device>)
    ensures
        model::device_views(out@) == loose_devices(parts(body@), link),
{
    proof {
        reveal_strlit("<Instance>");
    }
    let mut chunks: Vec<String> = Vec::new();
    if text::contains_str(body, "<Instance>") {
        let ghost pieces = text::split_on(body@, "<Instance>"@);
        assert(pieces.len() > 0);
        chunks = text::split_str(body, "<Instance>");
        assert(text::texts(chunks@).len() == chunks@.len());
        let ghost before = chunks@;
        chunks.remove(0);
        assert(text::texts(chunks@) =~= pieces.skip(1)) by {
            assert forall|k: int| 0 <= k < chunks@.len() implies text::texts(chunks@)[k]
                == pieces.skip(1)[k] by {
                assert(text::texts(before)[k + 1] == before[k + 1]@);
                assert(chunks@[k] == before[k + 1]);
            }
        }
    } else {
        chunks.push(body.to_owned());
        assert(text::texts(chunks@) =~= seq![body@]);
    }
    let ghost model = parts(body@);
    let mut out: Vec<Device> = Vec::new();
    let mut i: usize = 0;
    assert(model.take(0) =~= seq![]);
    assert(model::device_views(out@) =~= seq![]);
    while i < chunks.len()
        invariant
            i <= chunks@.len(),
            model == text::texts(chunks@),
            model::device_views(out@) == loose_devices(model.take(i as int), link),
        decreases chunks@.len() - i,
    {
        assert(model[i as int] == chunks@[i as int]@);
        assert(model.take(i + 1).drop_last() =~= model.take(i as int));
        if let Some(d) = loose_device_of(chunks[i].as_str(), link) {
            proof {
                model::lemma_device_views_push(out@, d);
            }
            out.push(d);
        }
        i = i + 1;
    }
    assert(model.take(i as int) =~= model);
    out
}

// ---------------------------------------------------------------------------------------------
// The list

/// The devices on the page `body`, whose nodes are `nodes` where it is a document: those of its
/// instances, or where there are none those found in its text.
pub open spec fn access_devices(
    body: Seq<char>,
    nodes: Option<Seq<xml::XmlNodeView>>,
    link: LinkKind,
) -> Result<Seq<model::DeviceView>, Seq<char>> {
    if text::trim(body).len() == 0 {
        Ok(seq![])
    } else if text::contains(body, "SessionTimeout"@) {
        Err("session timeout"@)
    } else {
        let found = match nodes {
            Some(n) => instances(n, n.len() as int, link),
            None => seq![],
        };
        if found.len() == 0 {
            Ok(loose_devices(parts(body), link))
        } else {
            Ok(found)
        }
    }
}

/// The model of a list of devices that may have failed.
pub open spec fn result_views(r: Result<Vec<Device>, String>) -> Result<
    Seq<model::DeviceView>,
    Seq<char>,
> {
    match r {
        Ok(v) => Ok(model::device_views(v@)),
        Err(e) => Err(e@),
    }
}

fn instances_of(nodes: &Vec<XmlNode>, link: LinkKind) -> (out: Vec<Device>)
    ensures
        model::device_views(out@) == instances(
            xml::node_views(nodes@),
            nodes@.len() as int,
            link,
        ),
{
    let ghost model = xml::node_views(nodes@);
    let mut out: Vec<Device> = Vec::new();
    let mut i: usize = 0;
    assert(model::device_views(out@) =~= seq![]);
    while i < nodes.len()
        invariant
            i <= nodes@.len(),
            model == xml::node_views(nodes@),
            model::device_views(out@) == instances(model, i as int, link),
        decreases nodes@.len() - i,
    {
        assert(model[i as int] == nodes@[i as int]@);
        if nodes[i].element && text::same_text(nodes[i].tag.as_str(), "Instance") {
            if let Some(d) = device_from_instance(nodes, i, link) {
                proof {
                    model::lemma_device_views_push(out@, d);
                }
                out.push(d);
            }
        }
        i = i + 1;
    }
    out
}

/// The devices on the page `body`, whose nodes are `nodes` where it is a document.
pub fn devices_of_page(body: &str, nodes: &Option<Vec<XmlNode>>, link: LinkKind) -> (r: Result<
    Vec<Device>,
    String,
>)
    ensures
        result_views(r) == access_devices(body@, xml::opt_node_views(*nodes), link),
{
    if text::trim_str(body).as_str().is_empty() {
        let none: Vec<Device> = Vec::new();
        assert(model::device_views(none@) =~= seq![]);
        return Ok(none);
    }
    if text::contains_str(body, "SessionTimeout") {
        return Err("session timeout".to_owned());
    }
    if let Some(n) = nodes {
        let found: Vec<Device> = instances_of(n, link);
        assert(model::device_views(found@).len() == found@.len());
        if found.len() > 0 {
            return Ok(found);
        }
    }
    Ok(scrape_devices_loose(body, link))
}

/// The devices on the page `body`.
pub fn parse_accessdev_xml(body: &str, link: LinkKind) -> (r: Result<Vec<Device>, String>)
    requires
        text::trim(body@).len() == 0 || text::contains(body@, "SessionTimeout"@) || xml::shallow(
            body@,
        ),
    ensures
        result_views(r) == access_devices(body@, xml::document_nodes(body@), link),
{
    let nodes: Option<Vec<XmlNode>> = if text::trim_str(body).as_str().is_empty()
        || text::contains_str(body, "SessionTimeout") {
        None
    } else {
        xml::parse_document(body)
    };
    devices_of_page(body, &nodes, link)
}

// ---------------------------------------------------------------------------------------------
// Laws

/// A device that comes from the router over `link`, without counters of its own and not yet held
/// against the block list.
pub open spec fn is_listed(d: model::DeviceView, link: LinkKind) -> bool {
    &&& d.source == DeviceSource::Router
    &&& d.link == link
    &&& d.online
    &&& !d.is_self
    &&& !d.is_gateway
    &&& !d.blocked
    &&& d.bytes_rx is None && d.bytes_tx is None
    &&& d.rate_rx_bps is None && d.rate_tx_bps is None
    &&& d.vendor == lan::vendor_of(d.mac)
    &&& d.mac matches Some(mac) ==> model::is_colon_address(mac)
}

proof fn lemma_listed(
    hostname: Option<Seq<char>>,
    ip: Option<IpAddr>,
    mac: Option<Seq<char>>,
    link: LinkKind,
)
    ensures
        is_listed(listed(hostname, ip, mac_in(mac), link), link),
{
    if let Some(m) = mac {
        if model::normalized(m) is Some {
            model::law_normalize_idempotent(m);
        }
    }
}

proof fn lemma_instances(nodes: Seq<xml::XmlNodeView>, end: int, link: LinkKind)
    ensures
        forall|k: int|
            0 <= k < instances(nodes, end, link).len() ==> is_listed(
                #[trigger] instances(nodes, end, link)[k],
                link,
            ),
    decreases end,
{
    if end > 0 {
        lemma_instances(nodes, end - 1, link);
        let map = instance_parameters(nodes, end - 1);
        let hostname = value_by_suffix(map, "HostName"@, 0);
        lemma_listed(
            match hostname {
                Some(h) if h != "Unknown"@ => Some(h),
                _ => None,
            },
            ip_in(value_by_suffix(map, "IPAddress"@, 0)),
            value_by_suffix(map, "MACAddress"@, 0),
            link,
        );
        let before = instances(nodes, end - 1, link);
        let all = instances(nodes, end, link);
        assert forall|k: int| 0 <= k < all.len() implies is_listed(#[trigger] all[k], link) by {
            if k < before.len() {
                assert(all[k] == before[k]);
            }
        }
    }
}

proof fn lemma_loose_devices(chunks: Seq<Seq<char>>, link: LinkKind)
    ensures
        forall|k: int|
            0 <= k < loose_devices(chunks, link).len() ==> is_listed(
                #[trigger] loose_devices(chunks, link)[k],
                link,
            ),
    decreases chunks.len(),
{
    if chunks.len() > 0 {
        lemma_loose_devices(chunks.drop_last(), link);
        let map = page::parameters(chunks.last(), seq![]);
        lemma_listed(
            filter::first_of(
                textmap::lookup(map, "HostName"@),
                textmap::lookup(map, "_LuQUID_HostName"@),
            ),
            ip_in(
                filter::first_of(
                    textmap::lookup(map, "IPAddress"@),
                    textmap::lookup(map, "_LuQUID_IPAddress"@),
                ),
            ),
            filter::first_of(
                textmap::lookup(map, "MACAddress"@),
                textmap::lookup(map, "_LuQUID_MACAddress"@),
            ),
            link,
        );
        let before = loose_devices(chunks.drop_last(), link);
        let all = loose_devices(chunks, link);
        assert forall|k: int| 0 <= k < all.len() implies is_listed(#[trigger] all[k], link) by {
            if k < before.len() {
                assert(all[k] == before[k]);
            }
        }
    }
}

/// Every device of the list comes from the router, is online and of the given kind of link, has no
/// counters, is not marked as blocked yet, and its hardware address, if it has one, stands in colon notation.
pub proof fn law_access_devices(
    body: Seq<char>,
    nodes: Option<Seq<xml::XmlNodeView>>,
    link: LinkKind,
    k: int,
)
    ensures
        access_devices(body, nodes, link) matches Ok(devices) ==> (0 <= k < devices.len()
            ==> is_listed(devices[k], link)),
{
    if let Some(n) = nodes {
        lemma_instances(n, n.len() as int, link);
    }
    lemma_loose_devices(parts(body), link);
}

/// The text ends with `suffix`, in any letter case.
pub open spec fn ends_loosely(s: Seq<char>, suffix: Seq<char>) -> bool {
    suffix.len() <= s.len() && text::lower(s.skip(s.len() - suffix.len())) == text::lower(suffix)
}

proof fn lemma_ends_loosely(s: Seq<char>, suffix: Seq<char>)
    ensures
        ends_loosely(s, suffix) <==> text::ends_with(text::lower(s), text::lower(suffix)),
{
    if suffix.len() <= s.len() {
        assert(text::lower(s).skip(s.len() - suffix.len()) =~= text::lower(
            s.skip(s.len() - suffix.len()),
        ));
    }
}

/// The entry `e` is the first one whose name ends with `suffix`.
pub open spec fn first_with_suffix(
    map: Seq<(Seq<char>, Seq<char>)>,
    suffix: Seq<char>,
    e: int,
) -> bool {
    &&& 0 <= e < map.len()
    &&& ends_loosely(map[e].0, suffix)
    &&& forall|j: int| 0 <= j < e ==> !ends_loosely((#[trigger] map[j]).0, suffix)
}

/// No name ends with `suffix`.
pub open spec fn none_with_suffix(map: Seq<(Seq<char>, Seq<char>)>, suffix: Seq<char>) -> bool {
    forall|j: int| 0 <= j < map.len() ==> !ends_loosely((#[trigger] map[j]).0, suffix)
}

proof fn lemma_value_first(
    map: Seq<(Seq<char>, Seq<char>)>,
    suffix: Seq<char>,
    e: int,
    from: int,
)
    requires
        0 <= from <= e,
        first_with_suffix(map, suffix, e),
        map[e].1.len() > 0,
    ensures
        value_by_suffix(map, suffix, from) == Some(map[e].1),
    decreases e - from,
{
    lemma_ends_loosely(map[from].0, suffix);
    if from < e {
        lemma_value_first(map, suffix, e, from + 1);
    }
}

proof fn lemma_value_none(map: Seq<(Seq<char>, Seq<char>)>, suffix: Seq<char>, from: int)
    requires
        0 <= from,
        none_with_suffix(map, suffix),
    ensures
        value_by_suffix(map, suffix, from) is None,
    decreases map.len() - from,
{
    if from < map.len() {
        lemma_ends_loosely(map[from].0, suffix);
        lemma_value_none(map, suffix, from + 1);
    }
}

proof fn lemma_put_none(
    map: Seq<(Seq<char>, Seq<char>)>,
    suffix: Seq<char>,
    key: Seq<char>,
    value: Seq<char>,
)
    requires
        none_with_suffix(map, suffix),
    ensures
        !ends_loosely(key, suffix) ==> none_with_suffix(textmap::put(map, key, value), suffix),
        ends_loosely(key, suffix) ==> first_with_suffix(
            textmap::put(map, key, value),
            suffix,
            map.len() as int,
        ) && textmap::put(map, key, value)[map.len() as int] == (key, value),
{
    textmap::lemma_position(map, key, 0);
}

proof fn lemma_put_first(
    map: Seq<(Seq<char>, Seq<char>)>,
    suffix: Seq<char>,
    e: int,
    key: Seq<char>,
    value: Seq<char>,
)
    requires
        first_with_suffix(map, suffix, e),
        key != map[e].0,
    ensures
        first_with_suffix(textmap::put(map, key, value), suffix, e),
        textmap::put(map, key, value)[e] == map[e],
{
    textmap::lemma_position(map, key, 0);
}

proof fn lemma_names_differ(n: xml::XmlNodeView)
    ensures
        !(xml::has_tag_loosely(n, "ParaName"@) && xml::has_tag_loosely(n, "ParaValue"@)),
{
    reveal_strlit("ParaName");
    reveal_strlit("ParaValue");
    assert(text::lower("ParaName"@).len() == 8);
    assert(text::lower("ParaValue"@).len() == 9);
}

/// The children `kids` name no parameter that ends with `suffix` before the child `p`.
pub open spec fn none_named_before(
    nodes: Seq<xml::XmlNodeView>,
    kids: Seq<int>,
    suffix: Seq<char>,
    p: int,
) -> bool {
    forall|k: int|
        0 <= k < p && k < kids.len() && xml::has_tag_loosely(nodes[#[trigger] kids[k]], "ParaName"@)
            ==> !ends_loosely(xml::trimmed_text(nodes[kids[k]]), suffix)
}

proof fn lemma_children_none(
    nodes: Seq<xml::XmlNodeView>,
    kids: Seq<int>,
    k: int,
    map: Seq<(Seq<char>, Seq<char>)>,
    suffix: Seq<char>,
)
    requires
        0 <= k,
        none_with_suffix(map, suffix),
        none_named_before(nodes, kids, suffix, kids.len() as int),
    ensures
        none_with_suffix(child_parameters(nodes, kids, k, map), suffix),
    decreases kids.len() - k,
{
    if k >= kids.len() {
    } else if k + 1 < kids.len() && xml::has_tag_loosely(nodes[kids[k]], "ParaName"@)
        && xml::has_tag_loosely(nodes[kids[k + 1]], "ParaValue"@) {
        let key = xml::trimmed_text(nodes[kids[k]]);
        let value = xml::trimmed_text(nodes[kids[k + 1]]);
        lemma_put_none(map, suffix, key, value);
        lemma_children_none(
            nodes,
            kids,
            k + 2,
            if key.len() > 0 {
                textmap::put(map, key, value)
            } else {
                map
            },
            suffix,
        );
    } else {
        lemma_children_none(nodes, kids, k + 1, map, suffix);
    }
}

proof fn lemma_children_keep(
    nodes: Seq<xml::XmlNodeView>,
    kids: Seq<int>,
    k: int,
    map: Seq<(Seq<char>, Seq<char>)>,
    suffix: Seq<char>,
    e: int,
)
    requires
        0 <= k,
        first_with_suffix(map, suffix, e),
        forall|j: int|
            k <= j < kids.len() && xml::has_tag_loosely(
                nodes[#[trigger] kids[j]],
                "ParaName"@,
            ) ==> xml::trimmed_text(nodes[kids[j]]) != map[e].0,
    ensures
        first_with_suffix(child_parameters(nodes, kids, k, map), suffix, e),
        child_parameters(nodes, kids, k, map)[e] == map[e],
    decreases kids.len() - k,
{
    if k >= kids.len() {
    } else if k + 1 < kids.len() && xml::has_tag_loosely(nodes[kids[k]], "ParaName"@)
        && xml::has_tag_loosely(nodes[kids[k + 1]], "ParaValue"@) {
        let key = xml::trimmed_text(nodes[kids[k]]);
        let value = xml::trimmed_text(nodes[kids[k + 1]]);
        lemma_put_first(map, suffix, e, key, value);
        lemma_children_keep(
            nodes,
            kids,
            k + 2,
            if key.len() > 0 {
                textmap::put(map, key, value)
            } else {
                map
            },
            suffix,
            e,
        );
    } else {
        lemma_children_keep(nodes, kids, k + 1, map, suffix, e);
    }
}

proof fn lemma_children_first(
    nodes: Seq<xml::XmlNodeView>,
    kids: Seq<int>,
    k: int,
    map: Seq<(Seq<char>, Seq<char>)>,
    suffix: Seq<char>,
    p: int,
) -> (e: int)
    requires
        0 <= k <= p,
        p + 1 < kids.len(),
        none_with_suffix(map, suffix),
        none_named_before(nodes, kids, suffix, p),
        xml::has_tag_loosely(nodes[kids[p]], "ParaName"@),
        xml::has_tag_loosely(nodes[kids[p + 1]], "ParaValue"@),
        xml::trimmed_text(nodes[kids[p]]).len() > 0,
        ends_loosely(xml::trimmed_text(nodes[kids[p]]), suffix),
        forall|j: int|
            p < j < kids.len() && xml::has_tag_loosely(
                nodes[#[trigger] kids[j]],
                "ParaName"@,
            ) ==> xml::trimmed_text(nodes[kids[j]]) != xml::trimmed_text(nodes[kids[p]]),
    ensures
        first_with_suffix(child_parameters(nodes, kids, k, map), suffix, e),
        child_parameters(nodes, kids, k, map)[e] == (
            xml::trimmed_text(nodes[kids[p]]),
            xml::trimmed_text(nodes[kids[p + 1]]),
        ),
    decreases kids.len() - k,
{
    let key = xml::trimmed_text(nodes[kids[k]]);
    if k == p {
        let value = xml::trimmed_text(nodes[kids[k + 1]]);
        lemma_put_none(map, suffix, key, value);
        lemma_children_keep(
            nodes,
            kids,
            k + 2,
            textmap::put(map, key, value),
            suffix,
            map.len() as int,
        );
        map.len() as int
    } else if xml::has_tag_loosely(nodes[kids[k]], "ParaName"@) && xml::has_tag_loosely(
        nodes[kids[k + 1]],
        "ParaValue"@,
    ) {
        let value = xml::trimmed_text(nodes[kids[k + 1]]);
        lemma_names_differ(nodes[kids[p]]);
        lemma_put_none(map, suffix, key, value);
        lemma_children_first(
            nodes,
            kids,
            k + 2,
            if key.len() > 0 {
                textmap::put(map, key, value)
            } else {
                map
            },
            suffix,
            p,
        )
    } else {
        lemma_children_first(nodes, kids, k + 1, map, suffix, p)
    }
}

proof fn lemma_descendants_keep(
    nodes: Seq<xml::XmlNodeView>,
    i: int,
    end: int,
    map: Seq<(Seq<char>, Seq<char>)>,
    suffix: Seq<char>,
    e: int,
)
    requires
        first_with_suffix(map, suffix, e),
    ensures
        first_with_suffix(descendant_parameters(nodes, i, end, map), suffix, e),
        descendant_parameters(nodes, i, end, map)[e] == map[e],
    decreases end - i,
{
    if end > i {
        lemma_descendants_keep(nodes, i, end - 1, map, suffix, e);
        let so_far = descendant_parameters(nodes, i, end - 1, map);
        let key = xml::trimmed_text(nodes[end - 1]);
        if textmap::lookup(so_far, key) is None {
            textmap::lemma_position(so_far, key, 0);
            if let Some(k) = xml::element_sibling(nodes, end - 1, end) {
                lemma_put_first(so_far, suffix, e, key, xml::trimmed_text(nodes[k]));
            }
        }
    }
}

proof fn lemma_descendants_none(
    nodes: Seq<xml::XmlNodeView>,
    i: int,
    end: int,
    map: Seq<(Seq<char>, Seq<char>)>,
    suffix: Seq<char>,
)
    requires
        none_with_suffix(map, suffix),
        forall|j: int|
            i <= j < end && xml::has_tag_loosely(#[trigger] nodes[j], "ParaName"@)
                ==> !ends_loosely(xml::trimmed_text(nodes[j]), suffix),
    ensures
        none_with_suffix(descendant_parameters(nodes, i, end, map), suffix),
    decreases end - i,
{
    if end > i {
        lemma_descendants_none(nodes, i, end - 1, map, suffix);
        let so_far = descendant_parameters(nodes, i, end - 1, map);
        let key = xml::trimmed_text(nodes[end - 1]);
        if let Some(k) = xml::element_sibling(nodes, end - 1, end) {
            lemma_put_none(so_far, suffix, key, xml::trimmed_text(nodes[k]));
        }
    }
}

/// The node at `k` is an element and a child of the node at `i`.
pub open spec fn is_child(nodes: Seq<xml::XmlNodeView>, i: int, k: int) -> bool {
    nodes[k].element && (nodes[k].parent matches Some(p) && p == i)
}

proof fn lemma_children(nodes: Seq<xml::XmlNodeView>, i: int, end: int)
    requires
        0 <= i,
    ensures
        forall|m: int|
            0 <= m < xml::element_children(nodes, i, end).len() ==> i < (
            #[trigger] xml::element_children(nodes, i, end)[m]) < end && is_child(
                nodes,
                i,
                xml::element_children(nodes, i, end)[m],
            ),
        forall|m: int, o: int|
            0 <= m < o < xml::element_children(nodes, i, end).len() ==> (
            #[trigger] xml::element_children(nodes, i, end)[m]) < (#[trigger] xml::element_children(
                nodes,
                i,
                end,
            )[o]),
        forall|k: int|
            i < k < end && #[trigger] is_child(nodes, i, k) ==> xml::element_children(
                nodes,
                i,
                end,
            ).contains(k),
    decreases end - i,
{
    if end > i + 1 {
        lemma_children(nodes, i, end - 1);
        let before = xml::element_children(nodes, i, end - 1);
        let all = xml::element_children(nodes, i, end);
        assert forall|k: int| i < k < end && #[trigger] is_child(nodes, i, k) implies all.contains(
            k,
        ) by {
            if k < end - 1 {
                assert(before.contains(k));
                let m = choose|m: int| 0 <= m < before.len() && before[m] == k;
                assert(all[m] == k);
            } else {
                assert(all[all.len() - 1] == k);
            }
        }
    }
}

proof fn lemma_subtree_end(nodes: Seq<xml::XmlNodeView>, i: int, j: int, q: int)
    requires
        0 <= i < j <= q < nodes.len(),
        forall|k: int| j <= k <= q ==> ((#[trigger] nodes[k]).parent matches Some(p) && p >= i),
    ensures
        xml::subtree_end(nodes, i, j) > q,
    decreases q - j,
{
    assert(nodes[j].parent is Some);
    if j < q {
        lemma_subtree_end(nodes, i, j + 1, q);
    } else {
        lemma_subtree_after(nodes, i, j + 1);
    }
}

proof fn lemma_subtree_after(nodes: Seq<xml::XmlNodeView>, i: int, j: int)
    ensures
        xml::subtree_end(nodes, i, j) >= j,
    decreases nodes.len() - j,
{
    if j < nodes.len() {
        lemma_subtree_after(nodes, i, j + 1);
    }
}

/// The node is an element `ParaName` in any letter case that holds `name`.
pub open spec fn names_parameter(n: xml::XmlNodeView, name: Seq<char>) -> bool {
    n.element && text::lower(n.tag) == text::lower("ParaName"@) && (n.text matches Some(t)
        && text::trim(t) == name)
}

/// The node is an element `ParaValue` in any letter case that holds `value`.
pub open spec fn holds_value(n: xml::XmlNodeView, value: Seq<char>) -> bool {
    n.element && text::lower(n.tag) == text::lower("ParaValue"@) && (n.text matches Some(t)
        && text::trim(t) == value)
}

/// The instance at `i` has the parameter `name` with the value `value`: among its children an element
/// with the name at `p` is directly followed by an element with the value at `q`; no child before it
/// names a parameter that ends with `suffix`, and none behind it names the same one.
pub open spec fn has_parameter(
    nodes: Seq<xml::XmlNodeView>,
    i: int,
    p: int,
    q: int,
    name: Seq<char>,
    value: Seq<char>,
    suffix: Seq<char>,
) -> bool {
    &&& 0 <= i < p < q < nodes.len()
    &&& forall|k: int| i < k <= q ==> ((#[trigger] nodes[k]).parent matches Some(a) && a >= i)
    &&& is_child(nodes, i, p) && names_parameter(nodes[p], name) && name.len() > 0
    &&& is_child(nodes, i, q) && holds_value(nodes[q], value) && value.len() > 0
    &&& forall|k: int| p < k < q ==> !#[trigger] is_child(nodes, i, k)
    &&& ends_loosely(name, suffix)
    &&& forall|k: int, other: Seq<char>|
        i < k < p && is_child(nodes, i, k) && #[trigger] names_parameter(nodes[k], other)
            ==> !ends_loosely(other, suffix)
    &&& forall|k: int|
        p < k < nodes.len() && is_child(nodes, i, k) ==> !#[trigger] names_parameter(nodes[k], name)
}

proof fn lemma_parameter(
    nodes: Seq<xml::XmlNodeView>,
    i: int,
    p: int,
    q: int,
    name: Seq<char>,
    value: Seq<char>,
    suffix: Seq<char>,
)
    requires
        has_parameter(nodes, i, p, q, name, value, suffix),
        suffix.len() > 0,
    ensures
        value_by_suffix(instance_parameters(nodes, i), suffix, 0) == Some(value),
{
    let end = xml::subtree_end(nodes, i, i + 1);
    lemma_subtree_end(nodes, i, i + 1, q);
    lemma_subtree_bound(nodes, i, i + 1);
    let kids = xml::element_children(nodes, i, end);
    lemma_children(nodes, i, end);
    assert(kids.contains(p));
    assert(kids.contains(q));
    let a = choose|m: int| 0 <= m < kids.len() && kids[m] == p;
    let b = choose|m: int| 0 <= m < kids.len() && kids[m] == q;
    assert(a < b) by {
        if b < a {
            assert(kids[b] < kids[a]);
        }
    }
    assert(b == a + 1) by {
        if b > a + 1 {
            assert(kids[a] < kids[a + 1]);
            assert(kids[a + 1] < kids[b]);
            assert(is_child(nodes, i, kids[a + 1]));
        }
    }
    assert(none_named_before(nodes, kids, suffix, a)) by {
        assert forall|k: int|
            0 <= k < a && k < kids.len() && xml::has_tag_loosely(
                nodes[#[trigger] kids[k]],
                "ParaName"@,
            ) implies !ends_loosely(xml::trimmed_text(nodes[kids[k]]), suffix) by {
            assert(kids[k] < kids[a]);
            let other = xml::trimmed_text(nodes[kids[k]]);
            if nodes[kids[k]].text is Some {
                assert(names_parameter(nodes[kids[k]], other));
            }
        }
    }
    assert forall|j: int|
        a < j < kids.len() && xml::has_tag_loosely(
            nodes[#[trigger] kids[j]],
            "ParaName"@,
        ) implies xml::trimmed_text(nodes[kids[j]]) != xml::trimmed_text(nodes[kids[a]]) by {
        assert(kids[a] < kids[j]);
        assert(!names_parameter(nodes[kids[j]], name));
    }
    let e = lemma_children_first(nodes, kids, 0, seq![], suffix, a);
    let first = child_parameters(nodes, kids, 0, seq![]);
    lemma_descendants_keep(nodes, i, end, first, suffix, e);
    lemma_value_first(instance_parameters(nodes, i), suffix, e, 0);
}

proof fn lemma_subtree_bound(nodes: Seq<xml::XmlNodeView>, i: int, j: int)
    requires
        j <= nodes.len(),
    ensures
        xml::subtree_end(nodes, i, j) <= nodes.len(),
    decreases nodes.len() - j,
{
    if j < nodes.len() {
        lemma_subtree_bound(nodes, i, j + 1);
    }
}

/// The address of a listed device is the one that its instance gives under a name that ends with
/// `IPAddress`.
pub proof fn law_listed_ip(
    nodes: Seq<xml::XmlNodeView>,
    i: int,
    p: int,
    q: int,
    name: Seq<char>,
    value: Seq<char>,
    link: LinkKind,
)
    requires
        has_parameter(nodes, i, p, q, name, value, "IPAddress"@),
    ensures
        described(instance_parameters(nodes, i), link) matches Some(d) && d.ip == addr::ip(value),
{
    reveal_strlit("IPAddress");
    lemma_parameter(nodes, i, p, q, name, value, "IPAddress"@);
}

/// The hardware address of a listed device is the one that its instance gives under a name that ends
/// with `MACAddress`, in colon notation, and its vendor is that of this address.
pub proof fn law_listed_mac(
    nodes: Seq<xml::XmlNodeView>,
    i: int,
    p: int,
    q: int,
    name: Seq<char>,
    value: Seq<char>,
    link: LinkKind,
)
    requires
        has_parameter(nodes, i, p, q, name, value, "MACAddress"@),
    ensures
        described(instance_parameters(nodes, i), link) matches Some(d) && d.mac == model::normalized(
            value,
        ) && (d.mac matches Some(m) ==> d.vendor == oui::vendor(m)),
{
    reveal_strlit("MACAddress");
    lemma_parameter(nodes, i, p, q, name, value, "MACAddress"@);
}

/// The name of a listed device is the one that its instance gives under a name that ends with
/// `HostName`; `Unknown` is no name.
pub proof fn law_listed_hostname(
    nodes: Seq<xml::XmlNodeView>,
    i: int,
    p: int,
    q: int,
    name: Seq<char>,
    value: Seq<char>,
    link: LinkKind,
)
    requires
        has_parameter(nodes, i, p, q, name, value, "HostName"@),
    ensures
        described(instance_parameters(nodes, i), link) matches Some(d) && d.hostname == if value
            == "Unknown"@ {
            None
        } else {
            Some(value)
        },
{
    reveal_strlit("HostName");
    lemma_parameter(nodes, i, p, q, name, value, "HostName"@);
}

/// No node of the instance at `i` names a parameter that ends with `suffix`.
pub open spec fn lacks_parameter(nodes: Seq<xml::XmlNodeView>, i: int, suffix: Seq<char>) -> bool {
    &&& 0 <= i < nodes.len()
    &&& forall|k: int, other: Seq<char>|
        i <= k < nodes.len() && #[trigger] names_parameter(nodes[k], other) ==> !ends_loosely(
            other,
            suffix,
        )
}

proof fn lemma_lacks(nodes: Seq<xml::XmlNodeView>, i: int, suffix: Seq<char>)
    requires
        lacks_parameter(nodes, i, suffix),
        suffix.len() > 0,
    ensures
        value_by_suffix(instance_parameters(nodes, i), suffix, 0) is None,
{
    let end = xml::subtree_end(nodes, i, i + 1);
    lemma_subtree_bound(nodes, i, i + 1);
    let kids = xml::element_children(nodes, i, end);
    lemma_children(nodes, i, end);
    assert forall|j: int|
        i <= j < end && xml::has_tag_loosely(#[trigger] nodes[j], "ParaName"@) implies !ends_loosely(
        xml::trimmed_text(nodes[j]),
        suffix,
    ) by {
        if nodes[j].text is Some {
            assert(names_parameter(nodes[j], xml::trimmed_text(nodes[j])));
        }
    }
    assert(none_named_before(nodes, kids, suffix, kids.len() as int));
    lemma_children_none(nodes, kids, 0, seq![], suffix);
    lemma_descendants_none(nodes, i, end, child_parameters(nodes, kids, 0, seq![]), suffix);
    lemma_value_none(instance_parameters(nodes, i), suffix, 0);
}

/// What an instance does not name, the device lacks; one that names neither a host nor an address
/// describes no device.
pub proof fn law_unlisted(nodes: Seq<xml::XmlNodeView>, i: int, link: LinkKind)
    ensures
        lacks_parameter(nodes, i, "IPAddress"@) ==> (described(
            instance_parameters(nodes, i),
            link,
        ) matches Some(d) ==> d.ip is None),
        lacks_parameter(nodes, i, "MACAddress"@) ==> (described(
            instance_parameters(nodes, i),
            link,
        ) matches Some(d) ==> d.mac is None && d.vendor is None),
        lacks_parameter(nodes, i, "HostName"@) ==> (described(
            instance_parameters(nodes, i),
            link,
        ) matches Some(d) ==> d.hostname is None),
        lacks_parameter(nodes, i, "IPAddress"@) && lacks_parameter(nodes, i, "MACAddress"@)
            && lacks_parameter(nodes, i, "HostName"@) ==> described(
            instance_parameters(nodes, i),
            link,
        ) is None,
{
    reveal_strlit("IPAddress");
    reveal_strlit("MACAddress");
    reveal_strlit("HostName");
    if lacks_parameter(nodes, i, "IPAddress"@) {
        lemma_lacks(nodes, i, "IPAddress"@);
    }
    if lacks_parameter(nodes, i, "MACAddress"@) {
        lemma_lacks(nodes, i, "MACAddress"@);
    }
    if lacks_parameter(nodes, i, "HostName"@) {
        lemma_lacks(nodes, i, "HostName"@);
    }
}

proof fn lemma_instances_grow(nodes: Seq<xml::XmlNodeView>, a: int, b: int, link: LinkKind)
    requires
        a <= b,
    ensures
        instances(nodes, a, link).len() <= instances(nodes, b, link).len(),
        instances(nodes, b, link).take(instances(nodes, a, link).len() as int) == instances(
            nodes,
            a,
            link,
        ),
    decreases b - a,
{
    let x = instances(nodes, a, link);
    if a < b {
        lemma_instances_grow(nodes, a, b - 1, link);
        assert(instances(nodes, b, link).take(x.len() as int) =~= x);
    } else {
        assert(x.take(x.len() as int) =~= x);
    }
}

/// The list shows `x` before `y`.
pub open spec fn shows_in_order(
    found: Seq<model::DeviceView>,
    x: model::DeviceView,
    y: model::DeviceView,
) -> bool {
    exists|a: int, b: int|
        0 <= a < b < found.len() && #[trigger] found[a] == x && #[trigger] found[b] == y
}

/// On a page that is a document every instance that describes a device is listed, in the order of
/// the page, unless the page is blank or says that the session is over.
pub proof fn law_every_instance_is_listed(
    body: Seq<char>,
    nodes: Seq<xml::XmlNodeView>,
    link: LinkKind,
    i: int,
    j: int,
)
    requires
        0 <= i < j < nodes.len(),
        nodes[i].element && nodes[i].tag == "Instance"@,
        nodes[j].element && nodes[j].tag == "Instance"@,
        described(instance_parameters(nodes, i), link) is Some,
        described(instance_parameters(nodes, j), link) is Some,
        text::trim(body).len() > 0,
        !text::contains(body, "SessionTimeout"@),
    ensures
        access_devices(body, Some(nodes), link) matches Ok(found) && shows_in_order(
            found,
            described(instance_parameters(nodes, i), link).unwrap(),
            described(instance_parameters(nodes, j), link).unwrap(),
        ),
{
    let n = nodes.len() as int;
    let found = instances(nodes, n, link);
    lemma_instances_grow(nodes, i + 1, j, link);
    lemma_instances_grow(nodes, j + 1, n, link);
    let a = instances(nodes, i, link).len() as int;
    let b = instances(nodes, j, link).len() as int;
    assert(instances(nodes, j, link).take(a + 1)[a] == instances(nodes, i + 1, link)[a]);
    assert(found.take(b + 1)[b] == instances(nodes, j + 1, link)[b]);
    assert(found.take(b + 1)[a] == instances(nodes, j + 1, link)[a]);
    assert(a < b < found.len());
    assert(access_devices(body, Some(nodes), link) == Ok::<Seq<model::DeviceView>, Seq<char>>(
        found,
    ));
    assert(found[a] == instances(nodes, i + 1, link)[a]);
    assert(found[b] == instances(nodes, j + 1, link)[b]);
    assert(Some(found[a]) == described(instance_parameters(nodes, i), link));
    assert(Some(found[b]) == described(instance_parameters(nodes, j), link));
}

proof fn lemma_only_instances(nodes: Seq<xml::XmlNodeView>, end: int, link: LinkKind, k: int) -> (i: int)
    requires
        0 <= k < instances(nodes, end, link).len(),
    ensures
        0 <= i < end,
        nodes[i].element && nodes[i].tag == "Instance"@,
        described(instance_parameters(nodes, i), link) == Some(instances(nodes, end, link)[k]),
    decreases end,
{
    let before = instances(nodes, end - 1, link);
    if k < before.len() {
        lemma_only_instances(nodes, end - 1, link, k)
    } else {
        end - 1
    }
}

/// A page of which one instance describes a device lists that device, and lists nothing else than
/// what its instances describe.
pub proof fn law_only_instances_are_listed(
    body: Seq<char>,
    nodes: Seq<xml::XmlNodeView>,
    link: LinkKind,
    i: int,
)
    requires
        0 <= i < nodes.len(),
        nodes[i].element && nodes[i].tag == "Instance"@,
        described(instance_parameters(nodes, i), link) is Some,
        text::trim(body).len() > 0,
        !text::contains(body, "SessionTimeout"@),
    ensures
        access_devices(body, Some(nodes), link) matches Ok(found) && {
            &&& exists|a: int|
                0 <= a < found.len() && Some(#[trigger] found[a]) == described(
                    instance_parameters(nodes, i),
                    link,
                )
            &&& forall|k: int|
                0 <= k < found.len() ==> exists|m: int|
                    0 <= m < nodes.len() && nodes[m].element && nodes[m].tag == "Instance"@
                        && described(#[trigger] instance_parameters(nodes, m), link) == Some(
                        #[trigger] found[k],
                    )
        },
{
    let n = nodes.len() as int;
    let found = instances(nodes, n, link);
    lemma_instances_grow(nodes, i + 1, n, link);
    let a = instances(nodes, i, link).len() as int;
    assert(found.take(a + 1)[a] == instances(nodes, i + 1, link)[a]);
    assert(Some(found[a]) == described(instance_parameters(nodes, i), link));
    assert forall|k: int| 0 <= k < found.len() implies exists|m: int|
        0 <= m < nodes.len() && nodes[m].element && nodes[m].tag == "Instance"@ && described(
            #[trigger] instance_parameters(nodes, m),
            link,
        ) == Some(#[trigger] found[k]) by {
        let m = lemma_only_instances(nodes, n, link, k);
    }
}

/// A blank page lists nothing, and one of a session that is over is no list.
pub proof fn law_pages_without_list(
    body: Seq<char>,
    nodes: Option<Seq<xml::XmlNodeView>>,
    link: LinkKind,
)
    ensures
        text::trim(body).len() == 0 ==> access_devices(body, nodes, link) == Ok::<
            Seq<model::DeviceView>,
            Seq<char>,
        >(seq![]),
        text::trim(body).len() > 0 && text::contains(body, "SessionTimeout"@) ==> access_devices(
            body,
            nodes,
            link,
        ) == Err::<Seq<model::DeviceView>, Seq<char>>("session timeout"@),
{
}

/// A part of a page that is no document describes the device whose parameters it holds under the
/// plain names, or else under those with the prefix `_LuQUID_`.
pub proof fn law_loose_device(chunk: Seq<char>, link: LinkKind)
    ensures
        ({
            let map = page::parameters(chunk, seq![]);
            let host = textmap::lookup(map, "HostName"@);
            let ip = textmap::lookup(map, "IPAddress"@);
            let mac = textmap::lookup(map, "MACAddress"@);
            &&& host is Some ==> (loose_device(chunk, link) matches Some(d) && d.hostname == host)
            &&& host is None ==> (loose_device(chunk, link) matches Some(d) ==> d.hostname
                == textmap::lookup(map, "_LuQUID_HostName"@))
            &&& ip matches Some(t) ==> (addr::ip(t) is Some ==> loose_device(chunk, link) is Some) && (
            loose_device(chunk, link) matches Some(d) ==> d.ip == addr::ip(t))
            &&& ip is None ==> (textmap::lookup(map, "_LuQUID_IPAddress"@) matches Some(t) ==> (
            loose_device(chunk, link) matches Some(d) ==> d.ip == addr::ip(t)))
            &&& mac matches Some(t) ==> (model::normalized(t) is Some ==> loose_device(
                chunk,
                link,
            ) is Some) && (loose_device(chunk, link) matches Some(d) ==> d.mac == model::normalized(
                t,
            ))
            &&& mac is None ==> (textmap::lookup(map, "_LuQUID_MACAddress"@) matches Some(t) ==> (
            loose_device(chunk, link) matches Some(d) ==> d.mac == model::normalized(t)))
            &&& loose_device(chunk, link) matches Some(d) ==> d.link == link && d.online && d.source
                == DeviceSource::Router && !d.is_self && !d.is_gateway && !d.blocked
        }),
{
}

} // verus!

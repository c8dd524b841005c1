//! One list of devices out of those of the local network and those of the router.

use crate::addr;
use crate::addr::IpAddr;
use crate::lan;
use crate::model;
use crate::model::{Device, DeviceSource, LinkKind};
use crate::text;
use crate::textmap;
use crate::textmap::TextMap;
use vstd::prelude::*;

verus! {

/// What tells a device from others: its hardware address, else its address, else its name.
pub open spec fn key_of(d: model::DeviceView) -> Seq<char> {
    match d.mac {
        Some(m) => "mac:"@ + m,
        None => match d.ip {
            Some(ip) => "ip:"@ + addr::ip_text(ip),
            None => "host:"@ + match d.hostname {
                Some(h) => h,
                None => "?"@,
            },
        },
    }
}

/// The first of two values that is there.
pub open spec fn either<T>(a: Option<T>, b: Option<T>) -> Option<T> {
    if a is Some {
        a
    } else {
        b
    }
}

/// What the local network and the router say of one device. The name, the kind of link and the
/// counters of the router come first; addresses and vendor stay as the local network has them.
pub open spec fn combined(e: model::DeviceView, r: model::DeviceView) -> model::DeviceView {
    model::DeviceView {
        hostname: either(r.hostname, e.hostname),
        ip: either(e.ip, r.ip),
        mac: either(e.mac, r.mac),
        vendor: either(e.vendor, r.vendor),
        link: if r.link != LinkKind::Unknown {
            r.link
        } else {
            e.link
        },
        online: e.online || r.online,
        bytes_rx: either(r.bytes_rx, e.bytes_rx),
        bytes_tx: either(r.bytes_tx, e.bytes_tx),
        source: DeviceSource::Merged,
        ..e
    }
}

/// The devices of the local network by their keys, the last one of a key.
pub open spec fn lan_entries(lan: Seq<model::DeviceView>) -> Seq<(Seq<char>, model::DeviceView)>
    decreases lan.len(),
{
    if lan.len() == 0 {
        seq![]
    } else {
        textmap::put(lan_entries(lan.drop_last()), key_of(lan.last()), lan.last())
    }
}

/// The entries with a device of the router: combined with the one of the same key, else added.
pub open spec fn with_router(
    entries: Seq<(Seq<char>, model::DeviceView)>,
    r: model::DeviceView,
) -> Seq<(Seq<char>, model::DeviceView)> {
    match textmap::lookup(entries, key_of(r)) {
        Some(e) => textmap::put(entries, key_of(r), combined(e, r)),
        None => textmap::put(entries, key_of(r), r),
    }
}

/// The entries with the devices of the router.
pub open spec fn all_entries(
    entries: Seq<(Seq<char>, model::DeviceView)>,
    router: Seq<model::DeviceView>,
) -> Seq<(Seq<char>, model::DeviceView)>
    decreases router.len(),
{
    if router.len() == 0 {
        entries
    } else {
        with_router(all_entries(entries, router.drop_last()), router.last())
    }
}

/// A device, marked as this machine where it has its hardware address, and as the gateway where it
/// has its address.
pub open spec fn marked(
    d: model::DeviceView,
    gateway: Option<IpAddr>,
    self_mac: Option<Seq<char>>,
) -> model::DeviceView {
    let is_gateway = gateway is Some && d.ip == gateway;
    model::DeviceView {
        is_self: d.is_self || (self_mac is Some && d.mac == self_mac),
        is_gateway: d.is_gateway || is_gateway,
        hostname: if is_gateway && d.hostname is None {
            Some("gateway"@)
        } else {
            d.hostname
        },
        ..d
    }
}

/// The devices of the local network and of the router, each of them once.
pub open spec fn merged(
    lan: Seq<model::DeviceView>,
    router: Seq<model::DeviceView>,
    gateway: Option<IpAddr>,
    self_mac: Option<Seq<char>>,
) -> Seq<model::DeviceView> {
    textmap::values(all_entries(lan_entries(lan), router)).map_values(
        |d: model::DeviceView| marked(d, gateway, self_mac),
    )
}

/// The models of the devices of a map.
pub open spec fn device_entries(entries: Seq<(Seq<char>, Device)>) -> Seq<
    (Seq<char>, model::DeviceView),
> {
    textmap::mapped(entries, |d: Device| d@)
}

fn key_of_device(d: &Device) -> (r: String)
    ensures
        r@ == key_of(d@),
{
    match &d.mac {
        Some(m) => text::join2("mac:", m.as_str()),
        None => match d.ip {
            Some(ip) => text::join2("ip:", addr::ip_string(ip).as_str()),
            None => match &d.hostname {
                Some(h) => text::join2("host:", h.as_str()),
                None => text::join2("host:", "?"),
            },
        },
    }
}

fn either_text(a: &Option<String>, b: &Option<String>) -> (r: Option<String>)
    ensures
        text::opt_text(r) == either(text::opt_text(*a), text::opt_text(*b)),
{
    match a {
        Some(s) => Some(s.clone()),
        None => b.clone(),
    }
}

fn either_number(a: Option<u64>, b: Option<u64>) -> (r: Option<u64>)
    ensures
        r == either(a, b),
{
    match a {
        Some(n) => Some(n),
        None => b,
    }
}

fn combine(e: &Device, r: &Device) -> (d: Device)
    ensures
        d@ == combined(e@, r@),
{
    let ip: Option<IpAddr> = match e.ip {
        Some(a) => Some(a),
        None => r.ip,
    };
    let link: LinkKind = match r.link {
        LinkKind::Unknown => e.link,
        known => known,
    };
    Device {
        hostname: either_text(&r.hostname, &e.hostname),
        ip,
        mac: either_text(&e.mac, &r.mac),
        vendor: either_text(&e.vendor, &r.vendor),
        link,
        online: e.online || r.online,
        is_self: e.is_self,
        is_gateway: e.is_gateway,
        blocked: e.blocked,
        bytes_rx: either_number(r.bytes_rx, e.bytes_rx),
        bytes_tx: either_number(r.bytes_tx, e.bytes_tx),
        rate_rx_bps: e.rate_rx_bps,
        rate_tx_bps: e.rate_tx_bps,
        source: DeviceSource::Merged,
    }
}

fn mark(d: &mut Device, gateway: Option<IpAddr>, self_mac: &Option<String>)
    ensures
        final(d)@ == marked(old(d)@, gateway, text::opt_text(*self_mac)),
{
    if let (Some(sm), Some(m)) = (self_mac, &d.mac) {
        if text::same_text(sm.as_str(), m.as_str()) {
            d.is_self = true;
        }
    }
    if let Some(gw) = gateway {
        if lan::same_ip(d.ip, gw) {
            d.is_gateway = true;
            if d.hostname.is_none() {
                d.hostname = Some("gateway".to_owned());
            }
        }
    }
}

proof fn lemma_lookup(entries: Seq<(Seq<char>, Device)>, key: Seq<char>)
    ensures
        textmap::lookup(device_entries(entries), key) == match textmap::lookup(entries, key) {
            Some(d) => Some(d@),
            None => None,
        },
{
    textmap::lemma_mapped_position(entries, |d: Device| d@, key, 0);
    textmap::lemma_position(entries, key, 0);
}

fn insert_lan(map: &mut TextMap<Device>, lan: Vec<Device>)
    requires
        device_entries(old(map)@) == Seq::<(Seq<char>, model::DeviceView)>::empty(),
    ensures
        device_entries(final(map)@) == lan_entries(model::device_views(lan@)),
{
    let ghost all = model::device_views(lan@);
    let ghost given = lan@;
    let mut rest: Vec<Device> = lan;
    let ghost n = given.len() as int;
    assert(all.take(0) =~= seq![]);
    while rest.len() > 0
        invariant
            rest@.len() <= n == given.len(),
            all == model::device_views(given),
            rest@ == given.skip(n - rest@.len()),
            device_entries(map@) == lan_entries(all.take(n - rest@.len())),
        decreases rest@.len(),
    {
        let ghost k = n - rest@.len();
        let d: Device = rest.remove(0);
        assert(d == given[k]);
        assert(all[k] == d@);
        assert(rest@ =~= given.skip(k + 1));
        assert(all.take(k + 1).drop_last() =~= all.take(k));
        let key: String = key_of_device(&d);
        proof {
            textmap::lemma_mapped_put(map@, |d: Device| d@, key@, d);
        }
        map.insert(key, d);
    }
    assert(all.take(n) =~= all);
}

fn insert_router(map: &mut TextMap<Device>, router: Vec<Device>)
    ensures
        device_entries(final(map)@) == all_entries(
            device_entries(old(map)@),
            model::device_views(router@),
        ),
{
    let ghost first = device_entries(map@);
    let ghost all = model::device_views(router@);
    let ghost given = router@;
    let mut rest: Vec<Device> = router;
    let ghost n = given.len() as int;
    assert(all.take(0) =~= seq![]);
    while rest.len() > 0
        invariant
            rest@.len() <= n == given.len(),
            all == model::device_views(given),
            rest@ == given.skip(n - rest@.len()),
            device_entries(map@) == all_entries(first, all.take(n - rest@.len())),
        decreases rest@.len(),
    {
        let ghost k = n - rest@.len();
        let r: Device = rest.remove(0);
        assert(r == given[k]);
        assert(all[k] == r@);
        assert(rest@ =~= given.skip(k + 1));
        assert(all.take(k + 1).drop_last() =~= all.take(k));
        let key: String = key_of_device(&r);
        proof {
            lemma_lookup(map@, key@);
        }
        let d: Device = match map.get(key.as_str()) {
            Some(e) => combine(e, &r),
            None => r,
        };
        proof {
            textmap::lemma_mapped_put(map@, |d: Device| d@, key@, d);
        }
        map.insert(key, d);
    }
    assert(all.take(n) =~= all);
}

/// The devices of the local network and of the router, each of them once; `self_mac` is the
/// hardware address of this machine.
pub fn merge_devices(
    lan: Vec<Device>,
    router: Vec<Device>,
    gateway: Option<IpAddr>,
    self_mac: &Option<String>,
) -> (out: Vec<Device>)
    ensures
        model::device_views(out@) == merged(
            model::device_views(lan@),
            model::device_views(router@),
            gateway,
            text::opt_text(*self_mac),
        ),
{
    let ghost lv = model::device_views(lan@);
    let ghost rv = model::device_views(router@);
    let ghost sm = text::opt_text(*self_mac);
    let mut map: TextMap<Device> = TextMap::new();
    assert(device_entries(map@) =~= seq![]);
    insert_lan(&mut map, lan);
    insert_router(&mut map, router);
    let ghost entries = map@;
    let mut out: Vec<Device> = map.into_values();
    let ghost plain = textmap::values(all_entries(lan_entries(lv), rv));
    assert(model::device_views(out@) =~= plain) by {
        assert forall|k: int| 0 <= k < out@.len() implies out@[k]@ == plain[k] by {
            assert(device_entries(entries)[k].1 == entries[k].1@);
        }
    }
    let n: usize = out.len();
    let mut i: usize = 0;
    let ghost before = out@;
    while i < n
        invariant
            i <= n == out@.len() == plain.len() == before.len(),
            plain == model::device_views(before),
            sm == text::opt_text(*self_mac),
            forall|k: int| 0 <= k < i ==> (#[trigger] out@[k])@ == marked(plain[k], gateway, sm),
            forall|k: int| i <= k < n ==> #[trigger] out@[k] == before[k],
        decreases n - i,
    {
        let ghost here = out@;
        let mut d: Device = out.remove(i);
        assert(d@ == plain[i as int]);
        mark(&mut d, gateway, self_mac);
        out.insert(i, d);
        proof {
            assert(out@ =~= here.update(i as int, d));
        }
        i = i + 1;
    }
    assert(model::device_views(out@) =~= merged(lv, rv, gateway, sm));
    out
}

// ---------------------------------------------------------------------------------------------
// Laws

/// Every entry stands under the key of its device, and no key occurs twice.
pub open spec fn well_keyed(entries: Seq<(Seq<char>, model::DeviceView)>) -> bool {
    &&& textmap::keys_distinct(entries)
    &&& forall|i: int| 0 <= i < entries.len() ==> (#[trigger] entries[i]).0 == key_of(entries[i].1)
}

/// Some entry has the key `key`.
pub open spec fn has_key(entries: Seq<(Seq<char>, model::DeviceView)>, key: Seq<char>) -> bool {
    textmap::position(entries, key) is Some
}

/// One of the devices has the key `key`.
pub open spec fn known(ds: Seq<model::DeviceView>, key: Seq<char>) -> bool {
    exists|i: int| 0 <= i < ds.len() && key_of(#[trigger] ds[i]) == key
}

proof fn lemma_key_prefixes(a: Seq<char>, b: Seq<char>)
    ensures
        "mac:"@ + a != "ip:"@ + b,
        "mac:"@ + a != "host:"@ + b,
        "ip:"@ + a != "host:"@ + b,
        "mac:"@ + a == "mac:"@ + b ==> a == b,
        "ip:"@ + a == "ip:"@ + b ==> a == b,
        "host:"@ + a == "host:"@ + b ==> a == b,
{
    reveal_strlit("mac:");
    reveal_strlit("ip:");
    reveal_strlit("host:");
    assert(("mac:"@ + a)[0] == 'm');
    assert(("ip:"@ + a)[0] == 'i');
    assert(("ip:"@ + b)[0] == 'i');
    assert(("host:"@ + b)[0] == 'h');
    assert(("mac:"@ + a).skip(4) =~= a);
    assert(("mac:"@ + b).skip(4) =~= b);
    assert(("ip:"@ + a).skip(3) =~= a);
    assert(("ip:"@ + b).skip(3) =~= b);
    assert(("host:"@ + a).skip(5) =~= a);
    assert(("host:"@ + b).skip(5) =~= b);
}

/// What the local network and the router say of one device is said of one device.
pub proof fn law_combined_key(e: model::DeviceView, r: model::DeviceView)
    requires
        key_of(e) == key_of(r),
    ensures
        key_of(combined(e, r)) == key_of(e),
{
    let em = if e.mac is Some {
        e.mac.unwrap()
    } else if e.ip is Some {
        addr::ip_text(e.ip.unwrap())
    } else if e.hostname is Some {
        e.hostname.unwrap()
    } else {
        "?"@
    };
    let rm = if r.mac is Some {
        r.mac.unwrap()
    } else if r.ip is Some {
        addr::ip_text(r.ip.unwrap())
    } else if r.hostname is Some {
        r.hostname.unwrap()
    } else {
        "?"@
    };
    lemma_key_prefixes(em, rm);
    lemma_key_prefixes(rm, em);
}

proof fn lemma_put(entries: Seq<(Seq<char>, model::DeviceView)>, d: model::DeviceView, key: Seq<char>)
    requires
        well_keyed(entries),
        key == key_of(d),
    ensures
        well_keyed(textmap::put(entries, key, d)),
        forall|k: Seq<char>| #[trigger]
            has_key(textmap::put(entries, key, d), k) <==> has_key(entries, k) || k == key,
{
    textmap::lemma_put_distinct(entries, key, d);
    textmap::lemma_position(entries, key, 0);
    assert forall|k: Seq<char>| #[trigger]
        has_key(textmap::put(entries, key, d), k) <==> has_key(entries, k) || k == key by {
        textmap::law_put_then_lookup(entries, key, d, k);
    }
}

proof fn lemma_known(ds: Seq<model::DeviceView>, key: Seq<char>)
    requires
        ds.len() > 0,
    ensures
        known(ds, key) <==> known(ds.drop_last(), key) || key_of(ds.last()) == key,
{
    let before = ds.drop_last();
    if known(before, key) {
        let i = choose|i: int| 0 <= i < before.len() && key_of(#[trigger] before[i]) == key;
        assert(ds[i] == before[i]);
    }
    if known(ds, key) {
        let i = choose|i: int| 0 <= i < ds.len() && key_of(#[trigger] ds[i]) == key;
        if i < before.len() {
            assert(before[i] == ds[i]);
        }
    }
    assert(ds[ds.len() - 1] == ds.last());
}

proof fn lemma_lan_entries(lan: Seq<model::DeviceView>)
    ensures
        well_keyed(lan_entries(lan)),
        forall|k: Seq<char>| #[trigger] has_key(lan_entries(lan), k) <==> known(lan, k),
    decreases lan.len(),
{
    if lan.len() > 0 {
        let before = lan.drop_last();
        lemma_lan_entries(before);
        lemma_put(lan_entries(before), lan.last(), key_of(lan.last()));
        assert forall|k: Seq<char>| #[trigger] has_key(lan_entries(lan), k) <==> known(lan, k) by {
            lemma_known(lan, k);
            assert(has_key(lan_entries(before), k) <==> known(before, k));
        }
    }
}

proof fn lemma_all_entries(
    entries: Seq<(Seq<char>, model::DeviceView)>,
    router: Seq<model::DeviceView>,
)
    requires
        well_keyed(entries),
    ensures
        well_keyed(all_entries(entries, router)),
        forall|k: Seq<char>| #[trigger]
            has_key(all_entries(entries, router), k) <==> has_key(entries, k) || known(router, k),
    decreases router.len(),
{
    if router.len() > 0 {
        let before = router.drop_last();
        let r = router.last();
        lemma_all_entries(entries, before);
        let so_far = all_entries(entries, before);
        textmap::lemma_position(so_far, key_of(r), 0);
        match textmap::lookup(so_far, key_of(r)) {
            Some(e) => {
                law_combined_key(e, r);
                lemma_put(so_far, combined(e, r), key_of(r));
            },
            None => {
                lemma_put(so_far, r, key_of(r));
            },
        }
        assert forall|k: Seq<char>| #[trigger]
            has_key(all_entries(entries, router), k) <==> has_key(entries, k) || known(
                router,
                k,
            ) by {
            lemma_known(router, k);
            assert(has_key(so_far, k) <==> has_key(entries, k) || known(before, k));
        }
    }
}

/// Merging keeps every device and invents none: a key is in the result exactly where a device of
/// the local network or of the router has it, and no key is there twice.
pub proof fn law_merged_keys(
    lan: Seq<model::DeviceView>,
    router: Seq<model::DeviceView>,
    key: Seq<char>,
)
    ensures
        well_keyed(all_entries(lan_entries(lan), router)),
        has_key(all_entries(lan_entries(lan), router), key) <==> known(lan, key) || known(
            router,
            key,
        ),
{
    lemma_lan_entries(lan);
    lemma_all_entries(lan_entries(lan), router);
    assert(has_key(lan_entries(lan), key) <==> known(lan, key));
}

/// A device that both know is shown once, with the name and the kind of link that the router gives,
/// where it gives any.
pub proof fn law_router_comes_first(
    entries: Seq<(Seq<char>, model::DeviceView)>,
    r: model::DeviceView,
)
    requires
        has_key(entries, key_of(r)),
    ensures
        with_router(entries, r).len() == entries.len(),
        textmap::lookup(with_router(entries, r), key_of(r)) matches Some(d) && d.source
            == DeviceSource::Merged && (r.hostname is Some ==> d.hostname == r.hostname) && (r.link
            != LinkKind::Unknown ==> d.link == r.link) && (r.online ==> d.online),
{
    textmap::lemma_position(entries, key_of(r), 0);
    let e = textmap::lookup(entries, key_of(r)).unwrap();
    textmap::law_put_then_lookup(entries, key_of(r), combined(e, r), key_of(r));
}

/// What one of the two knows of a device is not lost. Where both know it, the router has the last
/// word on the name, the kind of link and the counters, and the local network on the addresses and
/// the vendor. The marks and rates stay as the local network has them.
pub proof fn law_combined(e: model::DeviceView, r: model::DeviceView)
    ensures
        ({
            let d = combined(e, r);
            &&& r.hostname is Some ==> d.hostname == r.hostname
            &&& r.hostname is None ==> d.hostname == e.hostname
            &&& e.ip is Some ==> d.ip == e.ip
            &&& e.ip is None ==> d.ip == r.ip
            &&& e.mac is Some ==> d.mac == e.mac
            &&& e.mac is None ==> d.mac == r.mac
            &&& e.vendor is Some ==> d.vendor == e.vendor
            &&& e.vendor is None ==> d.vendor == r.vendor
            &&& r.link == LinkKind::Wifi || r.link == LinkKind::Ethernet ==> d.link == r.link
            &&& r.link == LinkKind::Unknown ==> d.link == e.link
            &&& d.online <==> e.online || r.online
            &&& r.bytes_rx is Some ==> d.bytes_rx == r.bytes_rx
            &&& r.bytes_rx is None ==> d.bytes_rx == e.bytes_rx
            &&& r.bytes_tx is Some ==> d.bytes_tx == r.bytes_tx
            &&& r.bytes_tx is None ==> d.bytes_tx == e.bytes_tx
            &&& d.is_self == e.is_self && d.is_gateway == e.is_gateway && d.blocked == e.blocked
            &&& d.rate_rx_bps == e.rate_rx_bps && d.rate_tx_bps == e.rate_tx_bps
            &&& d.source == DeviceSource::Merged
        }),
{
}

/// A device is told by its hardware address, where it has one; else by its address; else by its
/// name: two devices are taken for one exactly where that is the same.
pub proof fn law_same_device(a: model::DeviceView, b: model::DeviceView)
    ensures
        a.mac is Some && b.mac is Some ==> (key_of(a) == key_of(b) <==> a.mac == b.mac),
        a.mac is Some && b.mac is None ==> key_of(a) != key_of(b),
        a.mac is None && b.mac is None && a.ip is Some && b.ip is Some ==> (key_of(a) == key_of(b)
            <==> addr::ip_text(a.ip.unwrap()) == addr::ip_text(b.ip.unwrap())),
        a.mac is None && b.mac is None && a.ip is Some && b.ip is None ==> key_of(a) != key_of(b),
        a.mac is None && b.mac is None && a.ip is None && b.ip is None && a.hostname is Some
            && b.hostname is Some ==> (key_of(a) == key_of(b) <==> a.hostname == b.hostname),
{
    let am = if a.mac is Some {
        a.mac.unwrap()
    } else if a.ip is Some {
        addr::ip_text(a.ip.unwrap())
    } else if a.hostname is Some {
        a.hostname.unwrap()
    } else {
        "?"@
    };
    let bm = if b.mac is Some {
        b.mac.unwrap()
    } else if b.ip is Some {
        addr::ip_text(b.ip.unwrap())
    } else if b.hostname is Some {
        b.hostname.unwrap()
    } else {
        "?"@
    };
    lemma_key_prefixes(am, bm);
    lemma_key_prefixes(bm, am);
}

/// Marking a device changes its marks, and the name of a gateway without one; nothing else.
pub proof fn law_marked(
    d: model::DeviceView,
    gateway: Option<IpAddr>,
    self_mac: Option<Seq<char>>,
)
    ensures
        ({
            let m = marked(d, gateway, self_mac);
            &&& m.is_self <==> d.is_self || (d.mac is Some && d.mac == self_mac)
            &&& m.is_gateway <==> d.is_gateway || (d.ip is Some && d.ip == gateway)
            &&& d.hostname is Some ==> m.hostname == d.hostname
            &&& d.hostname is None ==> m.hostname == if d.ip is Some && d.ip == gateway {
                Some("gateway"@)
            } else {
                None
            }
            &&& m == (model::DeviceView {
                is_self: m.is_self,
                is_gateway: m.is_gateway,
                hostname: m.hostname,
                ..d
            })
            &&& key_of(m) == key_of(d)
        }),
{
}

proof fn lemma_lan_lookup(lan: Seq<model::DeviceView>, i: int)
    requires
        0 <= i < lan.len(),
        forall|j: int| i < j < lan.len() ==> key_of(#[trigger] lan[j]) != key_of(lan[i]),
    ensures
        textmap::lookup(lan_entries(lan), key_of(lan[i])) == Some(lan[i]),
    decreases lan.len(),
{
    let before = lan.drop_last();
    let key = key_of(lan[i]);
    textmap::law_put_then_lookup(lan_entries(before), key_of(lan.last()), lan.last(), key);
    assert(lan.last() == lan[lan.len() - 1]);
    if i < before.len() {
        assert(before[i] == lan[i]);
        assert forall|j: int| i < j < before.len() implies key_of(#[trigger] before[j]) != key_of(
            before[i],
        ) by {
            assert(before[j] == lan[j]);
        }
        lemma_lan_lookup(before, i);
    }
}

proof fn lemma_lan_absent(lan: Seq<model::DeviceView>, key: Seq<char>)
    requires
        !known(lan, key),
    ensures
        textmap::lookup(lan_entries(lan), key) is None,
{
    lemma_lan_entries(lan);
    assert(has_key(lan_entries(lan), key) <==> known(lan, key));
}

/// The router does not know the key.
proof fn lemma_router_absent(
    entries: Seq<(Seq<char>, model::DeviceView)>,
    router: Seq<model::DeviceView>,
    key: Seq<char>,
)
    requires
        !known(router, key),
    ensures
        textmap::lookup(all_entries(entries, router), key) == textmap::lookup(entries, key),
    decreases router.len(),
{
    if router.len() > 0 {
        let before = router.drop_last();
        let r = router.last();
        lemma_known(router, key);
        lemma_router_absent(entries, before, key);
        let so_far = all_entries(entries, before);
        match textmap::lookup(so_far, key_of(r)) {
            Some(e) => textmap::law_put_then_lookup(so_far, key_of(r), combined(e, r), key),
            None => textmap::law_put_then_lookup(so_far, key_of(r), r, key),
        }
    }
}

proof fn lemma_router_lookup(
    entries: Seq<(Seq<char>, model::DeviceView)>,
    router: Seq<model::DeviceView>,
    k: int,
)
    requires
        0 <= k < router.len(),
        forall|j: int|
            0 <= j < router.len() && j != k ==> key_of(#[trigger] router[j]) != key_of(router[k]),
    ensures
        textmap::lookup(all_entries(entries, router), key_of(router[k])) == match textmap::lookup(
            entries,
            key_of(router[k]),
        ) {
            Some(e) => Some(combined(e, router[k])),
            None => Some(router[k]),
        },
    decreases router.len(),
{
    let before = router.drop_last();
    let r = router.last();
    let key = key_of(router[k]);
    assert(r == router[router.len() - 1]);
    let so_far = all_entries(entries, before);
    if k < before.len() {
        assert(before[k] == router[k]);
        assert forall|j: int| 0 <= j < before.len() && j != k implies key_of(#[trigger] before[j])
            != key_of(before[k]) by {
            assert(before[j] == router[j]);
        }
        lemma_router_lookup(entries, before, k);
        match textmap::lookup(so_far, key_of(r)) {
            Some(e) => textmap::law_put_then_lookup(so_far, key_of(r), combined(e, r), key),
            None => textmap::law_put_then_lookup(so_far, key_of(r), r, key),
        }
    } else {
        assert(!known(before, key)) by {
            if known(before, key) {
                let j = choose|j: int| 0 <= j < before.len() && key_of(#[trigger] before[j]) == key;
                assert(router[j] == before[j]);
            }
        }
        lemma_router_absent(entries, before, key);
        match textmap::lookup(so_far, key) {
            Some(e) => textmap::law_put_then_lookup(so_far, key, combined(e, r), key),
            None => textmap::law_put_then_lookup(so_far, key, r, key),
        }
    }
}

proof fn lemma_in_merged(
    lan: Seq<model::DeviceView>,
    router: Seq<model::DeviceView>,
    gateway: Option<IpAddr>,
    self_mac: Option<Seq<char>>,
    key: Seq<char>,
) -> (j: int)
    requires
        textmap::lookup(all_entries(lan_entries(lan), router), key) is Some,
    ensures
        0 <= j < merged(lan, router, gateway, self_mac).len(),
        merged(lan, router, gateway, self_mac)[j] == marked(
            textmap::lookup(all_entries(lan_entries(lan), router), key).unwrap(),
            gateway,
            self_mac,
        ),
{
    let entries = all_entries(lan_entries(lan), router);
    textmap::lemma_position(entries, key, 0);
    let j = textmap::position(entries, key).unwrap();
    assert(textmap::values(entries)[j] == entries[j].1);
    j
}

/// A device that the local network and the router both know is in the list with what either of them
/// knows of it.
pub proof fn law_known_to_both(
    lan: Seq<model::DeviceView>,
    router: Seq<model::DeviceView>,
    gateway: Option<IpAddr>,
    self_mac: Option<Seq<char>>,
    i: int,
    k: int,
)
    requires
        0 <= i < lan.len(),
        0 <= k < router.len(),
        key_of(lan[i]) == key_of(router[k]),
        forall|j: int| i < j < lan.len() ==> key_of(#[trigger] lan[j]) != key_of(lan[i]),
        forall|j: int|
            0 <= j < router.len() && j != k ==> key_of(#[trigger] router[j]) != key_of(router[k]),
    ensures
        exists|j: int|
            0 <= j < merged(lan, router, gateway, self_mac).len() && ({
                let d = #[trigger] merged(lan, router, gateway, self_mac)[j];
                let e = lan[i];
                let r = router[k];
                &&& r.hostname is Some ==> d.hostname == r.hostname
                &&& r.hostname is None && e.hostname is Some ==> d.hostname == e.hostname
                &&& d.ip == if e.ip is Some { e.ip } else { r.ip }
                &&& d.mac == if e.mac is Some { e.mac } else { r.mac }
                &&& d.vendor == if e.vendor is Some { e.vendor } else { r.vendor }
                &&& d.link == if r.link == LinkKind::Unknown { e.link } else { r.link }
                &&& d.online == (e.online || r.online)
                &&& d.bytes_rx == if r.bytes_rx is Some { r.bytes_rx } else { e.bytes_rx }
                &&& d.bytes_tx == if r.bytes_tx is Some { r.bytes_tx } else { e.bytes_tx }
                &&& d.rate_rx_bps == e.rate_rx_bps && d.rate_tx_bps == e.rate_tx_bps
                &&& d.is_self == (e.is_self || (d.mac is Some && d.mac == self_mac))
                &&& d.is_gateway == (e.is_gateway || (d.ip is Some && d.ip == gateway))
                &&& d.source == DeviceSource::Merged
            }),
{
    lemma_lan_lookup(lan, i);
    lemma_router_lookup(lan_entries(lan), router, k);
    let j = lemma_in_merged(lan, router, gateway, self_mac, key_of(lan[i]));
    law_combined(lan[i], router[k]);
    law_marked(combined(lan[i], router[k]), gateway, self_mac);
    assert(merged(lan, router, gateway, self_mac)[j] == marked(
        combined(lan[i], router[k]),
        gateway,
        self_mac,
    ));
}

/// A device that only one of the two knows is in the list as it is, but for the marks and the name
/// of the gateway.
pub proof fn law_known_to_one(
    lan: Seq<model::DeviceView>,
    router: Seq<model::DeviceView>,
    gateway: Option<IpAddr>,
    self_mac: Option<Seq<char>>,
    i: int,
)
    ensures
        0 <= i < lan.len() && !known(router, key_of(lan[i])) && (forall|j: int|
            i < j < lan.len() ==> key_of(#[trigger] lan[j]) != key_of(lan[i])) ==> exists|j: int|
            0 <= j < merged(lan, router, gateway, self_mac).len() && ({
                let d = #[trigger] merged(lan, router, gateway, self_mac)[j];
                &&& lan[i].hostname is Some ==> d.hostname == lan[i].hostname
                &&& d == (model::DeviceView {
                    hostname: d.hostname,
                    is_self: d.is_self,
                    is_gateway: d.is_gateway,
                    ..lan[i]
                })
            }),
        0 <= i < router.len() && !known(lan, key_of(router[i])) && (forall|j: int|
            0 <= j < router.len() && j != i ==> key_of(#[trigger] router[j]) != key_of(router[i]))
            ==> exists|j: int|
            0 <= j < merged(lan, router, gateway, self_mac).len() && ({
                let d = #[trigger] merged(lan, router, gateway, self_mac)[j];
                &&& router[i].hostname is Some ==> d.hostname == router[i].hostname
                &&& d == (model::DeviceView {
                    hostname: d.hostname,
                    is_self: d.is_self,
                    is_gateway: d.is_gateway,
                    ..router[i]
                })
            }),
{
    if 0 <= i < lan.len() && !known(router, key_of(lan[i])) && (forall|j: int|
        i < j < lan.len() ==> key_of(#[trigger] lan[j]) != key_of(lan[i])) {
        lemma_lan_lookup(lan, i);
        lemma_router_absent(lan_entries(lan), router, key_of(lan[i]));
        let j = lemma_in_merged(lan, router, gateway, self_mac, key_of(lan[i]));
        law_marked(lan[i], gateway, self_mac);
        assert(merged(lan, router, gateway, self_mac)[j] == marked(lan[i], gateway, self_mac));
    }
    if 0 <= i < router.len() && !known(lan, key_of(router[i])) && (forall|j: int|
        0 <= j < router.len() && j != i ==> key_of(#[trigger] router[j]) != key_of(router[i])) {
        lemma_lan_absent(lan, key_of(router[i]));
        lemma_router_lookup(lan_entries(lan), router, i);
        let j = lemma_in_merged(lan, router, gateway, self_mac, key_of(router[i]));
        law_marked(router[i], gateway, self_mac);
        assert(merged(lan, router, gateway, self_mac)[j] == marked(router[i], gateway, self_mac));
    }
}

/// The list shows no device twice and none that neither of the two knows; and this machine and the
/// gateway are marked by their addresses.
pub proof fn law_merged_list(
    lan: Seq<model::DeviceView>,
    router: Seq<model::DeviceView>,
    gateway: Option<IpAddr>,
    self_mac: Option<Seq<char>>,
    i: int,
)
    requires
        0 <= i < merged(lan, router, gateway, self_mac).len(),
    ensures
        ({
            let all = merged(lan, router, gateway, self_mac);
            let d = all[i];
            &&& known(lan, key_of(d)) || known(router, key_of(d))
            &&& forall|j: int| 0 <= j < all.len() && j != i ==> key_of(#[trigger] all[j]) != key_of(d)
            &&& d.mac is Some && d.mac == self_mac ==> d.is_self
            &&& d.ip is Some && d.ip == gateway ==> d.is_gateway && d.hostname is Some
        }),
{
    let entries = all_entries(lan_entries(lan), router);
    let all = merged(lan, router, gateway, self_mac);
    lemma_lan_entries(lan);
    lemma_all_entries(lan_entries(lan), router);
    assert forall|j: int| 0 <= j < all.len() implies key_of(#[trigger] all[j]) == entries[j].0 by {
        assert(textmap::values(entries)[j] == entries[j].1);
        law_marked(entries[j].1, gateway, self_mac);
        assert(all[j] == marked(entries[j].1, gateway, self_mac));
    }
    assert(textmap::values(entries)[i] == entries[i].1);
    law_marked(entries[i].1, gateway, self_mac);
    let key = entries[i].0;
    textmap::lemma_position(entries, key, 0);
    assert(has_key(entries, key));
    assert(has_key(lan_entries(lan), key) <==> known(lan, key));
}

} // verus!

//! The order in which devices are shown.

use crate::addr;
use crate::model;
use crate::model::{Device, LinkKind, SortKey};
use crate::text;
use vstd::prelude::*;

verus! {

// ---------------------------------------------------------------------------------------------
// The order

/// `a` comes before `b` in the order of their characters.
pub open spec fn text_less(a: Seq<char>, b: Seq<char>) -> bool
    decreases a.len(),
{
    if b.len() == 0 {
        false
    } else if a.len() == 0 {
        true
    } else if a[0] != b[0] {
        a[0] < b[0]
    } else {
        text_less(a.drop_first(), b.drop_first())
    }
}

/// This machine comes first, then the gateway, then every other device.
pub open spec fn group(d: model::DeviceView) -> int {
    (if d.is_self {
        0int
    } else {
        2int
    }) + (if d.is_gateway {
        0int
    } else {
        1int
    })
}

/// A counter that may be missing.
pub open spec fn amount(o: Option<u64>) -> int {
    match o {
        Some(n) => n as int,
        None => 0,
    }
}

/// The bytes that a device received and sent.
pub open spec fn usage(d: model::DeviceView) -> int {
    amount(d.bytes_rx) + amount(d.bytes_tx)
}

/// The text by which a device is sorted, where the key is one of text. A device without a name
/// comes behind those with a usual one.
pub open spec fn sort_text(d: model::DeviceView, key: SortKey) -> Seq<char> {
    match key {
        SortKey::Hostname => match d.hostname {
            Some(h) => h,
            None => "~"@,
        },
        SortKey::Ip => match d.ip {
            Some(ip) => addr::ip_text(ip),
            None => seq![],
        },
        SortKey::Mac => match d.mac {
            Some(m) => m,
            None => seq![],
        },
        SortKey::Usage => seq![],
        SortKey::Link => d.link.name(),
    }
}

/// `a` comes before `b`.
pub open spec fn less(a: model::DeviceView, b: model::DeviceView, key: SortKey) -> bool {
    ||| group(a) < group(b)
    ||| group(a) == group(b) && match key {
        SortKey::Usage => usage(a) > usage(b),
        _ => text_less(sort_text(a, key), sort_text(b, key)),
    }
}

/// Neither of the two comes before the other.
pub open spec fn level(a: model::DeviceView, b: model::DeviceView, key: SortKey) -> bool {
    !less(a, b, key) && !less(b, a, key)
}

/// Where `d` goes among the first `n` devices: behind the last one that it does not come before.
pub open spec fn place(s: Seq<model::DeviceView>, d: model::DeviceView, key: SortKey, n: int) -> int
    decreases n,
{
    if n <= 0 {
        0
    } else if less(d, s[n - 1], key) {
        place(s, d, key, n - 1)
    } else {
        n
    }
}

/// The devices in order, those that are level in the order in which they came.
pub open spec fn sorted(s: Seq<model::DeviceView>, key: SortKey) -> Seq<model::DeviceView>
    decreases s.len(),
{
    if s.len() == 0 {
        s
    } else {
        let before = sorted(s.drop_last(), key);
        before.insert(place(before, s.last(), key, before.len() as int), s.last())
    }
}

// ---------------------------------------------------------------------------------------------
// Sorting

fn text_less_of(a: &str, b: &str) -> (r: bool)
    ensures
        r == text_less(a@, b@),
{
    let x: Vec<char> = text::chars_of(a);
    let y: Vec<char> = text::chars_of(b);
    let mut i: usize = 0;
    assert(x@.skip(0) =~= x@);
    assert(y@.skip(0) =~= y@);
    while i < x.len() && i < y.len()
        invariant
            i <= x@.len(),
            i <= y@.len(),
            x@ == a@,
            y@ == b@,
            text_less(x@, y@) == text_less(x@.skip(i as int), y@.skip(i as int)),
        decreases x@.len() - i,
    {
        if x[i] != y[i] {
            return x[i] < y[i];
        }
        assert(x@.skip(i as int).drop_first() =~= x@.skip(i + 1));
        assert(y@.skip(i as int).drop_first() =~= y@.skip(i + 1));
        i = i + 1;
    }
    i < y.len()
}

fn group_of(d: &Device) -> (r: u8)
    ensures
        r == group(d@),
{
    match (d.is_self, d.is_gateway) {
        (true, true) => 0,
        (true, false) => 1,
        (false, true) => 2,
        (false, false) => 3,
    }
}

fn usage_of(d: &Device) -> (r: u128)
    ensures
        r == usage(d@),
{
    let rx: u64 = match d.bytes_rx {
        Some(n) => n,
        None => 0,
    };
    let tx: u64 = match d.bytes_tx {
        Some(n) => n,
        None => 0,
    };
    rx as u128 + tx as u128
}

fn sort_text_of(d: &Device, key: SortKey) -> (r: String)
    ensures
        r@ == sort_text(d@, key),
{
    let empty: String = String::new();
    assert(empty@ =~= seq![]);
    match key {
        SortKey::Hostname => match &d.hostname {
            Some(h) => h.clone(),
            None => "~".to_owned(),
        },
        SortKey::Ip => match d.ip {
            Some(ip) => addr::ip_string(ip),
            None => empty,
        },
        SortKey::Mac => match &d.mac {
            Some(m) => m.clone(),
            None => empty,
        },
        SortKey::Usage => empty,
        SortKey::Link => d.link.as_str().to_owned(),
    }
}

fn less_of(a: &Device, b: &Device, key: SortKey) -> (r: bool)
    ensures
        r == less(a@, b@, key),
{
    let x: u8 = group_of(a);
    let y: u8 = group_of(b);
    if x != y {
        return x < y;
    }
    match key {
        SortKey::Usage => usage_of(a) > usage_of(b),
        _ => text_less_of(sort_text_of(a, key).as_str(), sort_text_of(b, key).as_str()),
    }
}

/// Puts the devices in order, those that are level in the order in which they came.
pub fn sort_devices(devices: &mut Vec<Device>, key: SortKey)
    ensures
        model::device_views(final(devices)@) == sorted(model::device_views(old(devices)@), key),
{
    let ghost all = model::device_views(devices@);
    let n: usize = devices.len();
    let mut i: usize = 0;
    assert(all.take(0) =~= seq![]);
    assert(model::device_views(devices@).take(0) =~= seq![]);
    while i < n
        invariant
            i <= n == devices@.len() == all.len(),
            model::device_views(devices@).take(i as int) == sorted(all.take(i as int), key),
            model::device_views(devices@).skip(i as int) == all.skip(i as int),
        decreases n - i,
    {
        let ghost now = model::device_views(devices@);
        let ghost done = sorted(all.take(i as int), key);
        let ghost here = devices@;
        assert(now.skip(i as int)[0] == all.skip(i as int)[0]);
        let d: Device = devices.remove(i);
        assert(d@ == all[i as int]);
        let ghost without = devices@;
        assert forall|m: int| 0 <= m < i implies (#[trigger] without[m])@ == done[m] by {
            assert(without[m] == here[m]);
            assert(now.take(i as int)[m] == done[m]);
        }
        let mut k: usize = i;
        while k > 0 && less_of(&d, &devices[k - 1], key)
            invariant
                k <= i < n,
                devices@ == without,
                without.len() == n - 1,
                done.len() == i,
                forall|m: int| 0 <= m < i ==> (#[trigger] without[m])@ == done[m],
                place(done, d@, key, i as int) == place(done, d@, key, k as int),
            decreases k,
        {
            k = k - 1;
        }
        let ghost dv = d@;
        devices.insert(k, d);
        proof {
            let after = model::device_views(devices@);
            assert(all.take(i + 1).drop_last() =~= all.take(i as int));
            assert(sorted(all.take(i + 1), key) == done.insert(k as int, dv));
            assert(devices@ =~= without.insert(k as int, devices@[k as int]));
            let head = after.take(i + 1);
            let put = done.insert(k as int, dv);
            assert(head =~= put) by {
                assert forall|m: int| 0 <= m < i + 1 implies head[m] == put[m] by {
                    if m < k {
                        assert(devices@[m] == without[m]);
                    } else if m > k {
                        assert(devices@[m] == without[m - 1]);
                    }
                }
            }
            let rest = after.skip(i + 1);
            let want = all.skip(i + 1);
            assert(rest =~= want) by {
                assert forall|m: int| 0 <= m < n - i - 1 implies rest[m] == want[m] by {
                    assert(devices@[i + 1 + m] == without[i + m]);
                    assert(without[i + m] == here[i + 1 + m]);
                    assert(now.skip(i as int)[m + 1] == all.skip(i as int)[m + 1]);
                }
            }
        }
        i = i + 1;
    }
    assert(all.take(n as int) =~= all);
    assert(model::device_views(devices@).take(n as int) =~= model::device_views(devices@));
}

// ---------------------------------------------------------------------------------------------
// Laws

proof fn lemma_text_order(a: Seq<char>, b: Seq<char>, c: Seq<char>)
    ensures
        !text_less(a, a),
        text_less(a, b) ==> !text_less(b, a),
        !text_less(b, a) && !text_less(c, b) ==> !text_less(c, a),
    decreases a.len(),
{
    if a.len() > 0 {
        lemma_text_order(a.drop_first(), a.drop_first(), seq![]);
    }
    if a.len() > 0 && b.len() > 0 {
        lemma_text_order(a.drop_first(), b.drop_first(), seq![]);
    }
    if a.len() > 0 && b.len() > 0 && c.len() > 0 {
        lemma_text_order(a.drop_first(), b.drop_first(), c.drop_first());
    }
}

/// No device comes before itself, of two devices at most one comes before the other, and a device
/// that does not come behind a second one, which does not come behind a third, does not come
/// behind that.
pub proof fn law_order(
    a: model::DeviceView,
    b: model::DeviceView,
    c: model::DeviceView,
    key: SortKey,
)
    ensures
        !less(a, a, key),
        less(a, b, key) ==> !less(b, a, key),
        !less(b, a, key) && !less(c, b, key) ==> !less(c, a, key),
{
    lemma_text_order(sort_text(a, key), sort_text(b, key), sort_text(c, key));
}

proof fn lemma_place(s: Seq<model::DeviceView>, d: model::DeviceView, key: SortKey, n: int)
    requires
        0 <= n <= s.len(),
    ensures
        0 <= place(s, d, key, n) <= n,
        forall|j: int| place(s, d, key, n) <= j < n ==> less(d, #[trigger] s[j], key),
        place(s, d, key, n) > 0 ==> !less(d, s[place(s, d, key, n) - 1], key),
    decreases n,
{
    if n > 0 && less(d, s[n - 1], key) {
        lemma_place(s, d, key, n - 1);
    }
}

proof fn lemma_sorted_len(s: Seq<model::DeviceView>, key: SortKey)
    ensures
        sorted(s, key).len() == s.len(),
    decreases s.len(),
{
    if s.len() > 0 {
        lemma_sorted_len(s.drop_last(), key);
        let before = sorted(s.drop_last(), key);
        lemma_place(before, s.last(), key, before.len() as int);
    }
}

/// In a sorted list no device comes before an earlier one.
pub proof fn law_sorted_is_ordered(s: Seq<model::DeviceView>, key: SortKey, i: int, j: int)
    requires
        0 <= i < j < sorted(s, key).len(),
    ensures
        !less(sorted(s, key)[j], sorted(s, key)[i], key),
    decreases s.len(),
{
    lemma_sorted_len(s, key);
    let d = s.last();
    let before = sorted(s.drop_last(), key);
    lemma_sorted_len(s.drop_last(), key);
    let k = place(before, d, key, before.len() as int);
    lemma_place(before, d, key, before.len() as int);
    let all = sorted(s, key);
    assert(all == before.insert(k, d));
    if i == k {
        // Everything behind the place comes behind the device that was put there.
        law_order(d, before[j - 1], d, key);
    } else if j == k {
        if i < k - 1 {
            law_sorted_is_ordered(s.drop_last(), key, i, k - 1);
        } else {
            law_order(before[i], before[i], d, key);
        }
        law_order(before[i], before[k - 1], d, key);
    } else {
        let a = if i < k {
            i
        } else {
            i - 1
        };
        let b = if j < k {
            j
        } else {
            j - 1
        };
        law_sorted_is_ordered(s.drop_last(), key, a, b);
    }
}

/// This machine stands before every other device, and behind it the gateway, whatever the key.
pub proof fn law_self_first(s: Seq<model::DeviceView>, key: SortKey, i: int, j: int)
    requires
        0 <= i < j < sorted(s, key).len(),
    ensures
        sorted(s, key)[j].is_self ==> sorted(s, key)[i].is_self,
        sorted(s, key)[j].is_gateway ==> sorted(s, key)[i].is_gateway || sorted(s, key)[i].is_self,
{
    law_sorted_is_ordered(s, key, i, j);
}

/// Sorting neither adds nor drops a device.
pub proof fn law_sorted_keeps_devices(s: Seq<model::DeviceView>, key: SortKey)
    ensures
        sorted(s, key).to_multiset() == s.to_multiset(),
    decreases s.len(),
{
    if s.len() > 0 {
        law_sorted_keeps_devices(s.drop_last(), key);
        let before = sorted(s.drop_last(), key);
        let k = place(before, s.last(), key, before.len() as int);
        lemma_place(before, s.last(), key, before.len() as int);
        vstd::seq_lib::to_multiset_insert(before, k, s.last());
        assert(s =~= s.drop_last().push(s.last()));
        s.drop_last().to_multiset_ensures();
    }
}

/// Where at most one device is this machine, at most one is after sorting.
pub proof fn lemma_one_self(s: Seq<model::DeviceView>, key: SortKey)
    requires
        forall|i: int, j: int|
            0 <= i < s.len() && 0 <= j < s.len() && (#[trigger] s[i]).is_self && (#[trigger] s[j]).is_self
                ==> i == j,
    ensures
        forall|i: int, j: int|
            0 <= i < sorted(s, key).len() && 0 <= j < sorted(s, key).len() && (#[trigger] sorted(
                s,
                key,
            )[i]).is_self && (#[trigger] sorted(s, key)[j]).is_self ==> i == j,
    decreases s.len(),
{
    if s.len() > 0 {
        let start = s.drop_last();
        let d = s.last();
        assert(d == s[s.len() - 1]);
        lemma_one_self(start, key);
        let before = sorted(start, key);
        let k = place(before, d, key, before.len() as int);
        lemma_place(before, d, key, before.len() as int);
        before.insert_ensures(k, d);
        if d.is_self {
            law_sorted_keeps_devices(start, key);
            assert forall|i: int| 0 <= i < before.len() implies !(#[trigger] before[i]).is_self by {
                vstd::seq_lib::to_multiset_contains(before, before[i]);
                vstd::seq_lib::to_multiset_contains(start, before[i]);
                let j = choose|j: int| 0 <= j < start.len() && start[j] == before[i];
                assert(s[j] == start[j]);
            }
        }
        let all = sorted(s, key);
        assert forall|i: int, j: int|
            0 <= i < all.len() && 0 <= j < all.len() && (#[trigger] all[i]).is_self && (
            #[trigger] all[j]).is_self implies i == j by {
            if i != k {
                assert(all[i] == before[if i < k { i } else { i - 1 }]);
            }
            if j != k {
                assert(all[j] == before[if j < k { j } else { j - 1 }]);
            }
        }
    }
}

/// Devices that are level with one another stay in the order in which they came.
pub proof fn law_sorted_is_stable(s: Seq<model::DeviceView>, key: SortKey, d: model::DeviceView)
    ensures
        sorted(s, key).filter(|x: model::DeviceView| level(x, d, key)) == s.filter(
            |x: model::DeviceView| level(x, d, key),
        ),
    decreases s.len(),
{
    let same = |x: model::DeviceView| level(x, d, key);
    if s.len() > 0 {
        law_sorted_is_stable(s.drop_last(), key, d);
        let x = s.last();
        let before = sorted(s.drop_last(), key);
        let k = place(before, x, key, before.len() as int);
        lemma_place(before, x, key, before.len() as int);
        let head = before.take(k);
        let tail = before.skip(k);
        assert(sorted(s, key) =~= head + seq![x] + tail);
        assert(before =~= head + tail);
        assert(s =~= s.drop_last() + seq![x]);
        Seq::filter_distributes_over_add(head, tail, same);
        Seq::filter_distributes_over_add(head + seq![x], tail, same);
        Seq::filter_distributes_over_add(head, seq![x], same);
        Seq::filter_distributes_over_add(s.drop_last(), seq![x], same);
        if same(x) {
            assert forall|j: int| 0 <= j < tail.len() implies !same(#[trigger] tail[j]) by {
                assert(tail[j] == before[k + j]);
                law_order(x, d, tail[j], key);
                law_order(tail[j], d, x, key);
            }
            lemma_filter_none(tail, same);
            assert(head.filter(same) + seq![x].filter(same) + tail.filter(same) =~= head.filter(
                same,
            ) + tail.filter(same) + seq![x].filter(same));
        } else {
            lemma_filter_one(x, same);
            assert(head.filter(same) + seq![x].filter(same) =~= head.filter(same));
            assert(s.drop_last().filter(same) + seq![x].filter(same) =~= s.drop_last().filter(same));
        }
    }
}

proof fn lemma_filter_none(s: Seq<model::DeviceView>, p: spec_fn(model::DeviceView) -> bool)
    requires
        forall|j: int| 0 <= j < s.len() ==> !p(#[trigger] s[j]),
    ensures
        s.filter(p) == Seq::<model::DeviceView>::empty(),
    decreases s.len(),
{
    reveal(Seq::filter);
    if s.len() > 0 {
        assert forall|j: int| 0 <= j < s.drop_last().len() implies !p(
            #[trigger] s.drop_last()[j],
        ) by {
            assert(s.drop_last()[j] == s[j]);
        }
        lemma_filter_none(s.drop_last(), p);
    }
}

proof fn lemma_filter_one(x: model::DeviceView, p: spec_fn(model::DeviceView) -> bool)
    requires
        !p(x),
    ensures
        seq![x].filter(p) == Seq::<model::DeviceView>::empty(),
{
    lemma_filter_none(seq![x], p);
}

/// `a` does not come behind `b` in the order of a dictionary: they agree up to some place, and there
/// `a` ends or has the lower character.
pub open spec fn in_dictionary_order(a: Seq<char>, b: Seq<char>) -> bool {
    exists|p: int|
        0 <= p <= a.len() && p <= b.len() && #[trigger] a.take(p) == b.take(p) && (p == a.len() || (
        p < b.len() && a[p] < b[p]))
}

proof fn lemma_dictionary(a: Seq<char>, b: Seq<char>)
    requires
        !text_less(b, a),
    ensures
        in_dictionary_order(a, b),
    decreases a.len(),
{
    if a.len() == 0 {
        assert(a.take(0) =~= b.take(0));
    } else if b.len() > 0 {
        if a[0] == b[0] {
            let x = a.drop_first();
            let y = b.drop_first();
            lemma_dictionary(x, y);
            let p = choose|p: int|
                0 <= p <= x.len() && p <= y.len() && #[trigger] x.take(p) == y.take(p) && (p
                    == x.len() || (p < y.len() && x[p] < y[p]));
            assert(a.take(p + 1) =~= b.take(p + 1)) by {
                assert forall|k: int| 0 <= k < p + 1 implies a[k] == b[k] by {
                    if k > 0 {
                        assert(x.take(p)[k - 1] == y.take(p)[k - 1]);
                    }
                }
            }
        } else {
            assert(a.take(0) =~= b.take(0));
        }
    }
}

/// This machine comes first and the gateway before the rest; among devices that are level in that,
/// the key decides: names, addresses, hardware addresses and kinds of link stand in the order of a
/// dictionary, and of two devices the one with more bytes, received and sent together, comes first.
pub proof fn law_sorted_by_key(s: Seq<model::DeviceView>, key: SortKey, i: int, j: int)
    requires
        0 <= i < j < sorted(s, key).len(),
        sorted(s, key)[i].is_self == sorted(s, key)[j].is_self,
        sorted(s, key)[i].is_gateway == sorted(s, key)[j].is_gateway,
    ensures
        ({
            let a = sorted(s, key)[i];
            let b = sorted(s, key)[j];
            match key {
                SortKey::Hostname => in_dictionary_order(
                    match a.hostname {
                        Some(h) => h,
                        None => "~"@,
                    },
                    match b.hostname {
                        Some(h) => h,
                        None => "~"@,
                    },
                ),
                SortKey::Ip => in_dictionary_order(
                    match a.ip {
                        Some(ip) => addr::ip_text(ip),
                        None => seq![],
                    },
                    match b.ip {
                        Some(ip) => addr::ip_text(ip),
                        None => seq![],
                    },
                ),
                SortKey::Mac => in_dictionary_order(
                    match a.mac {
                        Some(m) => m,
                        None => seq![],
                    },
                    match b.mac {
                        Some(m) => m,
                        None => seq![],
                    },
                ),
                SortKey::Usage => (match a.bytes_rx {
                    Some(n) => n as int,
                    None => 0,
                }) + (match a.bytes_tx {
                    Some(n) => n as int,
                    None => 0,
                }) >= (match b.bytes_rx {
                    Some(n) => n as int,
                    None => 0,
                }) + (match b.bytes_tx {
                    Some(n) => n as int,
                    None => 0,
                }),
                SortKey::Link => in_dictionary_order(
                    match a.link {
                        LinkKind::Wifi => "WiFi"@,
                        LinkKind::Ethernet => "ETH"@,
                        LinkKind::Unknown => "?"@,
                    },
                    match b.link {
                        LinkKind::Wifi => "WiFi"@,
                        LinkKind::Ethernet => "ETH"@,
                        LinkKind::Unknown => "?"@,
                    },
                ),
            }
        }),
{
    law_sorted_is_ordered(s, key, i, j);
    let a = sorted(s, key)[i];
    let b = sorted(s, key)[j];
    if key != SortKey::Usage {
        lemma_dictionary(sort_text(a, key), sort_text(b, key));
    }
}

/// Devices that are level in everything that decides stay in the order in which they came: a list of
/// them is not changed.
pub proof fn law_sorted_leaves_level(s: Seq<model::DeviceView>, key: SortKey)
    requires
        forall|i: int, j: int|
            0 <= i < j < s.len() ==> level(#[trigger] s[i], #[trigger] s[j], key),
    ensures
        sorted(s, key) == s,
    decreases s.len(),
{
    if s.len() > 0 {
        let before = s.drop_last();
        assert forall|i: int, j: int| 0 <= i < j < before.len() implies level(
            #[trigger] before[i],
            #[trigger] before[j],
            key,
        ) by {
            assert(level(s[i], s[j], key));
        }
        law_sorted_leaves_level(before, key);
        if before.len() > 0 {
            assert(level(s[before.len() - 1], s[s.len() - 1], key));
            assert(before[before.len() - 1] == s[before.len() - 1]);
        }
        assert(sorted(s, key) =~= s);
    }
}

} // verus!

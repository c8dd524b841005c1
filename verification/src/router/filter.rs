//! The block list of the router.

use crate::model;
use crate::model::{BlockedDevice, MacFilterStatus};
use crate::router::page;
use crate::text;
use crate::textmap;
use crate::textmap::TextMap;
use vstd::prelude::*;

verus! {

/// The first of two texts that is there.
pub open spec fn first_of(a: Option<Seq<char>>, b: Option<Seq<char>>) -> Option<Seq<char>> {
    match a {
        Some(s) => Some(s),
        None => b,
    }
}

/// A text that may be missing, or the empty one.
pub open spec fn or_empty(a: Option<Seq<char>>) -> Seq<char> {
    match a {
        Some(s) => s,
        None => seq![],
    }
}

/// The rule that an instance of the filter page describes; none without an address.
pub open spec fn rule(chunk: Seq<char>) -> Option<model::BlockedDeviceView> {
    let map = page::parameters(chunk, seq![]);
    let address = or_empty(
        first_of(textmap::lookup(map, "SrcMacAddr"@), textmap::lookup(map, "DstMacAddr"@)),
    );
    match model::normalized(address) {
        Some(mac) => Some(
            model::BlockedDeviceView {
                inst_id: or_empty(textmap::lookup(map, "_InstID"@)),
                name: match textmap::lookup(map, "Name"@) {
                    Some(name) if name.len() > 0 => name,
                    _ => mac,
                },
                mac,
                protocol: textmap::lookup(map, "Protocol"@),
                filter_type: textmap::lookup(map, "Type"@),
            },
        ),
        None => None,
    }
}

/// The rules that the instances describe, in order.
pub open spec fn rules(chunks: Seq<Seq<char>>) -> Seq<model::BlockedDeviceView>
    decreases chunks.len(),
{
    if chunks.len() == 0 {
        seq![]
    } else {
        match rule(chunks.last()) {
            Some(b) => rules(chunks.drop_last()).push(b),
            None => rules(chunks.drop_last()),
        }
    }
}

/// The block list on a filter page; empty on a page of another kind.
pub open spec fn block_list(body: Seq<char>) -> Seq<model::BlockedDeviceView> {
    if text::contains(body, "OBJ_MACFILTER"@) || text::contains(body, "SrcMacAddr"@) {
        rules(text::split_on(body, "<Instance>"@).skip(1))
    } else {
        seq![]
    }
}

/// A copy of the text under `key`.
pub fn text_under(map: &TextMap<String>, key: &str) -> (r: Option<String>)
    ensures
        text::opt_text(r) == textmap::lookup(textmap::text_entries(map@), key@),
{
    proof {
        textmap::lemma_text_entries_lookup(map@, key@);
    }
    match map.get(key) {
        Some(s) => Some(s.clone()),
        None => None,
    }
}

/// A copy of the text under `key`, else of that under `other`.
pub fn text_under_either(map: &TextMap<String>, key: &str, other: &str) -> (r: Option<String>)
    ensures
        text::opt_text(r) == first_of(
            textmap::lookup(textmap::text_entries(map@), key@),
            textmap::lookup(textmap::text_entries(map@), other@),
        ),
{
    match text_under(map, key) {
        Some(s) => Some(s),
        None => text_under(map, other),
    }
}

/// A text that may be missing, or the empty one.
pub fn or_empty_of(o: Option<String>) -> (r: String)
    ensures
        r@ == or_empty(text::opt_text(o)),
{
    match o {
        Some(s) => s,
        None => {
            let e: String = String::new();
            assert(e@ =~= seq![]);
            e
        },
    }
}

fn rule_of(chunk: &str) -> (r: Option<BlockedDevice>)
    ensures
        match r {
            Some(b) => rule(chunk@) == Some(b@),
            None => rule(chunk@) is None,
        },
{
    let map: TextMap<String> = page::para_map_from_chunk(chunk);
    let address: String = or_empty_of(text_under_either(&map, "SrcMacAddr", "DstMacAddr"));
    match model::normalize_mac(address.as_str()) {
        Some(mac) => {
            let name: String = match text_under(&map, "Name") {
                Some(n) => {
                    if n.as_str().is_empty() {
                        mac.clone()
                    } else {
                        n
                    }
                },
                None => mac.clone(),
            };
            Some(
                BlockedDevice {
                    inst_id: or_empty_of(text_under(&map, "_InstID")),
                    name,
                    mac,
                    protocol: text_under(&map, "Protocol"),
                    filter_type: text_under(&map, "Type"),
                },
            )
        },
        None => None,
    }
}

/// The block list on a filter page.
pub fn parse_mac_filter_xml(body: &str) -> (out: Vec<BlockedDevice>)
    ensures
        model::blocked_views(out@) == block_list(body@),
{
    let mut out: Vec<BlockedDevice> = Vec::new();
    assert(model::blocked_views(out@) =~= seq![]);
    if !text::contains_str(body, "OBJ_MACFILTER") && !text::contains_str(body, "SrcMacAddr") {
        return out;
    }
    proof {
        reveal_strlit("<Instance>");
    }
    let chunks: Vec<String> = text::split_str(body, "<Instance>");
    let ghost pieces = text::split_on(body@, "<Instance>"@);
    let ghost model = pieces.skip(1);
    assert(pieces.len() > 0);
    assert(text::texts(chunks@).len() == chunks@.len());
    let mut i: usize = 1;
    assert(model.take(0) =~= seq![]);
    while i < chunks.len()
        invariant
            1 <= i <= chunks@.len(),
            pieces == text::texts(chunks@),
            model == pieces.skip(1),
            model::blocked_views(out@) == rules(model.take(i - 1)),
        decreases chunks@.len() - i,
    {
        assert(pieces[i as int] == chunks@[i as int]@);
        assert(model[i - 1] == pieces[i as int]);
        assert(model.take(i as int).drop_last() =~= model.take(i - 1));
        if let Some(b) = rule_of(chunks[i].as_str()) {
            proof {
                model::lemma_blocked_views_push(out@, b);
            }
            out.push(b);
        }
        i = i + 1;
    }
    assert(model.take(i - 1) =~= model);
    out
}

/// The state of the filter on the page of its switches.
pub open spec fn filter_status(body: Seq<char>, can_block: bool) -> model::MacFilterStatusView {
    model::MacFilterStatusView {
        enabled: page::para_value(body, "MacFilterEnable"@) == Some("1"@),
        mode: match page::para_value(body, "MacFilterTarget"@) {
            Some(mode) => mode,
            None => "unknown"@,
        },
        can_block,
    }
}

/// The state of the filter on the page of its switches.
pub fn parse_filter_status(body: &str, can_block: bool) -> (r: MacFilterStatus)
    ensures
        r@ == filter_status(body@, can_block),
{
    let enabled: bool = match page::extract_para_value(body, "MacFilterEnable") {
        Some(v) => text::same_text(v.as_str(), "1"),
        None => false,
    };
    let mode: String = match page::extract_para_value(body, "MacFilterTarget") {
        Some(mode) => mode,
        None => "unknown".to_owned(),
    };
    MacFilterStatus { enabled, mode, can_block }
}

/// The block list has a rule for the address `mac`.
pub open spec fn blocks(list: Seq<model::BlockedDeviceView>, mac: Seq<char>) -> bool {
    exists|i: int| 0 <= i < list.len() && (#[trigger] list[i]).mac == mac
}

/// Whether the block list has a rule for the address `mac`.
pub fn blocks_of(list: &Vec<BlockedDevice>, mac: &str) -> (r: bool)
    ensures
        r == blocks(model::blocked_views(list@), mac@),
{
    let mut i: usize = 0;
    while i < list.len()
        invariant
            i <= list@.len(),
            forall|k: int| 0 <= k < i ==> (#[trigger] list@[k]).mac@ != mac@,
        decreases list@.len() - i,
    {
        if text::same_text(list[i].mac.as_str(), mac) {
            assert(model::blocked_views(list@)[i as int].mac == mac@);
            return true;
        }
        i = i + 1;
    }
    assert forall|k: int| 0 <= k < list@.len() implies (#[trigger] model::blocked_views(
        list@,
    )[k]).mac != mac@ by {
        assert(list@[k].mac@ != mac@);
    }
    false
}

proof fn lemma_rules(chunks: Seq<Seq<char>>)
    ensures
        forall|k: int|
            0 <= k < rules(chunks).len() ==> model::is_colon_address(
                (#[trigger] rules(chunks)[k]).mac,
            ) && rules(chunks)[k].name.len() > 0,
    decreases chunks.len(),
{
    if chunks.len() > 0 {
        lemma_rules(chunks.drop_last());
        let map = page::parameters(chunks.last(), seq![]);
        let address = or_empty(
            first_of(textmap::lookup(map, "SrcMacAddr"@), textmap::lookup(map, "DstMacAddr"@)),
        );
        if model::normalized(address) is Some {
            model::law_normalize_idempotent(address);
        }
    }
}

/// Every rule of a block list has an address in colon notation and a name.
pub proof fn law_block_list(body: Seq<char>, k: int)
    requires
        0 <= k < block_list(body).len(),
    ensures
        model::is_colon_address(block_list(body)[k].mac),
        block_list(body)[k].name.len() > 0,
{
    lemma_rules(text::split_on(body, "<Instance>"@).skip(1));
}

/// A rule takes each of its properties from the parameter of that name: its address, which is the
/// source where there is one and else the destination, decides whether it is a rule at all, and it
/// stands for a name that is missing or empty.
pub proof fn law_rule(chunk: Seq<char>, mac: Seq<char>)
    ensures
        ({
            let map = page::parameters(chunk, seq![]);
            let source = textmap::lookup(map, "SrcMacAddr"@);
            let target = textmap::lookup(map, "DstMacAddr"@);
            let name = textmap::lookup(map, "Name"@);
            let known = (source matches Some(a) && model::normalized(a) == Some(mac)) || (source
                is None && (target matches Some(a) && model::normalized(a) == Some(mac)));
            &&& known ==> (rule(chunk) matches Some(r) && {
                &&& r.mac == mac
                &&& r.inst_id == match textmap::lookup(map, "_InstID"@) {
                    Some(id) => id,
                    None => Seq::<char>::empty(),
                }
                &&& (name is Some && name.unwrap().len() > 0) ==> Some(r.name) == name
                &&& (name is None || name.unwrap().len() == 0) ==> r.name == mac
                &&& r.protocol == textmap::lookup(map, "Protocol"@)
                &&& r.filter_type == textmap::lookup(map, "Type"@)
            })
            &&& source matches Some(a) ==> (model::normalized(a) is None ==> rule(chunk) is None)
            &&& source is None && target is None ==> rule(chunk) is None
        }),
{
    assert(model::hex_digits(seq![]) =~= seq![]);
}

/// Every instance on the page adds its rule, if it is one, behind those before it.
pub proof fn law_rules_in_order(a: Seq<Seq<char>>, b: Seq<Seq<char>>, chunk: Seq<char>)
    ensures
        rules(a + b) == rules(a) + rules(b),
        rule(chunk) matches Some(r) ==> rules(seq![chunk]) == seq![r],
        rule(chunk) is None ==> rules(seq![chunk]) == Seq::<model::BlockedDeviceView>::empty(),
    decreases b.len(),
{
    if b.len() == 0 {
        assert(a + b =~= a);
        assert(rules(a) + rules(b) =~= rules(a));
    } else {
        law_rules_in_order(a, b.drop_last(), chunk);
        assert((a + b).drop_last() =~= a + b.drop_last());
        assert((a + b).last() == b.last());
        assert(rules(a + b) =~= rules(a) + rules(b));
    }
    assert(seq![chunk].drop_last() =~= seq![]);
    assert(rules(seq![]) =~= seq![]);
    assert(seq![chunk].last() == chunk);
}

/// A page of the filter is told by the name of its object or of an address; what stands before the
/// first instance is no rule. Any other page has no block list.
pub proof fn law_filter_page(body: Seq<char>, k: int, i: int)
    ensures
        (text::first_at(body, "OBJ_MACFILTER"@, k) || text::first_at(body, "SrcMacAddr"@, k)) ==> {
            &&& text::first_at(body, "<Instance>"@, i) ==> block_list(body) == rules(
                text::split_on(
                    body.subrange(i + "<Instance>"@.len(), body.len() as int),
                    "<Instance>"@,
                ),
            )
            &&& text::absent(body, "<Instance>"@) ==> block_list(body) == Seq::<
                model::BlockedDeviceView,
            >::empty()
        },
        text::absent(body, "OBJ_MACFILTER"@) && text::absent(body, "SrcMacAddr"@) ==> block_list(
            body,
        ) == Seq::<model::BlockedDeviceView>::empty(),
{
    reveal_strlit("<Instance>");
    text::law_find(body, "OBJ_MACFILTER"@, k);
    text::law_find(body, "SrcMacAddr"@, k);
    text::law_split_and_replace(body, "<Instance>"@, "<Instance>"@, i);
    if text::first_at(body, "<Instance>"@, i) {
        let rest = text::split_on(
            body.subrange(i + "<Instance>"@.len(), body.len() as int),
            "<Instance>"@,
        );
        assert((seq![body.subrange(0, i)] + rest).skip(1) =~= rest);
    }
    assert(seq![body].skip(1) =~= seq![]);
}

/// The filter is on exactly where its switch says 1, and its mode is the one on the page, where
/// that says any.
pub proof fn law_filter_status(body: Seq<char>, can_block: bool)
    ensures
        filter_status(body, can_block).enabled <==> page::para_value(body, "MacFilterEnable"@)
            == Some("1"@),
        page::para_value(body, "MacFilterTarget"@) matches Some(m) ==> filter_status(
            body,
            can_block,
        ).mode == m,
        page::para_value(body, "MacFilterTarget"@) is None ==> filter_status(body, can_block).mode
            == "unknown"@,
        filter_status(body, can_block).can_block == can_block,
{
}

/// A list blocks the addresses of its rules and no others.
pub proof fn law_blocks(
    list: Seq<model::BlockedDeviceView>,
    r: model::BlockedDeviceView,
    mac: Seq<char>,
)
    ensures
        !blocks(seq![], mac),
        blocks(list.push(r), mac) <==> blocks(list, mac) || r.mac == mac,
{
    let all = list.push(r);
    assert(all[list.len() as int] == r);
    if blocks(list, mac) {
        let i = choose|i: int| 0 <= i < list.len() && (#[trigger] list[i]).mac == mac;
        assert(all[i].mac == mac);
    }
    if blocks(all, mac) && r.mac != mac {
        let i = choose|i: int| 0 <= i < all.len() && (#[trigger] all[i]).mac == mac;
        assert(list[i].mac == mac);
    }
}

} // verus!

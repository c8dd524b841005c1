//! The members of objects in JSON.

use crate::text;
use vstd::prelude::*;

verus! {

/// A member of an object, with its value as far as it is a text, a whole number or a truth value.
#[derive(Debug, Clone)]
pub struct JsonMember {
    pub key: String,
    pub text: Option<String>,
    pub integer: Option<i64>,
    pub boolean: Option<bool>,
}

/// The model of a [`JsonMember`].
pub struct JsonMemberView {
    pub key: Seq<char>,
    pub text: Option<Seq<char>>,
    pub integer: Option<i64>,
    pub boolean: Option<bool>,
}

impl View for JsonMember {
    type V = JsonMemberView;

    open spec fn view(&self) -> JsonMemberView {
        JsonMemberView {
            key: self.key@,
            text: text::opt_text(self.text),
            integer: self.integer,
            boolean: self.boolean,
        }
    }
}

/// The models of the members of an object.
pub open spec fn member_views(v: Seq<JsonMember>) -> Seq<JsonMemberView> {
    v.map_values(|m: JsonMember| m@)
}

/// The model of the members of a text that may be no JSON.
pub open spec fn opt_member_views(v: Option<Vec<JsonMember>>) -> Option<Seq<JsonMemberView>> {
    match v {
        Some(v) => Some(member_views(v@)),
        None => None,
    }
}

/// The members of the object that `text` is in JSON, and no members of any other JSON value; none
/// where it is no JSON.
pub uninterp spec fn json_members(text: Seq<char>) -> Option<Seq<JsonMemberView>>;

/// `serde_json::from_str` and the members of the value that it gives, with what `as_str`, `as_i64`
/// and `as_bool` say of each.
///
/// What is claimed is that the members depend on the text alone. Which texts are JSON and which
/// members they have is left to that function.
#[verifier::external_body]
pub(crate) fn parse_members(text: &str) -> (r: Option<Vec<JsonMember>>)
    ensures
        opt_member_views(r) == json_members(text@),
{
    let value: serde_json::Value = match serde_json::from_str(text) {
        Ok(v) => v,
        Err(_) => return None,
    };
    Some(value.as_object().into_iter().flatten().map(|(k, v)| JsonMember {
        key: k.clone(),
        text: v.as_str().map(str::to_owned),
        integer: v.as_i64(),
        boolean: v.as_bool(),
    }).collect())
}

/// The first member, from `from` on, with the key `key`.
pub open spec fn member_from(members: Seq<JsonMemberView>, key: Seq<char>, from: int) -> Option<
    JsonMemberView,
>
    decreases members.len() - from,
{
    if from >= members.len() {
        None
    } else if members[from].key == key {
        Some(members[from])
    } else {
        member_from(members, key, from + 1)
    }
}

/// The text of the member `key`.
pub open spec fn text_member(members: Seq<JsonMemberView>, key: Seq<char>) -> Option<Seq<char>> {
    match member_from(members, key, 0) {
        Some(m) => m.text,
        None => None,
    }
}

/// The whole number of the member `key`.
pub open spec fn integer_member(members: Seq<JsonMemberView>, key: Seq<char>) -> Option<i64> {
    match member_from(members, key, 0) {
        Some(m) => m.integer,
        None => None,
    }
}

/// The truth value of the member `key`.
pub open spec fn boolean_member(members: Seq<JsonMemberView>, key: Seq<char>) -> Option<bool> {
    match member_from(members, key, 0) {
        Some(m) => m.boolean,
        None => None,
    }
}

fn find_member<'a>(members: &'a Vec<JsonMember>, key: &str) -> (r: Option<&'a JsonMember>)
    ensures
        match r {
            Some(m) => member_from(member_views(members@), key@, 0) == Some(m@),
            None => member_from(member_views(members@), key@, 0) is None,
        },
{
    let ghost model = member_views(members@);
    let mut i: usize = 0;
    while i < members.len()
        invariant
            i <= members@.len(),
            model == member_views(members@),
            member_from(model, key@, 0) == member_from(model, key@, i as int),
        decreases members@.len() - i,
    {
        assert(model[i as int] == members@[i as int]@);
        if text::same_text(members[i].key.as_str(), key) {
            return Some(&members[i]);
        }
        i = i + 1;
    }
    None
}

/// The text of the member `key`.
pub fn text_member_of(members: &Vec<JsonMember>, key: &str) -> (r: Option<String>)
    ensures
        text::opt_text(r) == text_member(member_views(members@), key@),
{
    match find_member(members, key) {
        Some(m) => m.text.clone(),
        None => None,
    }
}

/// The whole number of the member `key`.
pub fn integer_member_of(members: &Vec<JsonMember>, key: &str) -> (r: Option<i64>)
    ensures
        r == integer_member(member_views(members@), key@),
{
    match find_member(members, key) {
        Some(m) => m.integer,
        None => None,
    }
}

/// The truth value of the member `key`.
pub fn boolean_member_of(members: &Vec<JsonMember>, key: &str) -> (r: Option<bool>)
    ensures
        r == boolean_member(member_views(members@), key@),
{
    match find_member(members, key) {
        Some(m) => m.boolean,
        None => None,
    }
}

/// The members of an object are found by their key, the first of that key; each kind of value only
/// where the member is of it.
pub proof fn law_members(members: Seq<JsonMemberView>, key: Seq<char>, i: int, from: int)
    requires
        0 <= from <= i <= members.len(),
        forall|j: int| 0 <= j < i ==> (#[trigger] members[j]).key != key,
    ensures
        i < members.len() && members[i].key == key ==> {
            &&& member_from(members, key, from) == Some(members[i])
            &&& text_member(members, key) == members[i].text
            &&& integer_member(members, key) == members[i].integer
            &&& boolean_member(members, key) == members[i].boolean
        },
        i == members.len() ==> {
            &&& member_from(members, key, from) is None
            &&& text_member(members, key) is None
            &&& integer_member(members, key) is None
            &&& boolean_member(members, key) is None
        },
{
    lemma_member_from(members, key, i, from);
    lemma_member_from(members, key, i, 0);
}

proof fn lemma_member_from(members: Seq<JsonMemberView>, key: Seq<char>, i: int, from: int)
    requires
        0 <= from <= i <= members.len(),
        forall|j: int| 0 <= j < i ==> (#[trigger] members[j]).key != key,
    ensures
        i < members.len() && members[i].key == key ==> member_from(members, key, from) == Some(
            members[i],
        ),
        i == members.len() ==> member_from(members, key, from) is None,
    decreases i - from,
{
    if from < i {
        assert(members[from].key != key);
        lemma_member_from(members, key, i, from + 1);
    }
}

} // verus!

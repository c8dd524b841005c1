//! What the pages of the router say: session tokens, single values and lists of parameters.

use crate::addr;
use crate::text;
use crate::textmap;
use crate::textmap::TextMap;
use vstd::prelude::*;
use vstd::utf8;

verus! {

/// The error of a byte sequence that is no UTF-8.
#[verifier::external_type_specification]
#[verifier::external_body]
pub struct ExFromUtf8Error(std::string::FromUtf8Error);

/// `String::from_utf8` succeeds exactly on valid UTF-8, and gives the text that it encodes.
pub assume_specification[ String::from_utf8 ](bytes: Vec<u8>) -> (r: Result<
    String,
    std::string::FromUtf8Error,
>)
    ensures
        r is Ok <==> utf8::valid_utf8(bytes@),
        r matches Ok(s) ==> s@ == utf8::decode_utf8(bytes@),
;

// ---------------------------------------------------------------------------------------------
// Short forms

/// At most `n` characters of `s`, with an ellipsis where some were cut off.
pub open spec fn truncated(s: Seq<char>, n: nat) -> Seq<char> {
    if s.len() > n {
        s.take(n as int) + "…"@
    } else {
        s
    }
}

/// At most `n` characters of `s`, with an ellipsis where some were cut off.
pub fn truncate(s: &str, n: usize) -> (r: String)
    ensures
        r@ == truncated(s@, n as nat),
{
    let a: Vec<char> = text::chars_of(s);
    if a.len() > n {
        assert(a@.subrange(0, n as int) =~= a@.take(n as int));
        text::slice_string(&a, 0, n).concat("…")
    } else {
        s.to_owned()
    }
}

/// `c` may stand in the name of a rule.
pub open spec fn is_name_char(c: char) -> bool {
    ||| '0' <= c <= '9'
    ||| 'a' <= c <= 'z'
    ||| 'A' <= c <= 'Z'
    ||| c == '-'
    ||| c == '_'
    ||| c == ' '
    ||| c == '.'
}

/// The characters of `s` that may stand in the name of a rule.
pub open spec fn name_chars(s: Seq<char>) -> Seq<char>
    decreases s.len(),
{
    if s.len() == 0 {
        seq![]
    } else if is_name_char(s.last()) {
        name_chars(s.drop_last()).push(s.last())
    } else {
        name_chars(s.drop_last())
    }
}

/// The first `n` characters of `s`, or all of them.
pub open spec fn at_most(s: Seq<char>, n: nat) -> Seq<char> {
    if s.len() > n {
        s.take(n as int)
    } else {
        s
    }
}

/// The name of a rule for a device called `name`, as it stands in a form: at most 32 of its
/// harmless characters, with spaces encoded, or `blocked` where nothing is left.
pub open spec fn sanitized(name: Seq<char>) -> Seq<char> {
    let t = text::trim(at_most(name_chars(name), 32));
    if t.len() == 0 {
        "blocked"@
    } else {
        text::replace(t, " "@, "%20"@)
    }
}

fn is_name_char_of(c: char) -> (r: bool)
    ensures
        r == is_name_char(c),
{
    ('0' <= c && c <= '9') || ('a' <= c && c <= 'z') || ('A' <= c && c <= 'Z') || c == '-' || c
        == '_' || c == ' ' || c == '.'
}

/// The name of a rule for a device called `name`.
pub fn sanitize_name(name: &str) -> (r: String)
    ensures
        r@ == sanitized(name@),
{
    let mut kept: Vec<char> = Vec::new();
    assert(name@.take(0) =~= seq![]);
    for c in it: name.chars()
        invariant
            it.seq() == name@,
            kept@ == name_chars(it.seq().take(it.index())),
    {
        assert(it.seq().take(it.index() + 1).drop_last() =~= it.seq().take(it.index()));
        if is_name_char_of(c) {
            kept.push(c);
        }
    }
    assert(name@.take(name@.len() as int) =~= name@);
    let n: usize = if kept.len() > 32 {
        32
    } else {
        kept.len()
    };
    assert(kept@.subrange(0, n as int) =~= at_most(name_chars(name@), 32));
    let t: String = text::trim_str(text::slice_string(&kept, 0, n).as_str());
    if t.as_str().is_empty() {
        "blocked".to_owned()
    } else {
        proof {
            reveal_strlit(" ");
        }
        text::replace_str(t.as_str(), " ", "%20")
    }
}

// ---------------------------------------------------------------------------------------------
// Escaped strings

/// The value of two characters read as a hexadecimal number of one byte, with or without a plus
/// sign.
pub open spec fn hex_pair(a: char, b: char) -> Option<u8> {
    if text::is_hex_digit(a) && text::is_hex_digit(b) {
        Some((16 * addr::hex_digit_value(a) + addr::hex_digit_value(b)) as u8)
    } else if a == '+' && text::is_hex_digit(b) {
        Some(addr::hex_digit_value(b) as u8)
    } else {
        None
    }
}

/// The bytes of a string literal: `\xHH` is one byte, any other character the low byte of its
/// code.
pub open spec fn literal_bytes(s: Seq<char>) -> Option<Seq<u8>>
    decreases s.len(),
{
    if s.len() == 0 {
        Some(seq![])
    } else if s[0] == '\\' && s.len() >= 2 && s[1] == 'x' {
        if s.len() < 4 {
            None
        } else {
            match (hex_pair(s[2], s[3]), literal_bytes(s.skip(4))) {
                (Some(b), Some(rest)) => Some(seq![b] + rest),
                _ => None,
            }
        }
    } else {
        match literal_bytes(s.drop_first()) {
            Some(rest) => Some(seq![(s[0] as u32 % 256) as u8] + rest),
            None => None,
        }
    }
}

/// The text of a string literal with `\xHH` escapes, where its bytes are valid UTF-8.
pub open spec fn literal_text(s: Seq<char>) -> Option<Seq<char>> {
    match literal_bytes(s) {
        Some(bytes) if utf8::valid_utf8(bytes) => Some(utf8::decode_utf8(bytes)),
        _ => None,
    }
}

fn hex_pair_of(a: char, b: char) -> (r: Option<u8>)
    ensures
        r == hex_pair(a, b),
{
    if text::is_hex_char(a) && text::is_hex_char(b) {
        Some((16 * addr::hex_digit_value_of(a) + addr::hex_digit_value_of(b)) as u8)
    } else if a == '+' && text::is_hex_char(b) {
        Some(addr::hex_digit_value_of(b) as u8)
    } else {
        None
    }
}

/// The text of a string literal with `\xHH` escapes.
pub fn decode_js_hex_string(s: &str) -> (r: Option<String>)
    ensures
        text::opt_text(r) == literal_text(s@),
{
    let a: Vec<char> = text::chars_of(s);
    let n: usize = a.len();
    let mut bytes: Vec<u8> = Vec::new();
    let mut i: usize = 0;
    proof {
        assert(a@.skip(0) =~= a@);
        if let Some(all) = literal_bytes(a@) {
            assert(bytes@ + all =~= all);
        }
    }
    while i < n
        invariant
            i <= n == a@.len(),
            a@ == s@,
            literal_bytes(a@) == match literal_bytes(a@.skip(i as int)) {
                Some(rest) => Some(bytes@ + rest),
                None => None,
            },
        decreases n - i,
    {
        let ghost rest = a@.skip(i as int);
        let ghost before = bytes@;
        if a[i] == '\\' && n - i >= 2 && a[i + 1] == 'x' {
            if n - i < 4 {
                return None;
            }
            match hex_pair_of(a[i + 2], a[i + 3]) {
                Some(b) => {
                    bytes.push(b);
                    proof {
                        assert(rest.skip(4) =~= a@.skip(i + 4));
                        if let Some(t) = literal_bytes(a@.skip(i + 4)) {
                            assert(before + (seq![b] + t) =~= before.push(b) + t);
                        }
                    }
                },
                None => {
                    return None;
                },
            }
            i = i + 4;
        } else {
            let code: u32 = a[i] as u32;
            let b: u8 = (code % 256) as u8;
            bytes.push(b);
            proof {
                assert(rest.drop_first() =~= a@.skip(i + 1));
                if let Some(t) = literal_bytes(a@.skip(i + 1)) {
                    assert(before + (seq![b] + t) =~= before.push(b) + t);
                }
            }
            i = i + 1;
        }
    }
    assert(literal_bytes(a@.skip(i as int)) == Some(Seq::<u8>::empty()));
    assert(bytes@ + Seq::<u8>::empty() =~= bytes@);
    match String::from_utf8(bytes) {
        Ok(t) => Some(t),
        Err(_) => None,
    }
}

// ---------------------------------------------------------------------------------------------
// Session tokens

/// The number of bytes of `c` in UTF-8.
pub open spec fn width(c: char) -> int {
    if c as u32 <= 0x7f {
        1
    } else if c as u32 <= 0x7ff {
        2
    } else if c as u32 <= 0xffff {
        3
    } else {
        4
    }
}

/// The text of the first `n` bytes of `s`, or `s` where it is no longer than that; none where the
/// cut would fall into a character.
pub open spec fn window(s: Seq<char>, n: int) -> Option<Seq<char>>
    decreases s.len(),
{
    if s.len() == 0 || n == 0 {
        Some(seq![])
    } else if width(s[0]) > n {
        None
    } else {
        match window(s.drop_first(), n - width(s[0])) {
            Some(t) => Some(seq![s[0]] + t),
            None => None,
        }
    }
}

/// The window of `n` bytes on `html` from the first `mark` on; none without the mark.
pub open spec fn marked(html: Seq<char>, mark: Seq<char>, n: int) -> Option<Seq<char>> {
    match text::starting_at(html, mark) {
        Some(rest) => window(rest, n),
        None => None,
    }
}

/// What stands between `open` and `close`.
pub open spec fn between(s: Seq<char>, open: Seq<char>, close: Seq<char>) -> Option<Seq<char>> {
    match text::behind(s, open) {
        Some(rest) => text::until(rest, close),
        None => None,
    }
}

/// What the script of a page says of the token: nothing, or the token it sets, which may fail to
/// decode.
pub open spec fn script_token(html: Seq<char>) -> Option<Option<Seq<char>>> {
    match marked(html, "_sessionTmpToken"@, 400) {
        Some(w) => match between(w, "\""@, "\""@) {
            Some(raw) => if text::contains(raw, "\\x"@) {
                Some(literal_text(raw))
            } else if raw.len() > 0 {
                Some(Some(raw))
            } else {
                None
            },
            None => None,
        },
        None => None,
    }
}

/// The value of the form field that begins with `mark`.
pub open spec fn field_token(html: Seq<char>, mark: Seq<char>) -> Option<Seq<char>> {
    match marked(html, mark, 200) {
        Some(w) => between(w, "value=\""@, "\""@),
        None => None,
    }
}

/// The session token of a page: from its script, else from a form field.
pub open spec fn session_token(html: Seq<char>) -> Option<Seq<char>> {
    match script_token(html) {
        Some(t) => t,
        None => match field_token(html, "id=\"_sessionTOKEN\""@) {
            Some(t) => Some(t),
            None => field_token(html, "name=\"_sessionTOKEN\""@),
        },
    }
}

/// The window of `n` bytes from the first `mark` on does not end within a character.
pub open spec fn whole(html: Seq<char>, mark: Seq<char>, n: int) -> bool {
    text::starting_at(html, mark) is Some ==> marked(html, mark, n) is Some
}

/// No window in which [`session_token`] looks ends within a character.
pub open spec fn token_readable(html: Seq<char>) -> bool {
    &&& whole(html, "_sessionTmpToken"@, 400)
    &&& script_token(html) is None ==> {
        &&& whole(html, "id=\"_sessionTOKEN\""@, 200)
        &&& field_token(html, "id=\"_sessionTOKEN\""@) is None ==> whole(
            html,
            "name=\"_sessionTOKEN\""@,
            200,
        )
    }
}

fn width_of(c: char) -> (r: usize)
    ensures
        r == width(c),
{
    let code: u32 = c as u32;
    if code <= 0x7f {
        1
    } else if code <= 0x7ff {
        2
    } else if code <= 0xffff {
        3
    } else {
        4
    }
}

fn window_of(s: &str, n: usize) -> (r: Option<String>)
    ensures
        text::opt_text(r) == window(s@, n as int),
{
    let a: Vec<char> = text::chars_of(s);
    let mut i: usize = 0;
    let mut left: usize = n;
    proof {
        assert(a@.skip(0) =~= a@);
        if let Some(t) = window(a@, n as int) {
            assert(a@.take(0) + t =~= t);
        }
    }
    while i < a.len() && left > 0
        invariant
            i <= a@.len(),
            a@ == s@,
            window(a@, n as int) == match window(a@.skip(i as int), left as int) {
                Some(t) => Some(a@.take(i as int) + t),
                None => None,
            },
        decreases a@.len() - i,
    {
        let w: usize = width_of(a[i]);
        if w > left {
            return None;
        }
        proof {
            assert(a@.skip(i as int).drop_first() =~= a@.skip(i + 1));
            if let Some(t) = window(a@.skip(i + 1), left - w) {
                assert(a@.take(i as int) + (seq![a@[i as int]] + t) =~= a@.take(i + 1) + t);
            }
        }
        left = left - w;
        i = i + 1;
    }
    assert(a@.take(i as int) + Seq::<char>::empty() =~= a@.take(i as int));
    assert(a@.subrange(0, i as int) =~= a@.take(i as int));
    Some(text::slice_string(&a, 0, i))
}

fn marked_of(html: &str, mark: &str, n: usize) -> (r: Option<String>)
    ensures
        text::opt_text(r) == marked(html@, mark@, n as int),
{
    match text::starting_at_str(html, mark) {
        Some(rest) => window_of(rest.as_str(), n),
        None => None,
    }
}

/// What stands between `open` and `close`.
pub fn between_of(s: &str, open: &str, close: &str) -> (r: Option<String>)
    ensures
        text::opt_text(r) == between(s@, open@, close@),
{
    match text::behind_str(s, open) {
        Some(rest) => text::until_str(rest.as_str(), close),
        None => None,
    }
}

fn script_token_of(html: &str) -> (r: Option<Option<String>>)
    ensures
        match r {
            Some(t) => script_token(html@) == Some(text::opt_text(t)),
            None => script_token(html@) is None,
        },
{
    match marked_of(html, "_sessionTmpToken", 400) {
        Some(w) => match between_of(w.as_str(), "\"", "\"") {
            Some(raw) => {
                if text::contains_str(raw.as_str(), "\\x") {
                    Some(decode_js_hex_string(raw.as_str()))
                } else if raw.as_str().is_empty() {
                    None
                } else {
                    Some(Some(raw))
                }
            },
            None => None,
        },
        None => None,
    }
}

fn field_token_of(html: &str, mark: &str) -> (r: Option<String>)
    ensures
        text::opt_text(r) == field_token(html@, mark@),
{
    match marked_of(html, mark, 200) {
        Some(w) => between_of(w.as_str(), "value=\"", "\""),
        None => None,
    }
}

fn whole_of(html: &str, mark: &str, n: usize) -> (r: bool)
    ensures
        r == whole(html@, mark@, n as int),
{
    text::starting_at_str(html, mark).is_none() || marked_of(html, mark, n).is_some()
}

/// Whether the session token of the page can be looked for: no window in which it is looked for
/// ends within a character.
pub fn token_readable_of(html: &str) -> (r: bool)
    ensures
        r == token_readable(html@),
{
    if !whole_of(html, "_sessionTmpToken", 400) {
        return false;
    }
    if script_token_of(html).is_some() {
        return true;
    }
    if !whole_of(html, "id=\"_sessionTOKEN\"", 200) {
        return false;
    }
    field_token_of(html, "id=\"_sessionTOKEN\"").is_some() || whole_of(
        html,
        "name=\"_sessionTOKEN\"",
        200,
    )
}

/// The session token of a page.
pub fn extract_session_token_from_html(html: &str) -> (r: Option<String>)
    requires
        token_readable(html@),
    ensures
        text::opt_text(r) == session_token(html@),
{
    match script_token_of(html) {
        Some(t) => t,
        None => match field_token_of(html, "id=\"_sessionTOKEN\"") {
            Some(t) => Some(t),
            None => field_token_of(html, "name=\"_sessionTOKEN\""),
        },
    }
}

// ---------------------------------------------------------------------------------------------
// Single values

/// The trimmed text of the first element `tag` without attributes.
pub open spec fn xml_text(body: Seq<char>, tag: Seq<char>) -> Option<Seq<char>> {
    match between(body, "<"@ + tag + ">"@, "</"@ + tag + ">"@) {
        Some(t) => Some(text::trim(t)),
        None => None,
    }
}

/// The trimmed value of the parameter `name`.
pub open spec fn para_value(body: Seq<char>, name: Seq<char>) -> Option<Seq<char>> {
    match text::starting_at(body, ">"@ + name + "<"@) {
        Some(rest) => match between(rest, "<ParaValue>"@, "</ParaValue>"@) {
            Some(v) => Some(text::trim(v)),
            None => None,
        },
        None => None,
    }
}

/// The trimmed text of the first element `tag` without attributes.
pub fn extract_xml_text(body: &str, tag: &str) -> (r: Option<String>)
    ensures
        text::opt_text(r) == xml_text(body@, tag@),
{
    let open: String = text::join3("<", tag, ">");
    let close: String = text::join3("</", tag, ">");
    match between_of(body, open.as_str(), close.as_str()) {
        Some(t) => Some(text::trim_str(t.as_str())),
        None => None,
    }
}

/// The trimmed value of the parameter `name`.
pub fn extract_para_value(body: &str, name: &str) -> (r: Option<String>)
    ensures
        text::opt_text(r) == para_value(body@, name@),
{
    let needle: String = text::join3(">", name, "<");
    match text::starting_at_str(body, needle.as_str()) {
        Some(rest) => match between_of(rest.as_str(), "<ParaValue>", "</ParaValue>") {
            Some(v) => Some(text::trim_str(v.as_str())),
            None => None,
        },
        None => None,
    }
}

// ---------------------------------------------------------------------------------------------
// Lists of parameters

/// The parameters of `rest`, put into `map` in the order in which they stand. A name without a
/// value is skipped, as is a value without an end.
pub open spec fn parameters(
    rest: Seq<char>,
    map: Seq<(Seq<char>, Seq<char>)>,
) -> Seq<(Seq<char>, Seq<char>)>
    decreases rest.len(),
{
    proof {
        reveal_strlit("<ParaName>");
        text::lemma_behind(rest, "<ParaName>"@);
    }
    match text::behind(rest, "<ParaName>"@) {
        None => map,
        Some(a) => {
            proof {
                text::lemma_behind(a, "</ParaName>"@);
            }
            match text::behind(a, "</ParaName>"@) {
                None => map,
                Some(b) => {
                    let key = text::trim(text::until(a, "</ParaName>"@).unwrap());
                    proof {
                        text::lemma_behind(b, "<ParaValue>"@);
                    }
                    match text::behind(b, "<ParaValue>"@) {
                        None => parameters(b, map),
                        Some(c) => {
                            proof {
                                text::lemma_behind(c, "</ParaValue>"@);
                            }
                            match text::behind(c, "</ParaValue>"@) {
                                None => parameters(c, map),
                                Some(d) => parameters(
                                    d,
                                    textmap::put(
                                        map,
                                        key,
                                        text::trim(text::until(c, "</ParaValue>"@).unwrap()),
                                    ),
                                ),
                            }
                        },
                    }
                },
            }
        },
    }
}

/// The parameters of a part of a page, by name.
pub fn para_map_from_chunk(chunk: &str) -> (map: TextMap<String>)
    ensures
        textmap::text_entries(map@) == parameters(chunk@, seq![]),
{
    let mut map: TextMap<String> = TextMap::new();
    let mut rest: String = chunk.to_owned();
    assert(textmap::text_entries(map@) =~= seq![]);
    loop
        invariant
            parameters(chunk@, seq![]) == parameters(rest@, textmap::text_entries(map@)),
        decreases rest@.len(),
    {
        proof {
            reveal_strlit("<ParaName>");
            text::lemma_behind(rest@, "<ParaName>"@);
        }
        let a: String = match text::behind_str(rest.as_str(), "<ParaName>") {
            Some(a) => a,
            None => {
                return map;
            },
        };
        proof {
            text::lemma_behind(a@, "</ParaName>"@);
        }
        let b: String = match text::behind_str(a.as_str(), "</ParaName>") {
            Some(b) => b,
            None => {
                return map;
            },
        };
        let key: String = match text::until_str(a.as_str(), "</ParaName>") {
            Some(k) => text::trim_str(k.as_str()),
            None => String::new(),
        };
        proof {
            text::lemma_behind(b@, "<ParaValue>"@);
        }
        match text::behind_str(b.as_str(), "<ParaValue>") {
            None => {
                rest = b;
            },
            Some(c) => {
                proof {
                    text::lemma_behind(c@, "</ParaValue>"@);
                }
                match text::behind_str(c.as_str(), "</ParaValue>") {
                    None => {
                        rest = c;
                    },
                    Some(d) => {
                        let value: String = match text::until_str(c.as_str(), "</ParaValue>") {
                            Some(v) => text::trim_str(v.as_str()),
                            None => String::new(),
                        };
                        proof {
                            textmap::lemma_text_entries_put(map@, key@, value);
                        }
                        map.insert(key, value);
                        rest = d;
                    },
                }
            },
        }
    }
}

/// The letters and digits of ASCII, the hyphen, the underscore and the dot.
pub open spec fn is_plain(s: Seq<char>) -> bool {
    forall|i: int|
        0 <= i < s.len() ==> ('0' <= #[trigger] s[i] <= '9' || 'a' <= s[i] <= 'z' || 'A' <= s[i]
            <= 'Z' || s[i] == '-' || s[i] == '_' || s[i] == '.')
}

proof fn lemma_name_chars_add(a: Seq<char>, b: Seq<char>)
    ensures
        name_chars(a + b) == name_chars(a) + name_chars(b),
    decreases b.len(),
{
    if b.len() == 0 {
        assert(a + b =~= a);
        assert(name_chars(a) + name_chars(b) =~= name_chars(a));
    } else {
        lemma_name_chars_add(a, b.drop_last());
        assert((a + b).drop_last() =~= a + b.drop_last());
        assert((a + b).last() == b.last());
        assert(name_chars(a + b) =~= name_chars(a) + name_chars(b));
    }
}

proof fn lemma_name_chars_all(s: Seq<char>)
    requires
        forall|i: int| 0 <= i < s.len() ==> is_name_char(#[trigger] s[i]),
    ensures
        name_chars(s) == s,
    decreases s.len(),
{
    if s.len() > 0 {
        let t = s.drop_last();
        assert forall|i: int| 0 <= i < t.len() implies is_name_char(#[trigger] t[i]) by {
            assert(t[i] == s[i]);
        }
        lemma_name_chars_all(t);
        assert(is_name_char(s[s.len() - 1]));
        assert(name_chars(s) =~= s);
    }
}

proof fn lemma_plain(s: Seq<char>)
    requires
        is_plain(s),
    ensures
        forall|i: int|
            0 <= i < s.len() ==> is_name_char(#[trigger] s[i]) && !text::is_white(s[i]) && s[i]
                != ' ',
        text::absent(s, " "@),
{
    reveal_strlit(" ");
    assert forall|j: int| 0 <= j && j + 1 <= s.len() implies #[trigger] s.subrange(j, j + 1)
        != " "@ by {
        assert(s.subrange(j, j + 1)[0] == s[j]);
    }
}

/// A harmless name of up to 32 characters stays as it is, but for a space, which is encoded. Any
/// other character is left out, as is what stands behind the 32nd; where nothing is left the rule
/// is called `blocked`.
pub proof fn law_sanitized(a: Seq<char>, c: char, b: Seq<char>)
    ensures
        is_plain(a) && 0 < a.len() <= 32 ==> sanitized(a) == a,
        is_plain(a) && is_plain(b) && a.len() > 0 && b.len() > 0 && a.len() + b.len() < 32
            ==> sanitized(a + seq![' '] + b) == a + "%20"@ + b,
        !('0' <= c <= '9' || 'a' <= c <= 'z' || 'A' <= c <= 'Z' || c == '-' || c == '_' || c == '.'
            || c == ' ') ==> sanitized(a + seq![c] + b) == sanitized(a + b),
        is_plain(a) && a.len() == 32 ==> sanitized(a + b) == a,
        sanitized(seq![]) == "blocked"@,
        sanitized(seq![' ']) == "blocked"@,
{
    reveal_strlit(" ");
    let none = Seq::<char>::empty();
    if is_plain(a) {
        lemma_plain(a);
        lemma_name_chars_all(a);
        assert(none + a + none =~= a);
        text::law_trim(none, a, none);
        text::law_split_and_replace(a, " "@, "%20"@, 0);
        lemma_name_chars_add(a, b);
        if a.len() == 32 {
            assert((a + name_chars(b)).take(32) =~= a);
            assert(a + name_chars(b) =~= a || (a + name_chars(b)).len() > 32);
        }
    }
    if is_plain(a) && is_plain(b) && a.len() > 0 && b.len() > 0 && a.len() + b.len() < 32 {
        let s = a + seq![' '] + b;
        lemma_plain(b);
        assert forall|i: int| 0 <= i < s.len() implies is_name_char(#[trigger] s[i]) by {
            if i < a.len() {
                assert(s[i] == a[i]);
            } else if i > a.len() {
                assert(s[i] == b[i - a.len() - 1]);
            }
        }
        lemma_name_chars_all(s);
        assert(none + s + none =~= s);
        assert(s[0] == a[0] && s.last() == b[b.len() - 1]);
        text::law_trim(none, s, none);
        assert(text::first_at(s, " "@, a.len() as int)) by {
            assert(s.subrange(a.len() as int, a.len() as int + 1) =~= " "@);
            assert forall|j: int| 0 <= j < a.len() implies #[trigger] s.subrange(j, j + 1)
                != " "@ by {
                assert(s.subrange(j, j + 1)[0] == a[j]);
            }
        }
        text::law_split_and_replace(s, " "@, "%20"@, a.len() as int);
        text::law_split_and_replace(b, " "@, "%20"@, 0);
        assert(s.subrange(0, a.len() as int) =~= a);
        assert(s.subrange(a.len() as int + 1, s.len() as int) =~= b);
    }
    lemma_name_chars_add(a + seq![c], b);
    lemma_name_chars_add(a, seq![c]);
    lemma_name_chars_add(a, b);
    assert(seq![c].drop_last() =~= none);
    assert(name_chars(none) =~= none);
    if !is_name_char(c) {
        assert(name_chars(seq![c]) =~= none);
        assert(name_chars(a) + none =~= name_chars(a));
    }
    text::law_trim(none, none, none);
    assert(none + none + none =~= none);
    assert(seq![' '].drop_last() =~= none);
    assert(name_chars(seq![' ']) =~= seq![' ']);
    assert(seq![' '] + none + none =~= seq![' ']);
    text::law_trim(seq![' '], none, none);
}

/// A text of up to `n` characters stays whole; of a longer one the first `n` and an ellipsis are
/// left.
pub proof fn law_truncated(a: Seq<char>, b: Seq<char>, n: nat)
    ensures
        a.len() <= n ==> truncated(a, n) == a,
        a.len() == n && b.len() > 0 ==> truncated(a + b, n) == a.push('\u{2026}'),
{
    reveal_strlit("…");
    if a.len() == n && b.len() > 0 {
        assert((a + b).take(n as int) =~= a);
        assert(a + "…"@ =~= a.push('\u{2026}'));
    }
}

/// An escape of two digits is one byte, the first digit weighing sixteen; any other character of
/// Latin-1 is the byte of its code.
pub proof fn law_literal_bytes(h: nat, l: nat, c: char, rest: Seq<char>)
    requires
        h < 10,
        l < 10,
        (c as u32) < 256,
    ensures
        literal_bytes(seq![]) == Some(Seq::<u8>::empty()),
        literal_bytes(rest) matches Some(t) ==> {
            &&& literal_bytes(
                seq!['\\', 'x', ('0' as nat + h) as char, ('0' as nat + l) as char] + rest,
            ) == Some(seq![(16 * h + l) as u8] + t)
            &&& h < 6 && l < 6 ==> literal_bytes(
                seq!['\\', 'x', ('a' as nat + h) as char, ('A' as nat + l) as char] + rest,
            ) == Some(seq![(16 * (10 + h) + 10 + l) as u8] + t)
            &&& c != '\\' ==> literal_bytes(seq![c] + rest) == Some(seq![c as u8] + t)
        },
        literal_bytes(rest) is None && c != '\\' ==> literal_bytes(seq![c] + rest) is None,
        literal_bytes(seq!['\\', 'x']) is None,
        literal_bytes(seq!['\\', 'x', c]) is None,
        literal_bytes(seq!['\\', 'x', 'g', c] + rest) is None,
{
    let d = seq!['\\', 'x', ('0' as nat + h) as char, ('0' as nat + l) as char] + rest;
    assert(d.skip(4) =~= rest);
    let e = seq!['\\', 'x', ('a' as nat + h) as char, ('A' as nat + l) as char] + rest;
    assert(e.skip(4) =~= rest);
    assert((seq![c] + rest).drop_first() =~= rest);
    assert((seq![c] + rest)[0] == c);
}

/// The window on a text of ASCII holds one character for each byte.
proof fn lemma_window(s: Seq<char>, n: int)
    requires
        n >= 0,
        forall|i: int| 0 <= i < s.len() ==> (#[trigger] s[i]) as u32 <= 0x7f,
    ensures
        window(s, n) == Some(if s.len() > n { s.take(n) } else { s }),
    decreases s.len(),
{
    if s.len() > 0 && n > 0 {
        let t = s.drop_first();
        assert forall|i: int| 0 <= i < t.len() implies (#[trigger] t[i]) as u32 <= 0x7f by {
            assert(t[i] == s[i + 1]);
        }
        assert(s[0] as u32 <= 0x7f);
        lemma_window(t, n - 1);
        assert(seq![s[0]] + t =~= s);
        if t.len() > n - 1 {
            assert(seq![s[0]] + t.take(n - 1) =~= s.take(n));
        }
    } else if n == 0 {
        assert(s.take(0) =~= seq![]);
        assert(s.len() == 0 ==> s =~= seq![]);
    } else {
        assert(s =~= seq![]);
    }
}

/// `w` is the text of ASCII in `html` from the first `mark` on, but no more than `n` characters.
pub open spec fn excerpt(html: Seq<char>, mark: Seq<char>, n: int, w: Seq<char>) -> bool {
    exists|i: int|
        {
            &&& #[trigger] text::first_at(html, mark, i)
            &&& forall|k: int| i <= k < html.len() ==> (#[trigger] html[k]) as u32 <= 0x7f
            &&& w == if html.len() - i > n {
                html.subrange(i, i + n)
            } else {
                html.subrange(i, html.len() as int)
            }
        }
}

proof fn lemma_excerpt(html: Seq<char>, mark: Seq<char>, n: int, w: Seq<char>)
    requires
        n >= 0,
        excerpt(html, mark, n, w),
    ensures
        marked(html, mark, n) == Some(w),
{
    let i = choose|i: int|
        {
            &&& #[trigger] text::first_at(html, mark, i)
            &&& forall|k: int| i <= k < html.len() ==> (#[trigger] html[k]) as u32 <= 0x7f
            &&& w == if html.len() - i > n {
                html.subrange(i, i + n)
            } else {
                html.subrange(i, html.len() as int)
            }
        };
    text::law_find(html, mark, i);
    let s = html.subrange(i, html.len() as int);
    assert forall|k: int| 0 <= k < s.len() implies (#[trigger] s[k]) as u32 <= 0x7f by {
        assert(s[k] == html[i + k]);
    }
    lemma_window(s, n);
    if s.len() > n {
        assert(s.take(n) =~= html.subrange(i, i + n));
    }
}

/// `t` stands in `w` between the first `open` and the first `close` behind it.
pub open spec fn encloses(w: Seq<char>, open: Seq<char>, t: Seq<char>, close: Seq<char>) -> bool {
    exists|i: int, j: int|
        {
            &&& #[trigger] text::first_at(w, open, i)
            &&& #[trigger] text::first_at(
                w.subrange(i + open.len(), w.len() as int),
                close,
                j,
            )
            &&& t == w.subrange(i + open.len(), i + open.len() + j)
        }
}

proof fn lemma_encloses(w: Seq<char>, open: Seq<char>, t: Seq<char>, close: Seq<char>)
    requires
        encloses(w, open, t, close),
    ensures
        between(w, open, close) == Some(t),
{
    let (i, j) = choose|i: int, j: int|
        {
            &&& #[trigger] text::first_at(w, open, i)
            &&& #[trigger] text::first_at(
                w.subrange(i + open.len(), w.len() as int),
                close,
                j,
            )
            &&& t == w.subrange(i + open.len(), i + open.len() + j)
        };
    text::law_find(w, open, i);
    let rest = w.subrange(i + open.len(), w.len() as int);
    text::law_find(rest, close, j);
    assert(rest.subrange(0, j) =~= t);
}

/// The token of a session is the first quoted text, if any, in the 400 characters from the first
/// `_sessionTmpToken` on, unescaped where it holds escapes.
pub proof fn law_script_token(html: Seq<char>, w: Seq<char>, token: Seq<char>)
    requires
        excerpt(html, "_sessionTmpToken"@, 400, w),
        encloses(w, "\""@, token, "\""@),
    ensures
        token.len() > 0 && text::absent(token, "\\x"@) ==> session_token(html) == Some(token),
        forall|k: int|
            #[trigger] text::first_at(token, "\\x"@, k) ==> session_token(html) == literal_text(
                token,
            ),
{
    lemma_excerpt(html, "_sessionTmpToken"@, 400, w);
    lemma_encloses(w, "\""@, token, "\""@);
    text::law_find(token, "\\x"@, 0);
    assert forall|k: int| #[trigger]
        text::first_at(token, "\\x"@, k) implies session_token(html) == literal_text(token) by {
        text::law_find(token, "\\x"@, k);
    }
}

/// On a page without a script that sets it, the token of a session is the value of the field that
/// is identified by `_sessionTOKEN`, and else of the one that is named so.
pub proof fn law_field_token(html: Seq<char>, w: Seq<char>, token: Seq<char>)
    requires
        text::absent(html, "_sessionTmpToken"@),
        encloses(w, "value=\""@, token, "\""@),
    ensures
        excerpt(html, "id=\"_sessionTOKEN\""@, 200, w) ==> session_token(html) == Some(token),
        text::absent(html, "id=\"_sessionTOKEN\""@) && excerpt(
            html,
            "name=\"_sessionTOKEN\""@,
            200,
            w,
        ) ==> session_token(html) == Some(token),
{
    text::law_find(html, "_sessionTmpToken"@, 0);
    text::law_find(html, "id=\"_sessionTOKEN\""@, 0);
    lemma_encloses(w, "value=\""@, token, "\""@);
    if excerpt(html, "id=\"_sessionTOKEN\""@, 200, w) {
        lemma_excerpt(html, "id=\"_sessionTOKEN\""@, 200, w);
    }
    if excerpt(html, "name=\"_sessionTOKEN\""@, 200, w) {
        lemma_excerpt(html, "name=\"_sessionTOKEN\""@, 200, w);
    }
}

/// A page that says nothing of a token gives none.
pub proof fn law_no_token(html: Seq<char>)
    requires
        text::absent(html, "_sessionTmpToken"@),
        text::absent(html, "id=\"_sessionTOKEN\""@),
        text::absent(html, "name=\"_sessionTOKEN\""@),
    ensures
        session_token(html) is None,
{
    text::law_find(html, "_sessionTmpToken"@, 0);
    text::law_find(html, "id=\"_sessionTOKEN\""@, 0);
    text::law_find(html, "name=\"_sessionTOKEN\""@, 0);
}

/// The text of an element is what stands between its tags, without white space at the ends.
pub proof fn law_xml_text(body: Seq<char>, tag: Seq<char>, t: Seq<char>)
    ensures
        encloses(body, "<"@ + tag + ">"@, t, "</"@ + tag + ">"@) ==> xml_text(body, tag) == Some(
            text::trim(t),
        ),
        text::absent(body, "<"@ + tag + ">"@) ==> xml_text(body, tag) is None,
{
    text::law_find(body, "<"@ + tag + ">"@, 0);
    if encloses(body, "<"@ + tag + ">"@, t, "</"@ + tag + ">"@) {
        lemma_encloses(body, "<"@ + tag + ">"@, t, "</"@ + tag + ">"@);
    }
}

/// The value of a parameter stands between the first value tags behind its name.
pub proof fn law_para_value(body: Seq<char>, name: Seq<char>, i: int, v: Seq<char>)
    ensures
        text::first_at(body, ">"@ + name + "<"@, i) && encloses(
            body.subrange(i, body.len() as int),
            "<ParaValue>"@,
            v,
            "</ParaValue>"@,
        ) ==> para_value(body, name) == Some(text::trim(v)),
        text::absent(body, ">"@ + name + "<"@) ==> para_value(body, name) is None,
{
    text::law_find(body, ">"@ + name + "<"@, i);
    let rest = body.subrange(i, body.len() as int);
    if encloses(rest, "<ParaValue>"@, v, "</ParaValue>"@) {
        lemma_encloses(rest, "<ParaValue>"@, v, "</ParaValue>"@);
    }
}

proof fn lemma_find_tag(s: Seq<char>, pre: Seq<char>, tag: Seq<char>, post: Seq<char>)
    requires
        s == pre + tag + post,
        tag.len() > 0,
        tag[0] == '<',
        !pre.contains('<'),
    ensures
        text::behind(s, tag) == Some(post),
        text::until(s, tag) == Some(pre),
{
    assert(text::first_at(s, tag, pre.len() as int)) by {
        assert(s.subrange(pre.len() as int, pre.len() as int + tag.len()) =~= tag);
        assert forall|j: int| 0 <= j < pre.len() implies #[trigger] s.subrange(j, j + tag.len())
            != tag by {
            assert(s[j] == pre[j]);
            assert(pre.contains(pre[j]));
            if j + tag.len() <= s.len() {
                assert(s.subrange(j, j + tag.len())[0] == s[j]);
            }
        }
    }
    text::law_find(s, tag, pre.len() as int);
    assert(s.subrange(0, pre.len() as int) =~= pre);
    assert(s.subrange(pre.len() as int + tag.len(), s.len() as int) =~= post);
}

/// A name and the value behind it are one parameter, both without white space at the ends; a text
/// without names holds none.
pub proof fn law_parameters(
    a: Seq<char>,
    key: Seq<char>,
    b: Seq<char>,
    value: Seq<char>,
    rest: Seq<char>,
    map: Seq<(Seq<char>, Seq<char>)>,
)
    requires
        !a.contains('<'),
        !key.contains('<'),
        !b.contains('<'),
        !value.contains('<'),
    ensures
        parameters(
            a + "<ParaName>"@ + (key + "</ParaName>"@ + (b + "<ParaValue>"@ + (value
                + "</ParaValue>"@ + rest))),
            map,
        ) == parameters(rest, textmap::put(map, text::trim(key), text::trim(value))),
        text::absent(rest, "<ParaName>"@) ==> parameters(rest, map) == map,
{
    reveal_strlit("<ParaName>");
    reveal_strlit("</ParaName>");
    reveal_strlit("<ParaValue>");
    reveal_strlit("</ParaValue>");
    let s4 = value + "</ParaValue>"@ + rest;
    let s3 = b + "<ParaValue>"@ + s4;
    let s2 = key + "</ParaName>"@ + s3;
    let s1 = a + "<ParaName>"@ + s2;
    lemma_find_tag(s1, a, "<ParaName>"@, s2);
    lemma_find_tag(s2, key, "</ParaName>"@, s3);
    lemma_find_tag(s3, b, "<ParaValue>"@, s4);
    lemma_find_tag(s4, value, "</ParaValue>"@, rest);
    text::law_find(rest, "<ParaName>"@, 0);
}

/// A window that would end inside a character is none: one of two bytes or more before the last
/// byte, one of three or more before the last two, one of four before the last three.
pub proof fn law_window_cut(a: Seq<char>, c: char, b: Seq<char>, n: int)
    requires
        forall|i: int| 0 <= i < a.len() ==> (#[trigger] a[i]) as u32 <= 0x7f,
        (c as u32 >= 0x80 && n == a.len() + 1) || (c as u32 >= 0x800 && n == a.len() + 2) || (c as u32
            >= 0x1_0000 && n == a.len() + 3),
    ensures
        window(a + seq![c] + b, n) is None,
    decreases a.len(),
{
    let s = a + seq![c] + b;
    if a.len() > 0 {
        assert(s[0] == a[0]);
        assert(a[0] as u32 <= 0x7f);
        assert(s.drop_first() =~= a.drop_first() + seq![c] + b);
        assert forall|i: int| 0 <= i < a.drop_first().len() implies (#[trigger] a.drop_first()[i]) as u32
            <= 0x7f by {
            assert(a.drop_first()[i] == a[i + 1]);
        }
        law_window_cut(a.drop_first(), c, b, n - 1);
    } else {
        assert(s[0] == c);
    }
}

/// The token of a page of ASCII can always be read; not where a window on the page, from the first
/// mark of a script or, without a token there, of a field on, would end inside a character.
pub proof fn law_token_readable(html: Seq<char>, i: int)
    ensures
        (forall|k: int| 0 <= k < html.len() ==> (#[trigger] html[k]) as u32 <= 0x7f)
            ==> token_readable(html),
        text::first_at(html, "_sessionTmpToken"@, i) && window(
            html.subrange(i, html.len() as int),
            400,
        ) is None ==> !token_readable(html),
        text::absent(html, "_sessionTmpToken"@) && text::first_at(
            html,
            "id=\"_sessionTOKEN\""@,
            i,
        ) && window(html.subrange(i, html.len() as int), 200) is None ==> !token_readable(html),
        text::absent(html, "_sessionTmpToken"@) && text::absent(html, "id=\"_sessionTOKEN\""@)
            && text::first_at(html, "name=\"_sessionTOKEN\""@, i) && window(
            html.subrange(i, html.len() as int),
            200,
        ) is None ==> !token_readable(html),
        text::absent(html, "_sessionTmpToken"@) && text::absent(html, "id=\"_sessionTOKEN\""@)
            && text::absent(html, "name=\"_sessionTOKEN\""@) ==> token_readable(html),
{
    if forall|k: int| 0 <= k < html.len() ==> (#[trigger] html[k]) as u32 <= 0x7f {
        lemma_whole(html, "_sessionTmpToken"@, 400);
        lemma_whole(html, "id=\"_sessionTOKEN\""@, 200);
        lemma_whole(html, "name=\"_sessionTOKEN\""@, 200);
    }
    text::law_find(html, "_sessionTmpToken"@, i);
    text::law_find(html, "id=\"_sessionTOKEN\""@, i);
    text::law_find(html, "name=\"_sessionTOKEN\""@, i);
}

proof fn lemma_whole(html: Seq<char>, mark: Seq<char>, n: int)
    requires
        n >= 0,
        forall|k: int| 0 <= k < html.len() ==> (#[trigger] html[k]) as u32 <= 0x7f,
    ensures
        whole(html, mark, n),
{
    text::lemma_find_from(html, mark, 0);
    if let Some(i) = text::find(html, mark) {
        let s = html.skip(i);
        assert forall|k: int| 0 <= k < s.len() implies (#[trigger] s[k]) as u32 <= 0x7f by {
            assert(s[k] == html[i + k]);
        }
        lemma_window(s, n);
    }
}

} // verus!
